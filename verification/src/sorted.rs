//! A map from names to values that hands its entries out in the order of the
//! names.

use vstd::prelude::*;

use crate::text::chars_of;

verus! {

/// Whether `a` comes before `b`: by the first character in which they differ,
/// or by being shorter.
pub open spec fn precedes(a: Seq<char>, b: Seq<char>) -> bool
    decreases a.len(),
{
    if b.len() == 0 {
        false
    } else if a.len() == 0 {
        true
    } else if a[0] != b[0] {
        a[0] < b[0]
    } else {
        precedes(a.drop_first(), b.drop_first())
    }
}

/// Of two names one comes first, unless they are the same.
pub proof fn law_names_are_ordered(a: Seq<char>, b: Seq<char>)
    ensures
        a == b ==> !precedes(a, b),
        a != b ==> precedes(a, b) != precedes(b, a),
    decreases a.len(),
{
    if a.len() == 0 || b.len() == 0 {
        if a.len() == 0 && b.len() == 0 {
            assert(a =~= b);
        }
    } else if a[0] == b[0] {
        law_names_are_ordered(a.drop_first(), b.drop_first());
        if a.drop_first() == b.drop_first() {
            assert(a =~= seq![a[0]] + a.drop_first());
            assert(b =~= seq![b[0]] + b.drop_first());
            assert(a == b);
        }
    }
}

/// What comes before something comes before all that comes behind it.
pub proof fn law_order_is_transitive(a: Seq<char>, b: Seq<char>, c: Seq<char>)
    requires
        precedes(a, b),
        precedes(b, c),
    ensures
        precedes(a, c),
    decreases a.len(),
{
    if a.len() > 0 && b.len() > 0 && c.len() > 0 && a[0] == b[0] && b[0] == c[0] {
        law_order_is_transitive(a.drop_first(), b.drop_first(), c.drop_first());
    }
}

/// How two names compare.
#[derive(Debug, Clone, Copy, PartialEq, Eq, Structural)]
pub enum Place {
    /// The first comes first.
    Before,
    /// They are the same.
    Same,
    /// The second comes first.
    Behind,
}

/// How `a` compares to `b`.
pub open spec fn place(a: Seq<char>, b: Seq<char>) -> Place {
    if a == b {
        Place::Same
    } else if precedes(a, b) {
        Place::Before
    } else {
        Place::Behind
    }
}

/// How `a` compares to `b`.
pub fn place_of(a: &Vec<char>, b: &Vec<char>) -> (r: Place)
    ensures
        r == place(a@, b@),
{
    let mut i: usize = 0;
    assert(a@.skip(0) =~= a@);
    assert(b@.skip(0) =~= b@);
    while i < a.len() && i < b.len()
        invariant
            i <= a@.len(),
            i <= b@.len(),
            a@.take(i as int) == b@.take(i as int),
            precedes(a@, b@) == precedes(a@.skip(i as int), b@.skip(i as int)),
        decreases a@.len() - i,
    {
        let ghost x = a@.skip(i as int);
        let ghost y = b@.skip(i as int);
        assert(x[0] == a@[i as int] && y[0] == b@[i as int]);
        if a[i] != b[i] {
            assert(a@ != b@);
            if a[i] < b[i] {
                return Place::Before;
            }
            return Place::Behind;
        }
        assert(x.drop_first() =~= a@.skip(i + 1));
        assert(y.drop_first() =~= b@.skip(i + 1));
        assert(a@.take(i + 1) =~= b@.take(i + 1));
        i += 1;
    }
    if a.len() == b.len() {
        assert(a@.take(i as int) =~= a@);
        assert(b@.take(i as int) =~= b@);
        Place::Same
    } else if a.len() < b.len() {
        assert(a@.skip(i as int).len() == 0);
        assert(b@.skip(i as int).len() > 0);
        Place::Before
    } else {
        assert(b@.skip(i as int).len() == 0);
        Place::Behind
    }
}

/// Whether the names of the entries stand in order, each once.
pub open spec fn in_order<T>(entries: Seq<(Seq<char>, T)>) -> bool {
    forall|i: int, j: int|
        0 <= i < j < entries.len() ==> precedes(
            (#[trigger] entries[i]).0,
            (#[trigger] entries[j]).0,
        )
}

/// The value under a name.
pub open spec fn lookup<T>(entries: Seq<(Seq<char>, T)>, key: Seq<char>) -> Option<T>
    decreases entries.len(),
{
    if entries.len() == 0 {
        None
    } else if entries.last().0 == key {
        Some(entries.last().1)
    } else {
        lookup(entries.drop_last(), key)
    }
}

/// The entries with `value` under `key`, in place of what was there.
pub open spec fn with<T>(entries: Seq<(Seq<char>, T)>, key: Seq<char>, value: T) -> Seq<
    (Seq<char>, T),
>
    decreases entries.len(),
{
    if entries.len() == 0 {
        seq![(key, value)]
    } else {
        match place(key, entries.last().0) {
            Place::Behind => entries.push((key, value)),
            Place::Same => entries.drop_last().push((key, value)),
            Place::Before => with(entries.drop_last(), key, value).push(entries.last()),
        }
    }
}

/// A name's value is the last one that was put there, and the values of other
/// names stay as they are.
pub proof fn law_inserted_values_are_found<T>(
    entries: Seq<(Seq<char>, T)>,
    key: Seq<char>,
    value: T,
    other: Seq<char>,
)
    requires
        in_order(entries),
    ensures
        lookup(with(entries, key, value), key) == Some(value),
        other != key ==> lookup(with(entries, key, value), other) == lookup(entries, other),
    decreases entries.len(),
{
    let w = with(entries, key, value);
    if entries.len() == 0 {
        assert(w.drop_last() =~= entries);
    } else {
        match place(key, entries.last().0) {
            Place::Behind => {
                assert(w.drop_last() =~= entries);
            },
            Place::Same => {
                assert(w.drop_last() =~= entries.drop_last());
            },
            Place::Before => {
                law_inserted_values_are_found(entries.drop_last(), key, value, other);
                assert(w.drop_last() =~= with(entries.drop_last(), key, value));
                assert(w.last() == entries.last());
            },
        }
    }
}

/// The entries stay in order.
pub proof fn law_order_is_kept<T>(entries: Seq<(Seq<char>, T)>, key: Seq<char>, value: T)
    requires
        in_order(entries),
    ensures
        in_order(with(entries, key, value)),
        forall|i: int|
            0 <= i < with(entries, key, value).len() ==> (#[trigger] with(
                entries,
                key,
                value,
            )[i]).0 == key || exists|j: int|
                0 <= j < entries.len() && #[trigger] entries[j].0 == with(entries, key, value)[i].0,
    decreases entries.len(),
{
    let w = with(entries, key, value);
    if entries.len() > 0 {
        let last = entries.last();
        assert(last == entries[entries.len() - 1]);
        law_names_are_ordered(key, last.0);
        let below = entries.drop_last();
        assert forall|i: int, j: int| 0 <= i < j < below.len() implies precedes(
            (#[trigger] below[i]).0,
            (#[trigger] below[j]).0,
        ) by {
            assert(below[i] == entries[i] && below[j] == entries[j]);
        }
        match place(key, last.0) {
            Place::Behind => {
                assert forall|i: int, j: int| 0 <= i < j < w.len() implies precedes(
                    (#[trigger] w[i]).0,
                    (#[trigger] w[j]).0,
                ) by {
                    if j == entries.len() && i < entries.len() - 1 {
                        assert(precedes(entries[i].0, last.0));
                        law_order_is_transitive(entries[i].0, last.0, key);
                    } else if j < entries.len() {
                        assert(precedes(entries[i].0, entries[j].0));
                    }
                }
            },
            Place::Same => {
                assert forall|i: int, j: int| 0 <= i < j < w.len() implies precedes(
                    (#[trigger] w[i]).0,
                    (#[trigger] w[j]).0,
                ) by {
                    assert(precedes(entries[i].0, entries[j].0));
                }
            },
            Place::Before => {
                law_order_is_kept(below, key, value);
                let v = with(below, key, value);
                assert forall|i: int, j: int| 0 <= i < j < w.len() implies precedes(
                    (#[trigger] w[i]).0,
                    (#[trigger] w[j]).0,
                ) by {
                    assert(w[i] == v[i]);
                    if j < v.len() {
                        assert(w[j] == v[j]);
                    } else if v[i].0 != key {
                        let k = choose|k: int|
                            0 <= k < below.len() && #[trigger] below[k].0 == v[i].0;
                        assert(below[k] == entries[k]);
                        assert(precedes(entries[k].0, entries[entries.len() - 1].0));
                    }
                }
                assert forall|i: int| 0 <= i < w.len() implies (#[trigger] w[i]).0 == key
                    || exists|j: int|
                    0 <= j < entries.len() && #[trigger] entries[j].0 == w[i].0 by {
                    if i < v.len() {
                        assert(w[i] == v[i]);
                        if v[i].0 != key {
                            let k = choose|k: int|
                                0 <= k < below.len() && #[trigger] below[k].0 == v[i].0;
                            assert(entries[k] == below[k]);
                        }
                    } else {
                        assert(entries[entries.len() - 1].0 == w[i].0);
                    }
                }
            },
        }
    }
}

proof fn lemma_found<T>(entries: Seq<(Seq<char>, T)>, key: Seq<char>)
    requires
        lookup(entries, key) is Some,
    ensures
        exists|i: int| 0 <= i < entries.len() && #[trigger] entries[i].0 == key,
    decreases entries.len(),
{
    if entries.last().0 == key {
        assert(entries[entries.len() - 1].0 == key);
    } else {
        let below = entries.drop_last();
        lemma_found(below, key);
        let i = choose|i: int| 0 <= i < below.len() && #[trigger] below[i].0 == key;
        assert(entries[i].0 == key);
    }
}

/// A new name is one entry more; a name that is there already is none more.
pub proof fn law_names_are_counted<T>(entries: Seq<(Seq<char>, T)>, key: Seq<char>, value: T)
    requires
        in_order(entries),
    ensures
        with(entries, key, value).len() == entries.len() + if lookup(entries, key) is Some {
            0int
        } else {
            1int
        },
    decreases entries.len(),
{
    if entries.len() > 0 {
        let last = entries.last();
        assert(last == entries[entries.len() - 1]);
        law_names_are_ordered(key, last.0);
        let below = entries.drop_last();
        assert(in_order(below)) by {
            assert forall|i: int, j: int| 0 <= i < j < below.len() implies precedes(
                (#[trigger] below[i]).0,
                (#[trigger] below[j]).0,
            ) by {
                assert(below[i] == entries[i] && below[j] == entries[j]);
            }
        }
        match place(key, last.0) {
            Place::Behind => {
                if lookup(entries, key) is Some {
                    lemma_found(entries, key);
                    let i = choose|i: int| 0 <= i < entries.len() && #[trigger] entries[i].0 == key;
                    assert(i < entries.len() - 1);
                    assert(precedes(entries[i].0, entries[entries.len() - 1].0));
                }
            },
            Place::Same => {},
            Place::Before => {
                law_names_are_counted(below, key, value);
            },
        }
    }
}

/// The entries with `f` applied to their values.
pub open spec fn mapped<T, U>(v: Seq<(Seq<char>, T)>, f: spec_fn(T) -> U) -> Seq<(Seq<char>, U)> {
    v.map_values(|e: (Seq<char>, T)| (e.0, f(e.1)))
}

/// Inserting and applying a function to the values commute.
pub proof fn lemma_mapped_with<T, U>(
    v: Seq<(Seq<char>, T)>,
    key: Seq<char>,
    value: T,
    f: spec_fn(T) -> U,
)
    ensures
        mapped(with(v, key, value), f) == with(mapped(v, f), key, f(value)),
    decreases v.len(),
{
    let t = mapped(v, f);
    if v.len() > 0 {
        assert(t.drop_last() =~= mapped(v.drop_last(), f));
        assert(t.last() == (v.last().0, f(v.last().1)));
        lemma_mapped_with(v.drop_last(), key, value, f);
    }
    assert(mapped(with(v, key, value), f) =~= with(t, key, f(value)));
}

/// Looking up and applying a function to the values commute.
pub proof fn lemma_mapped_lookup<T, U>(v: Seq<(Seq<char>, T)>, key: Seq<char>, f: spec_fn(T) -> U)
    ensures
        lookup(mapped(v, f), key) == (match lookup(v, key) {
            Some(x) => Some(f(x)),
            None => None,
        }),
    decreases v.len(),
{
    if v.len() > 0 {
        assert(mapped(v, f).drop_last() =~= mapped(v.drop_last(), f));
        lemma_mapped_lookup(v.drop_last(), key, f);
    }
}

/// Applying a function to the values keeps the order.
pub proof fn lemma_mapped_in_order<T, U>(v: Seq<(Seq<char>, T)>, f: spec_fn(T) -> U)
    requires
        in_order(v),
    ensures
        in_order(mapped(v, f)),
{
    let t = mapped(v, f);
    assert forall|i: int, j: int| 0 <= i < j < t.len() implies precedes(
        (#[trigger] t[i]).0,
        (#[trigger] t[j]).0,
    ) by {
        assert(t[i].0 == v[i].0 && t[j].0 == v[j].0);
    }
}

/// A map from names to values, in the order of the names.
#[derive(Debug)]
pub struct SortedMap<T> {
    entries: Vec<(String, T)>,
}

/// Entries by the text of their names.
pub open spec fn named_entries<T>(v: Seq<(String, T)>) -> Seq<(Seq<char>, T)> {
    v.map_values(|e: (String, T)| (e.0@, e.1))
}

impl<T> View for SortedMap<T> {
    type V = Seq<(Seq<char>, T)>;

    closed spec fn view(&self) -> Seq<(Seq<char>, T)> {
        named_entries(self.entries@)
    }
}

impl<T> SortedMap<T> {
    /// An empty map.
    pub fn new() -> (r: Self)
        ensures
            r@ == Seq::<(Seq<char>, T)>::empty(),
            in_order(r@),
    {
        let r = SortedMap { entries: Vec::new() };
        assert(r@ =~= Seq::<(Seq<char>, T)>::empty());
        r
    }

    /// How many entries there are.
    pub fn len(&self) -> (r: usize)
        ensures
            r == self@.len(),
    {
        self.entries.len()
    }

    /// The entry at a place.
    pub fn entry(&self, i: usize) -> (r: (&String, &T))
        requires
            i < self@.len(),
        ensures
            (r.0@, *r.1) == self@[i as int],
    {
        let e = &self.entries[i];
        (&e.0, &e.1)
    }

    /// Removes the entry at a place.
    pub fn remove_at(&mut self, i: usize)
        requires
            i < old(self)@.len(),
            in_order(old(self)@),
        ensures
            final(self)@ == old(self)@.remove(i as int),
            in_order(final(self)@),
    {
        let ghost all = self@;
        let _ = self.entries.remove(i);
        assert(self@ =~= all.remove(i as int));
        proof {
            let rest = self@;
            assert forall|a: int, b: int| 0 <= a < b < rest.len() implies precedes(
                (#[trigger] rest[a]).0,
                (#[trigger] rest[b]).0,
            ) by {
                let x = if a < i {
                    a
                } else {
                    a + 1
                };
                let y = if b < i {
                    b
                } else {
                    b + 1
                };
                assert(rest[a] == all[x] && rest[b] == all[y]);
            }
        }
    }

    /// The value under `key`.
    pub fn get(&self, key: &str) -> (r: Option<&T>)
        ensures
            match r {
                Some(v) => lookup(self@, key@) == Some(*v),
                None => lookup(self@, key@) is None,
            },
    {
        let mut n: usize = self.entries.len();
        assert(self@.take(n as int) =~= self@);
        while n > 0
            invariant
                n <= self.entries@.len(),
                lookup(self@, key@) == lookup(self@.take(n as int), key@),
            decreases n,
        {
            let e = &self.entries[n - 1];
            assert(self@.take(n as int).drop_last() =~= self@.take(n - 1));
            assert(self@.take(n as int).last() == (e.0@, e.1));
            if crate::text::str_eq(e.0.as_str(), key) {
                return Some(&e.1);
            }
            n -= 1;
        }
        None
    }

    /// Puts `value` under `key`, in place of what was there.
    pub fn insert(&mut self, key: String, value: T)
        requires
            in_order(old(self)@),
        ensures
            final(self)@ == with(old(self)@, key@, value),
            in_order(final(self)@),
    {
        let ghost all = self@;
        let ghost text = key@;
        let name = chars_of(key.as_str());
        let mut n: usize = self.entries.len();
        proof {
            law_order_is_kept(all, text, value);
        }
        assert(all.take(n as int) =~= all);
        assert(all.skip(n as int) =~= Seq::empty());
        assert(with(all, text, value) =~= with(all.take(n as int), text, value) + all.skip(
            n as int,
        ));
        let mut same: bool = false;
        while n > 0
            invariant_except_break
                !same,
                with(all, text, value) == with(all.take(n as int), text, value) + all.skip(
                    n as int,
                ),
            invariant
                name@ == text,
                all == self@,
                n <= all.len(),
            ensures
                !same ==> with(all, text, value) == all.take(n as int).push((text, value))
                    + all.skip(n as int),
                same ==> n < all.len() && with(all, text, value) == all.update(
                    n as int,
                    (text, value),
                ),
            decreases n,
        {
            let other = chars_of(self.entries[n - 1].0.as_str());
            let ghost below = all.take(n as int);
            assert(below.last() == all[n - 1]);
            assert(below.drop_last() =~= all.take(n - 1));
            let p = place_of(&name, &other);
            if p == Place::Behind {
                break;
            }
            if p == Place::Same {
                assert(with(all, text, value) =~= all.update(n - 1, (text, value)));
                n -= 1;
                same = true;
                break;
            }
            assert(with(below, text, value) + all.skip(n as int) =~= with(
                all.take(n - 1),
                text,
                value,
            ) + all.skip(n - 1));
            n -= 1;
        }
        if same {
            self.entries.set(n, (key, value));
            assert(self@ =~= all.update(n as int, (text, value)));
        } else {
            self.entries.insert(n, (key, value));
            assert(self@ =~= all.take(n as int).push((text, value)) + all.skip(n as int));
        }
    }
}

} // verus!
