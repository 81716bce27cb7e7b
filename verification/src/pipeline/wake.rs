//! The wake word, and the command behind it.

use vstd::prelude::*;

use crate::text::{
    chars_of, find_from, lowercase, matches_at, string_of, to_lowercase, trim, trimmed,
};

verus! {

/// The first place where `needle` stands in `hay`.
pub open spec fn is_first(hay: Seq<char>, needle: Seq<char>, at: int) -> bool {
    matches_at(hay, needle, at) && forall|k: int| 0 <= k < at ==> !matches_at(hay, needle, k)
}

/// The sum of some widths.
pub open spec fn total(widths: Seq<nat>) -> nat
    decreases widths.len(),
{
    if widths.len() == 0 {
        0
    } else {
        total(widths.drop_last()) + widths.last()
    }
}

/// How many characters the lowercase form of each character has.
pub open spec fn lower_widths(text: Seq<char>) -> Seq<nat> {
    text.map_values(|c: char| lowercase(seq![c]).len())
}

/// Whether the first `k` characters of a text are those whose lowercase forms,
/// of these widths, make up the first `end` characters of its lowercase form:
/// the fewest that reach as far, or all.
pub open spec fn reaches(widths: Seq<nat>, end: int, k: int) -> bool {
    &&& 0 <= k <= widths.len()
    &&& k < widths.len() ==> total(widths.take(k)) >= end
    &&& forall|j: int| 0 <= j < k ==> total(#[trigger] widths.take(j)) < end
}

/// The widths, mathematically.
pub open spec fn as_nats(v: Seq<usize>) -> Seq<nat> {
    v.map_values(|n: usize| n as nat)
}

/// There is one place at most where a command begins.
pub proof fn law_commands_begin_once(widths: Seq<nat>, end: int, j: int, k: int)
    requires
        reaches(widths, end, j),
        reaches(widths, end, k),
    ensures
        j == k,
{
    if j < k {
        assert(total(widths.take(j)) < end);
    } else if k < j {
        assert(total(widths.take(k)) < end);
    }
}

/// How many characters of a text, whose lowercase forms have these widths, make
/// up the first `end` characters of its lowercase form.
fn reach(widths: &Vec<usize>, end: usize) -> (k: usize)
    ensures
        reaches(as_nats(widths@), end as int, k as int),
{
    let ghost all = as_nats(widths@);
    let mut left: usize = end;
    let mut k: usize = 0;
    assert(all.take(0) =~= Seq::empty());
    while k < widths.len() && left > 0
        invariant
            all == as_nats(widths@),
            k <= widths@.len(),
            left <= end,
            left > 0 ==> total(all.take(k as int)) == end - left,
            left == 0 ==> total(all.take(k as int)) >= end,
            forall|j: int| 0 <= j < k ==> total(#[trigger] all.take(j)) < end,
        decreases widths@.len() - k,
    {
        assert(all.take(k + 1).drop_last() =~= all.take(k as int));
        assert(all[k as int] == widths[k as int]);
        left = if widths[k] >= left {
            0
        } else {
            left - widths[k]
        };
        k += 1;
    }
    k
}

/// Whether `command` is what stands behind the wake word, from the lowercase
/// forms of the transcript, of its characters and of the word.
pub open spec fn is_command(
    transcript: Seq<char>,
    widths: Seq<nat>,
    lowered: Seq<char>,
    lowered_word: Seq<char>,
    command: Seq<char>,
) -> bool {
    exists|at: int, k: int|
        {
            &&& #[trigger] is_first(lowered, lowered_word, at)
            &&& #[trigger] reaches(widths, at + lowered_word.len(), k)
            &&& command == trimmed(transcript.skip(k))
        }
}

/// The command behind the wake word, from the lowercase forms: `widths` holds
/// how many characters the lowercase form of each character of the transcript
/// has. `None` where the word is not there.
pub fn command_after(
    transcript: &str,
    widths: &Vec<usize>,
    lowered: &str,
    lowered_word: &str,
) -> (r: Option<String>)
    requires
        widths@.len() == transcript@.len(),
    ensures
        match r {
            Some(command) => is_command(
                transcript@,
                as_nats(widths@),
                lowered@,
                lowered_word@,
                command@,
            ),
            None => forall|at: int| !matches_at(lowered@, lowered_word@, at),
        },
{
    let text = chars_of(transcript);
    let low = chars_of(lowered);
    let word = chars_of(lowered_word);
    let at: usize = match find_from(&low, &word, 0) {
        Some(at) => at,
        None => {
            return None;
        },
    };
    assert(at + word@.len() <= low.len());
    let k = reach(widths, at + word.len());
    let rest = string_of(&text, k, text.len());
    let r = trim(rest.as_str());
    assert(text@.subrange(k as int, text@.len() as int) =~= transcript@.skip(k as int));
    assert(is_first(lowered@, lowered_word@, at as int));
    Some(r)
}

/// How many characters the lowercase form of each character of a text has.
fn widths_of(text: &str) -> (r: Vec<usize>)
    ensures
        as_nats(r@) == lower_widths(text@),
{
    let chars = chars_of(text);
    let mut widths: Vec<usize> = Vec::new();
    let mut i: usize = 0;
    while i < chars.len()
        invariant
            chars@ == text@,
            i <= chars@.len(),
            as_nats(widths@) == lower_widths(text@).take(i as int),
        decreases chars@.len() - i,
    {
        let one = string_of(&chars, i, i + 1);
        assert(one@ =~= seq![chars@[i as int]]);
        let form = chars_of(to_lowercase(one.as_str()).as_str());
        let ghost before = widths@;
        widths.push(form.len());
        i += 1;
        proof {
            assert(lower_widths(text@)[i - 1] == form@.len());
            assert(as_nats(widths@) =~= as_nats(before).push(form@.len()));
            assert(lower_widths(text@).take(i as int) =~= lower_widths(text@).take(i - 1).push(
                lower_widths(text@)[i - 1],
            ));
        }
        assert(as_nats(widths@) =~= lower_widths(text@).take(i as int));
    }
    assert(lower_widths(text@).take(i as int) =~= lower_widths(text@));
    widths
}

/// Wake-word gate: a case-insensitive substring match on the transcript.
/// Returns the stripped command when the wake word is present, or `None` when
/// the transcript should be skipped. The command is what stands behind the
/// characters whose lowercase forms make up the match.
pub fn gate(transcript: &str, wake_word: &str) -> (r: Option<String>)
    ensures
        match r {
            Some(command) => is_command(
                transcript@,
                lower_widths(transcript@),
                lowercase(transcript@),
                lowercase(wake_word@),
                command@,
            ),
            None => forall|at: int|
                !matches_at(lowercase(transcript@), lowercase(wake_word@), at),
        },
{
    let widths = widths_of(transcript);
    assert(as_nats(widths@).len() == lower_widths(transcript@).len());
    command_after(
        transcript,
        &widths,
        to_lowercase(transcript).as_str(),
        to_lowercase(wake_word).as_str(),
    )
}

/// In a transcript whose characters each have a lowercase form of one character,
/// the command is what stands behind the first wake word, without the white
/// space round it: not a character of the word is left in front, and none of
/// the command is lost.
pub proof fn law_commands_stand_behind_the_word(
    transcript: Seq<char>,
    widths: Seq<nat>,
    lowered: Seq<char>,
    word: Seq<char>,
    command: Seq<char>,
    at: int,
)
    requires
        widths.len() == transcript.len() == lowered.len(),
        forall|i: int| 0 <= i < widths.len() ==> #[trigger] widths[i] == 1,
        is_command(transcript, widths, lowered, word, command),
        lowered.subrange(at, at + word.len()) == word,
        0 <= at,
        at + word.len() <= lowered.len(),
        forall|k: int|
            0 <= k < at ==> lowered.subrange(k, #[trigger] (k + word.len())) != word,
    ensures
        command == trimmed(transcript.skip((at + word.len()) as int)),
{
    let (a, k) = choose|a: int, k: int|
        {
            &&& #[trigger] is_first(lowered, word, a)
            &&& #[trigger] reaches(widths, a + word.len(), k)
            &&& command == trimmed(transcript.skip(k))
        };
    assert(matches_at(lowered, word, at));
    assert(a == at) by {
        if a < at {
            let end = a + word.len();
            assert(lowered.subrange(a, end) == word);
        }
    }
    let end = at + word.len();
    lemma_ones(widths, k);
    if k < end {
        assert(k == widths.len());
    }
    if k > end {
        lemma_ones(widths, end);
        assert(total(widths.take(end)) < end);
    }
}

proof fn lemma_ones(widths: Seq<nat>, k: int)
    requires
        0 <= k <= widths.len(),
        forall|i: int| 0 <= i < widths.len() ==> #[trigger] widths[i] == 1,
    ensures
        total(widths.take(k)) == k,
    decreases k,
{
    if k > 0 {
        lemma_ones(widths, k - 1);
        assert(widths.take(k).drop_last() =~= widths.take(k - 1));
        assert(widths.take(k).last() == widths[k - 1]);
    }
}

} // verus!
