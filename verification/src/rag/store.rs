//! The in-memory index: chunks, their embeddings, and which of them answer a
//! query. Similarities and embeddings are float bits.

use vstd::prelude::*;

use crate::float_bits::{
    is_finite, is_nan, law_bits_compare_as_numbers, number_of, order_key,
};
use crate::text::strs;

verus! {

/// Default path for the embedding ONNX model
/// (`--rag-model` / `SKADOOSH_RAG_MODEL`).
pub const DEFAULT_RAG_MODEL: &'static str = "models/all-MiniLM-L6-v2.onnx";

/// Default maximum sequence length the embedder pads/truncates to.
pub const DEFAULT_MAX_SEQ_LEN: usize = 128;

/// Mini-batch size for embedding inference (bounds peak memory).
pub const EMBED_BATCH: usize = 32;

/// The embedding dimension before any embedding has been seen.
pub const DEFAULT_DIM: usize = 384;

/// The file name of the vocabulary beside a model file whose name without the
/// extension is `stem`: `<stem>-vocab.txt`.
pub fn companion_vocab(stem: Option<&str>) -> (r: String)
    ensures
        r@ == (match stem {
            Some(s) => s@,
            None => "model"@,
        }) + "-vocab.txt"@,
{
    let stem: &str = match stem {
        Some(s) => s,
        None => "model",
    };
    stem.to_owned().concat("-vocab.txt")
}

/// How the output of an embedding model is read.
#[derive(Debug, Clone, Copy, PartialEq, Eq, Structural)]
pub enum Pooling {
    /// One row per token: the rows of a text are averaged.
    Mean {
        /// The length of a row.
        dim: usize,
    },
    /// One row per text.
    Rows {
        /// The length of a row.
        dim: usize,
    },
    /// It is neither.
    Unexpected {
        /// How many dimensions it has.
        rank: usize,
    },
}

/// How an output of a shape is read: `[batch, tokens, dim]` is pooled,
/// `[batch, dim]` is used as it is.
pub fn pooling(shape: &Vec<usize>) -> (r: Pooling)
    ensures
        r == (if shape@.len() == 3 {
            Pooling::Mean { dim: shape@[2] }
        } else if shape@.len() == 2 {
            Pooling::Rows { dim: shape@[1] }
        } else {
            Pooling::Unexpected { rank: shape@.len() as usize }
        }),
{
    if shape.len() == 3 {
        Pooling::Mean { dim: shape[2] }
    } else if shape.len() == 2 {
        Pooling::Rows { dim: shape[1] }
    } else {
        Pooling::Unexpected { rank: shape.len() }
    }
}

// ---------------------------------------------------------------------------
// Ranking
// ---------------------------------------------------------------------------

/// Whether the chunk `i` comes before the chunk `j`: it is more similar, or as
/// similar and earlier.
pub open spec fn ranks_before(scores: Seq<u32>, i: int, j: int) -> bool {
    order_key(scores[i]) > order_key(scores[j]) || (order_key(scores[i]) == order_key(scores[j])
        && i < j)
}

/// Whether `r` is the places of the first `n` scores in the order of their
/// rank.
pub open spec fn is_ranking(scores: Seq<u32>, r: Seq<usize>, n: nat) -> bool {
    &&& r.len() == n
    &&& forall|k: int| 0 <= k < r.len() ==> #[trigger] r[k] < n
    &&& forall|a: int, b: int|
        0 <= a < b < r.len() ==> ranks_before(
            scores,
            #[trigger] r[a] as int,
            #[trigger] r[b] as int,
        )
}

/// Whether `r` is the places of the `top_k` best scores, most similar first:
/// each place once, in the order of rank, and whatever is left out ranks
/// behind.
pub open spec fn is_top(scores: Seq<u32>, top_k: nat, r: Seq<usize>) -> bool {
    &&& r.len() == if top_k < scores.len() {
        top_k
    } else {
        scores.len()
    }
    &&& forall|k: int| 0 <= k < r.len() ==> #[trigger] r[k] < scores.len()
    &&& forall|a: int, b: int|
        0 <= a < b < r.len() ==> ranks_before(
            scores,
            #[trigger] r[a] as int,
            #[trigger] r[b] as int,
        )
    &&& forall|i: usize, a: int|
        0 <= i < scores.len() && 0 <= a < r.len() && !#[trigger] r.contains(i) ==> ranks_before(
            scores,
            #[trigger] r[a] as int,
            i as int,
        )
}

/// The place where the score `i` goes into a ranking of those in front of it.
fn rank_place(scores: &Vec<u32>, order: &Vec<usize>, i: usize) -> (r: usize)
    requires
        i < scores@.len(),
        is_ranking(scores@, order@, i as nat),
        forall|k: int| 0 <= k <= i ==> !is_nan(#[trigger] scores@[k]),
    ensures
        r <= order@.len(),
        forall|k: int| 0 <= k < r ==> ranks_before(scores@, #[trigger] order@[k] as int, i as int),
        forall|k: int|
            r <= k < order@.len() ==> ranks_before(
                scores@,
                i as int,
                #[trigger] order@[k] as int,
            ),
{
    let mut at: usize = order.len();
    while at > 0
        invariant
            at <= order@.len(),
            i < scores@.len(),
            is_ranking(scores@, order@, i as nat),
            forall|k: int| 0 <= k <= i ==> !is_nan(#[trigger] scores@[k]),
            forall|k: int|
                at <= k < order@.len() ==> ranks_before(
                    scores@,
                    i as int,
                    #[trigger] order@[k] as int,
                ),
        decreases at,
    {
        let j: usize = order[at - 1];
        assert(order@[at - 1] < i);
        assert(!is_nan(scores@[j as int]) && !is_nan(scores@[i as int]));
        if crate::float_bits::at_least(scores[j], scores[i]) {
            proof {
                assert(ranks_before(scores@, j as int, i as int));
                assert forall|k: int| 0 <= k < at implies ranks_before(
                    scores@,
                    #[trigger] order@[k] as int,
                    i as int,
                ) by {
                    if k < at - 1 {
                        assert(ranks_before(scores@, order@[k] as int, order@[at - 1] as int));
                        assert(order@[k] < i);
                    }
                }
            }
            return at;
        }
        assert(ranks_before(scores@, i as int, j as int));
        at -= 1;
    }
    at
}

/// Every place is in a ranking of all.
proof fn lemma_ranking_is_full(scores: Seq<u32>, r: Seq<usize>, n: nat, i: usize)
    requires
        is_ranking(scores, r, n),
        i < n,
    ensures
        r.contains(i),
{
    let seen = r.to_set();
    assert(r.no_duplicates());
    r.unique_seq_to_set();
    let all = vstd::set_lib::set_int_range(0, n as int);
    vstd::set_lib::lemma_int_range(0, n as int);
    let as_ints = seen.map(|x: usize| x as int);
    assert(as_ints.subset_of(all)) by {
        assert forall|x: int| as_ints.contains(x) implies all.contains(x) by {
            let u = choose|u: usize| seen.contains(u) && u as int == x;
            let k = choose|k: int| 0 <= k < r.len() && r[k] == u;
            assert(r[k] < n);
        }
    }
    vstd::set_lib::lemma_map_size(seen, as_ints, |x: usize| x as int);
    vstd::set_lib::lemma_subset_equality(as_ints, all);
    assert(as_ints.contains(i as int));
    let u = choose|u: usize| seen.contains(u) && u as int == i as int;
    assert(u == i);
}

/// The places of the `top_k` chunks with the highest similarity,
/// most-similar first, from the similarities of all chunks.
pub fn rank(scores: &Vec<u32>, top_k: usize) -> (r: Vec<usize>)
    requires
        forall|k: int| 0 <= k < scores@.len() ==> !is_nan(#[trigger] scores@[k]),
    ensures
        is_top(scores@, top_k as nat, r@),
{
    let mut order: Vec<usize> = Vec::new();
    let mut i: usize = 0;
    while i < scores.len()
        invariant
            i <= scores@.len(),
            forall|k: int| 0 <= k < scores@.len() ==> !is_nan(#[trigger] scores@[k]),
            is_ranking(scores@, order@, i as nat),
        decreases scores@.len() - i,
    {
        let at = rank_place(scores, &order, i);
        let ghost before = order@;
        order.insert(at, i);
        proof {
            assert(order@ =~= before.insert(at as int, i));
            assert forall|a: int, b: int| 0 <= a < b < order@.len() implies ranks_before(
                scores@,
                #[trigger] order@[a] as int,
                #[trigger] order@[b] as int,
            ) by {
                let x = if a < at {
                    a
                } else {
                    a - 1
                };
                let y = if b < at {
                    b
                } else {
                    b - 1
                };
                if a == at {
                    assert(order@[b] == before[y]);
                } else if b == at {
                    assert(order@[a] == before[x]);
                } else {
                    assert(order@[a] == before[x] && order@[b] == before[y]);
                }
            }
            assert forall|k: int| 0 <= k < order@.len() implies #[trigger] order@[k] < i + 1 by {
                if k < at {
                    assert(order@[k] == before[k]);
                } else if k > at {
                    assert(order@[k] == before[k - 1]);
                }
            }
        }
        i += 1;
    }
    let ghost all = order@;
    order.truncate(top_k);
    proof {
        let r = order@;
        assert forall|i: usize, a: int|
            0 <= i < scores@.len() && 0 <= a < r.len() && !#[trigger] r.contains(i) implies
            ranks_before(scores@, #[trigger] r[a] as int, i as int) by {
            lemma_ranking_is_full(scores@, all, scores@.len(), i);
            let k = choose|k: int| 0 <= k < all.len() && all[k] == i;
            if k < r.len() {
                assert(r[k] == i);
                assert(r.contains(i));
            }
            assert(r[a] == all[a]);
            assert(ranks_before(scores@, all[a] as int, all[k] as int));
        }
        assert forall|k: int| 0 <= k < r.len() implies #[trigger] r[k] < scores@.len() by {
            assert(r[k] == all[k]);
        }
        assert forall|a: int, b: int| 0 <= a < b < r.len() implies ranks_before(
            scores@,
            #[trigger] r[a] as int,
            #[trigger] r[b] as int,
        ) by {
            assert(r[a] == all[a] && r[b] == all[b]);
        }
    }
    order
}

// ---------------------------------------------------------------------------
// The index
// ---------------------------------------------------------------------------

/// In-memory RAG index: the loaded chunks, their embeddings, and the default
/// `top_k`. Built once at startup and queried per turn
/// ([`RagStore::search`]).
#[derive(Debug)]
pub struct RagStore {
    /// The indexed chunks.
    pub chunks: Vec<String>,
    /// Their embeddings.
    pub embeddings: Vec<Vec<u32>>,
    /// Default number of chunks to retrieve (overridable per `search` call).
    pub top_k: usize,
}

impl RagStore {
    /// The chunks.
    pub open spec fn chunks(&self) -> Seq<Seq<char>> {
        strs(self.chunks@)
    }

    /// Their embeddings.
    pub open spec fn vectors(&self) -> Seq<Vec<u32>> {
        self.embeddings@
    }

    /// Creates an empty store with the default `top_k`.
    pub fn new(top_k: usize) -> (r: Self)
        ensures
            r.chunks() == Seq::<Seq<char>>::empty(),
            r.vectors() == Seq::<Vec<u32>>::empty(),
            r.top_k == top_k,
    {
        let r = RagStore { chunks: Vec::new(), embeddings: Vec::new(), top_k };
        assert(r.chunks() =~= Seq::<Seq<char>>::empty());
        r
    }

    /// The store of chunks with their embeddings.
    pub fn build(chunks: Vec<String>, embeddings: Vec<Vec<u32>>, top_k: usize) -> (r: Self)
        ensures
            r.chunks() == strs(chunks@),
            r.vectors() == embeddings@,
            r.top_k == top_k,
    {
        RagStore { chunks, embeddings, top_k }
    }

    /// The embeddings, to compare a query with.
    pub fn embeddings(&self) -> (r: &Vec<Vec<u32>>)
        ensures
            r@ == self.vectors(),
    {
        &self.embeddings
    }

    /// The `top_k` chunks with the highest similarity, most-similar first,
    /// from the similarities of the query to the embeddings. Empty where there
    /// are none: the index is empty, or the query could not be embedded — RAG
    /// must never break the LLM turn.
    pub fn search(&self, scores: &Vec<u32>, top_k: usize) -> (r: Vec<String>)
        requires
            scores@.len() <= self.chunks().len(),
            forall|k: int| 0 <= k < scores@.len() ==> !is_nan(#[trigger] scores@[k]),
        ensures
            exists|order: Seq<usize>| #[trigger]
                is_top(scores@, top_k as nat, order) && strs(r@) == Seq::new(
                    order.len(),
                    |k: int| self.chunks()[order[k] as int],
                ),
    {
        let order = rank(scores, top_k);
        let ghost want = Seq::new(order@.len(), |k: int| self.chunks()[order@[k] as int]);
        let mut out: Vec<String> = Vec::new();
        let mut i: usize = 0;
        assert(strs(out@) =~= want.take(0));
        while i < order.len()
            invariant
                i <= order@.len(),
                scores@.len() <= self.chunks().len() == self.chunks@.len(),
                forall|k: int| 0 <= k < order@.len() ==> #[trigger] order@[k] < scores@.len(),
                want == Seq::new(order@.len(), |k: int| self.chunks()[order@[k] as int]),
                strs(out@) == want.take(i as int),
            decreases order@.len() - i,
        {
            let at: usize = order[i];
            let ghost before = out@;
            let copy = self.chunks[at].clone();
            out.push(copy);
            assert(strs(out@) =~= strs(before).push(copy@));
            assert(want.take(i + 1) =~= want.take(i as int).push(want[i as int]));
            i += 1;
        }
        assert(want.take(want.len() as int) =~= want);
        assert(is_top(scores@, top_k as nat, order@));
        out
    }

    /// Number of indexed chunks.
    pub fn len(&self) -> (r: usize)
        ensures
            r == self.chunks().len(),
    {
        self.chunks.len()
    }

    /// Whether the index has no chunks.
    pub fn is_empty(&self) -> (r: bool)
        ensures
            r == (self.chunks().len() == 0),
    {
        self.chunks.len() == 0
    }
}

/// Two lists of the best places for the same similarities are the same.
pub proof fn law_ranking_is_unique(scores: Seq<u32>, top_k: nat, a: Seq<usize>, b: Seq<usize>)
    requires
        is_top(scores, top_k, a),
        is_top(scores, top_k, b),
    ensures
        a == b,
{
    assert forall|k: int| 0 <= k < a.len() implies #[trigger] a[k] == b[k] by {
        lemma_same_place(scores, top_k, a, b, k);
    }
    assert(a =~= b);
}

proof fn lemma_same_place(scores: Seq<u32>, top_k: nat, a: Seq<usize>, b: Seq<usize>, k: int)
    requires
        is_top(scores, top_k, a),
        is_top(scores, top_k, b),
        0 <= k < a.len(),
    ensures
        a[k] == b[k],
    decreases k,
{
    assert forall|j: int| 0 <= j < k implies #[trigger] a[j] == b[j] by {
        lemma_same_place(scores, top_k, a, b, j);
    }
    if a[k] != b[k] {
        // What stands at `k` in one list stands behind `k` in the other, or
        // nowhere: either way each of the two ranks before the other.
        lemma_comes_first(scores, top_k, a, b, k);
        lemma_comes_first(scores, top_k, b, a, k);
        assert(false);
    }
}

proof fn lemma_comes_first(scores: Seq<u32>, top_k: nat, a: Seq<usize>, b: Seq<usize>, k: int)
    requires
        is_top(scores, top_k, a),
        is_top(scores, top_k, b),
        0 <= k < a.len(),
        forall|j: int| 0 <= j < k ==> #[trigger] a[j] == b[j],
        a[k] != b[k],
    ensures
        ranks_before(scores, a[k] as int, b[k] as int),
{
    let x = b[k];
    if a.contains(x) {
        let j = choose|j: int| 0 <= j < a.len() && a[j] == x;
        if j < k {
            assert(b[j] == x);
            assert(ranks_before(scores, b[j] as int, b[k] as int));
        }
        assert(j > k);
        assert(ranks_before(scores, a[k] as int, a[j] as int));
    } else {
        assert(b[k] < scores.len());
        assert(ranks_before(scores, a[k] as int, x as int));
    }
}

/// The best chunks come first. Of two that a ranking returns, the one in front
/// stands for a score that is no smaller, and where the two are equal it is the
/// earlier chunk; and no chunk that is left out has a better score than one that
/// is returned, nor an equal one from further in front.
pub proof fn law_best_scores_come_first(
    scores: Seq<u32>,
    top_k: nat,
    r: Seq<usize>,
    a: int,
    b: int,
    left_out: usize,
)
    requires
        is_top(scores, top_k, r),
        forall|i: int| 0 <= i < scores.len() ==> is_finite(#[trigger] scores[i]),
        0 <= a < r.len(),
    ensures
        a < b < r.len() ==> number_of(scores[r[a] as int]) > number_of(scores[r[b] as int]) || (
        number_of(scores[r[a] as int]) == number_of(scores[r[b] as int]) && r[a] < r[b]),
        left_out < scores.len() && !r.contains(left_out) ==> number_of(scores[r[a] as int])
            > number_of(scores[left_out as int]) || (number_of(scores[r[a] as int]) == number_of(
            scores[left_out as int],
        ) && r[a] < left_out),
        r.len() == top_k || r.len() == scores.len(),
        r.len() <= top_k,
{
    assert(is_finite(scores[r[a] as int]));
    if a < b < r.len() {
        assert(ranks_before(scores, r[a] as int, r[b] as int));
        assert(is_finite(scores[r[b] as int]));
        law_bits_compare_as_numbers(scores[r[a] as int], scores[r[b] as int]);
    }
    if left_out < scores.len() && !r.contains(left_out) {
        assert(ranks_before(scores, r[a] as int, left_out as int));
        assert(is_finite(scores[left_out as int]));
        law_bits_compare_as_numbers(scores[r[a] as int], scores[left_out as int]);
    }
}

} // verus!
