//! Candidate retrieval for entity resolution, once similarities are known.
//!
//! Cosine similarities are computed in floating point at the edge of the
//! program. Each reaches this module as a rank when it meets the retrieval
//! threshold (a higher rank is a greater similarity; equal similarities
//! share a rank) and as nothing when it does not. From those ranks this
//! module checks the embedding batch, keeps each entity's best neighbours,
//! lists every unordered pair once, and orders the shortlist.
use vstd::prelude::*;

use crate::text::{
    lemma_seq_lt_irreflexive, lemma_seq_lt_total, lemma_seq_lt_transitive, seq_lt, str_eq, str_lt, strs,
};

verus! {

// =====================================================================
// Input problems
// =====================================================================
/// A malformed embedding batch.
#[derive(Debug, Clone, PartialEq, Eq)]
pub enum CandidateInputError {
    /// Two embeddings claim the same stable entity ID.
    DuplicateEntityId { entity_id: String },
    /// An embedding's dimension differs from the first entity's.
    DimensionMismatch { entity_id: String, expected: usize, actual: usize },
    /// An embedding has zero magnitude and cannot be compared.
    ZeroMagnitudeVector { entity_id: String },
}

pub enum CandidateInputErrorView {
    DuplicateEntityId { entity_id: Seq<char> },
    DimensionMismatch { entity_id: Seq<char>, expected: usize, actual: usize },
    ZeroMagnitudeVector { entity_id: Seq<char> },
}

impl View for CandidateInputError {
    type V = CandidateInputErrorView;

    open spec fn view(&self) -> CandidateInputErrorView {
        match self {
            CandidateInputError::DuplicateEntityId { entity_id } => CandidateInputErrorView::DuplicateEntityId {
                entity_id: entity_id@,
            },
            CandidateInputError::DimensionMismatch { entity_id, expected, actual } =>
                CandidateInputErrorView::DimensionMismatch { entity_id: entity_id@, expected: *expected, actual: *actual },
            CandidateInputError::ZeroMagnitudeVector { entity_id } => CandidateInputErrorView::ZeroMagnitudeVector {
                entity_id: entity_id@,
            },
        }
    }
}

/// Entity `a` comes before entity `b` in ID order; equal IDs keep their
/// input order.
pub open spec fn id_before(ids: Seq<Seq<char>>, a: int, b: int) -> bool {
    seq_lt(ids[a], ids[b]) || (ids[a] == ids[b] && a < b)
}

/// The entity first in ID order among the first `k`.
pub open spec fn first_in_order(ids: Seq<Seq<char>>, k: int) -> int
    decreases k,
{
    if k <= 1 {
        0
    } else {
        let m = first_in_order(ids, k - 1);
        if id_before(ids, k - 1, m) {
            k - 1
        } else {
            m
        }
    }
}

/// Some earlier entity has the same ID.
pub open spec fn repeats_earlier(ids: Seq<Seq<char>>, a: int) -> bool {
    exists|b: int| 0 <= b < a && ids[b] == ids[a]
}

/// The problem of entity `a`, checked in order: a repeated ID, a dimension
/// other than `expected`, a zero-magnitude vector.
pub open spec fn entity_problem(
    ids: Seq<Seq<char>>,
    dims: Seq<usize>,
    zero: Seq<bool>,
    expected: usize,
    a: int,
) -> Option<CandidateInputErrorView> {
    if repeats_earlier(ids, a) {
        Some(CandidateInputErrorView::DuplicateEntityId { entity_id: ids[a] })
    } else if dims[a] != expected {
        Some(CandidateInputErrorView::DimensionMismatch { entity_id: ids[a], expected, actual: dims[a] })
    } else if zero[a] {
        Some(CandidateInputErrorView::ZeroMagnitudeVector { entity_id: ids[a] })
    } else {
        None
    }
}

/// The entity with a problem that comes first in ID order among the first
/// `k`.
pub open spec fn first_problem_among(
    ids: Seq<Seq<char>>,
    dims: Seq<usize>,
    zero: Seq<bool>,
    expected: usize,
    k: int,
) -> Option<int>
    decreases k,
{
    if k <= 0 {
        None
    } else {
        let m = first_problem_among(ids, dims, zero, expected, k - 1);
        if entity_problem(ids, dims, zero, expected, k - 1) is Some && (m is None || id_before(
            ids,
            k - 1,
            m->0,
        )) {
            Some(k - 1)
        } else {
            m
        }
    }
}

/// The problem of an embedding batch: the entities are checked in ID order
/// against the dimension of the first, and the first problem is reported.
pub open spec fn input_problem(ids: Seq<Seq<char>>, dims: Seq<usize>, zero: Seq<bool>) -> Option<
    CandidateInputErrorView,
> {
    if ids.len() == 0 {
        None
    } else {
        let expected = dims[first_in_order(ids, ids.len() as int)];
        match first_problem_among(ids, dims, zero, expected, ids.len() as int) {
            Some(a) => entity_problem(ids, dims, zero, expected, a),
            None => None,
        }
    }
}

/// ID order is a strict total order on entities.
pub proof fn lemma_id_order(ids: Seq<Seq<char>>, a: int, b: int, c: int)
    ensures
        !id_before(ids, a, a),
        a != b ==> (id_before(ids, a, b) || id_before(ids, b, a)),
        !(id_before(ids, a, b) && id_before(ids, b, a)),
        id_before(ids, a, b) && id_before(ids, b, c) ==> id_before(ids, a, c),
{
    lemma_seq_lt_irreflexive(ids[a]);
    lemma_seq_lt_total(ids[a], ids[b]);
    if seq_lt(ids[a], ids[b]) && seq_lt(ids[b], ids[c]) {
        lemma_seq_lt_transitive(ids[a], ids[b], ids[c]);
    }
}

/// `first_in_order` is the entity that comes first in ID order.
pub proof fn lemma_first_in_order(ids: Seq<Seq<char>>, k: int)
    requires
        1 <= k <= ids.len(),
    ensures
        0 <= first_in_order(ids, k) < k,
        forall|b: int| 0 <= b < k && b != first_in_order(ids, k) ==> id_before(ids, first_in_order(ids, k), b),
    decreases k,
{
    if k > 1 {
        lemma_first_in_order(ids, k - 1);
        let m = first_in_order(ids, k - 1);
        lemma_id_order(ids, k - 1, m, m);
        assert forall|b: int| 0 <= b < k && b != first_in_order(ids, k) implies id_before(
            ids,
            first_in_order(ids, k),
            b,
        ) by {
            lemma_id_order(ids, k - 1, m, b);
        }
    }
}

/// The reported entity has a problem, and no entity before it in ID order
/// has one.
pub proof fn lemma_first_problem(ids: Seq<Seq<char>>, dims: Seq<usize>, zero: Seq<bool>, expected: usize, k: int)
    requires
        0 <= k <= ids.len(),
    ensures
        first_problem_among(ids, dims, zero, expected, k) matches Some(a) ==> {
            &&& 0 <= a < k
            &&& entity_problem(ids, dims, zero, expected, a) is Some
            &&& forall|b: int|
                0 <= b < k && id_before(ids, b, a) ==> entity_problem(ids, dims, zero, expected, b) is None
        },
        first_problem_among(ids, dims, zero, expected, k) is None ==> forall|b: int|
            0 <= b < k ==> entity_problem(ids, dims, zero, expected, b) is None,
    decreases k,
{
    if k > 0 {
        lemma_first_problem(ids, dims, zero, expected, k - 1);
        let m = first_problem_among(ids, dims, zero, expected, k - 1);
        let last_fails = entity_problem(ids, dims, zero, expected, k - 1) is Some;
        if last_fails && (m is None || id_before(ids, k - 1, m->0)) {
            assert forall|b: int| 0 <= b < k && id_before(ids, b, k - 1) implies entity_problem(
                ids,
                dims,
                zero,
                expected,
                b,
            ) is None by {
                lemma_id_order(ids, b, b, b);
                if m is Some && b < k - 1 && entity_problem(ids, dims, zero, expected, b) is Some {
                    let a = m->0;
                    lemma_id_order(ids, b, a, k - 1);
                    lemma_id_order(ids, a, b, k - 1);
                    lemma_id_order(ids, k - 1, a, a);
                }
            }
        } else if m is Some {
            let a = m->0;
            assert forall|b: int| 0 <= b < k && id_before(ids, b, a) implies entity_problem(
                ids,
                dims,
                zero,
                expected,
                b,
            ) is None by {
                if b == k - 1 {
                    lemma_id_order(ids, k - 1, a, a);
                }
            }
        }
    }
}

fn id_before_exec(ids: &Vec<String>, a: usize, b: usize) -> (r: bool)
    requires
        a < ids@.len(),
        b < ids@.len(),
    ensures
        r == id_before(strs(ids@), a as int, b as int),
{
    str_lt(ids[a].as_str(), ids[b].as_str()) || (str_eq(ids[a].as_str(), ids[b].as_str()) && a < b)
}

fn repeats_earlier_exec(ids: &Vec<String>, a: usize) -> (r: bool)
    requires
        a < ids@.len(),
    ensures
        r == repeats_earlier(strs(ids@), a as int),
{
    let ghost v = strs(ids@);
    for b in 0..a
        invariant
            a < ids@.len(),
            v == strs(ids@),
            forall|x: int| 0 <= x < b ==> v[x] != v[a as int],
    {
        if str_eq(ids[b].as_str(), ids[a].as_str()) {
            assert(v[b as int] == v[a as int]);
            return true;
        }
    }
    false
}

fn problem_of(ids: &Vec<String>, dims: &Vec<usize>, zero: &Vec<bool>, expected: usize, a: usize) -> (r: Option<
    CandidateInputError,
>)
    requires
        a < ids@.len(),
        dims@.len() == ids@.len(),
        zero@.len() == ids@.len(),
    ensures
        match entity_problem(strs(ids@), dims@, zero@, expected, a as int) {
            Some(e) => r matches Some(x) && x@ == e,
            None => r is None,
        },
{
    if repeats_earlier_exec(ids, a) {
        Some(CandidateInputError::DuplicateEntityId { entity_id: ids[a].clone() })
    } else if dims[a] != expected {
        Some(CandidateInputError::DimensionMismatch { entity_id: ids[a].clone(), expected, actual: dims[a] })
    } else if zero[a] {
        Some(CandidateInputError::ZeroMagnitudeVector { entity_id: ids[a].clone() })
    } else {
        None
    }
}

/// Checks an embedding batch: stable IDs, vector dimensions and
/// magnitudes, in ID order.
pub fn check_embeddings(ids: &Vec<String>, dims: &Vec<usize>, zero_magnitude: &Vec<bool>) -> (r: Option<
    CandidateInputError,
>)
    requires
        dims@.len() == ids@.len(),
        zero_magnitude@.len() == ids@.len(),
    ensures
        match input_problem(strs(ids@), dims@, zero_magnitude@) {
            Some(e) => r matches Some(x) && x@ == e,
            None => r is None,
        },
{
    let n = ids.len();
    if n == 0 {
        return None;
    }
    let ghost v = strs(ids@);
    let mut first: usize = 0;
    for k in 1..n
        invariant
            n == ids@.len(),
            v == strs(ids@),
            first as int == first_in_order(v, k as int),
            first < k,
    {
        if id_before_exec(ids, k, first) {
            first = k;
        }
    }
    let expected = dims[first];
    let mut found: Option<usize> = None;
    for a in 0..n
        invariant
            n == ids@.len(),
            dims@.len() == n,
            zero_magnitude@.len() == n,
            v == strs(ids@),
            expected == dims@[first_in_order(v, n as int)],
            match first_problem_among(v, dims@, zero_magnitude@, expected, a as int) {
                Some(m) => found == Some(m as usize) && 0 <= m < a,
                None => found is None,
            },
    {
        proof {
            lemma_first_problem(v, dims@, zero_magnitude@, expected, a as int);
        }
        let has_problem = problem_of(ids, dims, zero_magnitude, expected, a).is_some();
        let better = match found {
            Some(m) => id_before_exec(ids, a, m),
            None => true,
        };
        if has_problem && better {
            found = Some(a);
        }
    }
    match found {
        Some(m) => {
            proof {
                lemma_first_problem(v, dims@, zero_magnitude@, expected, n as int);
            }
            problem_of(ids, dims, zero_magnitude, expected, m)
        },
        None => None,
    }
}

// =====================================================================
// Shortlists
// =====================================================================
/// Rows of similarity ranks as plain sequences.
pub open spec fn score_views(scores: Seq<Vec<Option<u64>>>) -> Seq<Seq<Option<u64>>> {
    scores.map_values(|row: Vec<Option<u64>>| row@)
}

/// `c` met the retrieval threshold as a neighbour of `s`.
pub open spec fn eligible(scores: Seq<Seq<Option<u64>>>, s: int, c: int) -> bool {
    s != c && scores[s][c] is Some
}

/// In `s`'s shortlist `a` ranks ahead of `b`: a greater similarity, or an
/// equal one and a smaller ID.
pub open spec fn ranks_ahead(ids: Seq<Seq<char>>, scores: Seq<Seq<Option<u64>>>, s: int, a: int, b: int) -> bool {
    let ra = scores[s][a]->0;
    let rb = scores[s][b]->0;
    ra > rb || (ra == rb && seq_lt(ids[a], ids[b]))
}

/// How many of the first `k` entities are eligible for `s` and rank ahead
/// of `c`.
pub open spec fn ahead_of(ids: Seq<Seq<char>>, scores: Seq<Seq<Option<u64>>>, s: int, c: int, k: int) -> nat
    decreases k,
{
    if k <= 0 {
        0
    } else {
        ahead_of(ids, scores, s, c, k - 1) + if eligible(scores, s, k - 1) && ranks_ahead(ids, scores, s, k - 1, c) {
            1nat
        } else {
            0nat
        }
    }
}

/// `c` is among the `max` best eligible neighbours of `s`.
pub open spec fn shortlisted(ids: Seq<Seq<char>>, scores: Seq<Seq<Option<u64>>>, max: nat, s: int, c: int) -> bool {
    eligible(scores, s, c) && ahead_of(ids, scores, s, c, ids.len() as int) < max
}

/// The pair of `s` and `c` is listed from `s`'s side: `c` is on `s`'s
/// shortlist, and the pair was not already listed from `c`'s side, whose
/// shortlist is taken first when `c`'s ID is smaller.
pub open spec fn listed(ids: Seq<Seq<char>>, scores: Seq<Seq<Option<u64>>>, max: nat, s: int, c: int) -> bool {
    shortlisted(ids, scores, max, s, c) && !(seq_lt(ids[c], ids[s]) && shortlisted(ids, scores, max, c, s))
}

/// Pair `p` comes before pair `q` in the candidate list: a greater
/// similarity, then the smaller entity ID, then the smaller candidate ID.
pub open spec fn pair_before(ids: Seq<Seq<char>>, scores: Seq<Seq<Option<u64>>>, p: (usize, usize), q: (usize, usize)) -> bool {
    let rp = scores[p.0 as int][p.1 as int]->0;
    let rq = scores[q.0 as int][q.1 as int]->0;
    rp > rq || (rp == rq && (seq_lt(ids[p.0 as int], ids[q.0 as int]) || (ids[p.0 as int] == ids[q.0 as int]
        && seq_lt(ids[p.1 as int], ids[q.1 as int]))))
}

/// `out` holds exactly the listed pairs, in candidate order.
pub open spec fn is_candidate_list(
    ids: Seq<Seq<char>>,
    scores: Seq<Seq<Option<u64>>>,
    max: nat,
    out: Seq<(usize, usize)>,
) -> bool {
    &&& forall|k: int|
        0 <= k < out.len() ==> (#[trigger] out[k]).0 < ids.len() && out[k].1 < ids.len() && listed(
            ids,
            scores,
            max,
            out[k].0 as int,
            out[k].1 as int,
        )
    &&& forall|s: usize, c: usize|
        s < ids.len() && c < ids.len() && #[trigger] listed(ids, scores, max, s as int, c as int) ==> out.contains(
            (s, c),
        )
    &&& forall|i: int, j: int| 0 <= i < j < out.len() ==> pair_before(ids, scores, #[trigger] out[i], #[trigger] out[j])
}

/// No two entities share an ID.
pub open spec fn distinct_ids(ids: Seq<Seq<char>>) -> bool {
    forall|a: int, b: int| 0 <= a < b < ids.len() ==> ids[a] != ids[b]
}

/// Candidate order is a strict total order on listed pairs of entities
/// with distinct IDs.
proof fn lemma_pair_order(ids: Seq<Seq<char>>, scores: Seq<Seq<Option<u64>>>, p: (usize, usize), q: (usize, usize), r: (usize, usize))
    requires
        distinct_ids(ids),
        p.0 < ids.len() && p.1 < ids.len(),
        q.0 < ids.len() && q.1 < ids.len(),
    ensures
        !pair_before(ids, scores, p, p),
        p != q ==> (pair_before(ids, scores, p, q) || pair_before(ids, scores, q, p)),
        !(pair_before(ids, scores, p, q) && pair_before(ids, scores, q, p)),
        pair_before(ids, scores, p, q) && pair_before(ids, scores, q, r) ==> pair_before(ids, scores, p, r),
{
    lemma_seq_lt_irreflexive(ids[p.0 as int]);
    lemma_seq_lt_irreflexive(ids[p.1 as int]);
    lemma_seq_lt_total(ids[p.0 as int], ids[q.0 as int]);
    lemma_seq_lt_total(ids[p.1 as int], ids[q.1 as int]);
    if p != q && ids[p.0 as int] == ids[q.0 as int] && ids[p.1 as int] == ids[q.1 as int] {
        if p.0 != q.0 {
            if p.0 < q.0 {
                assert(ids[p.0 as int] != ids[q.0 as int]);
            } else {
                assert(ids[q.0 as int] != ids[p.0 as int]);
            }
        } else {
            if p.1 < q.1 {
                assert(ids[p.1 as int] != ids[q.1 as int]);
            } else {
                assert(ids[q.1 as int] != ids[p.1 as int]);
            }
        }
    }
    if pair_before(ids, scores, p, q) && pair_before(ids, scores, q, r) {
        if seq_lt(ids[p.0 as int], ids[q.0 as int]) && seq_lt(ids[q.0 as int], ids[r.0 as int]) {
            lemma_seq_lt_transitive(ids[p.0 as int], ids[q.0 as int], ids[r.0 as int]);
        }
        if seq_lt(ids[p.1 as int], ids[q.1 as int]) && seq_lt(ids[q.1 as int], ids[r.1 as int]) {
            lemma_seq_lt_transitive(ids[p.1 as int], ids[q.1 as int], ids[r.1 as int]);
        }
    }
}

fn count_ahead(ids: &Vec<String>, scores: &Vec<Vec<Option<u64>>>, s: usize, c: usize) -> (r: usize)
    requires
        s < ids@.len(),
        c < ids@.len(),
        scores@.len() == ids@.len(),
        forall|k: int| 0 <= k < scores@.len() ==> (#[trigger] scores@[k])@.len() == ids@.len(),
        scores@[s as int]@[c as int] is Some,
    ensures
        r == ahead_of(strs(ids@), score_views(scores@), s as int, c as int, ids@.len() as int),
{
    let ghost v = strs(ids@);
    let ghost sv = score_views(scores@);
    let row = &scores[s];
    let rc = match row[c] {
        Some(x) => x,
        None => 0,
    };
    let mut count: usize = 0;
    for k in 0..ids.len()
        invariant
            v == strs(ids@),
            sv == score_views(scores@),
            s < ids@.len(),
            c < ids@.len(),
            scores@.len() == ids@.len(),
            *row == scores@[s as int],
            row@.len() == ids@.len(),
            sv[s as int] == row@,
            Some(rc) == row@[c as int],
            count == ahead_of(v, sv, s as int, c as int, k as int),
            count <= k,
    {
        match row[k] {
            Some(rk) => {
                if k != s && (rk > rc || (rk == rc && str_lt(ids[k].as_str(), ids[c].as_str()))) {
                    count = count + 1;
                }
            },
            None => {},
        }
    }
    count
}

fn is_shortlisted(ids: &Vec<String>, scores: &Vec<Vec<Option<u64>>>, max: usize, s: usize, c: usize) -> (r: bool)
    requires
        s < ids@.len(),
        c < ids@.len(),
        scores@.len() == ids@.len(),
        forall|k: int| 0 <= k < scores@.len() ==> (#[trigger] scores@[k])@.len() == ids@.len(),
    ensures
        r == shortlisted(strs(ids@), score_views(scores@), max as nat, s as int, c as int),
{
    let ghost sv = score_views(scores@);
    assert(sv[s as int] == scores@[s as int]@);
    if s == c || scores[s][c].is_none() {
        return false;
    }
    count_ahead(ids, scores, s, c) < max
}

fn pair_before_exec(ids: &Vec<String>, scores: &Vec<Vec<Option<u64>>>, p: (usize, usize), q: (usize, usize)) -> (r: bool)
    requires
        p.0 < ids@.len() && p.1 < ids@.len(),
        q.0 < ids@.len() && q.1 < ids@.len(),
        scores@.len() == ids@.len(),
        forall|k: int| 0 <= k < scores@.len() ==> (#[trigger] scores@[k])@.len() == ids@.len(),
        scores@[p.0 as int]@[p.1 as int] is Some,
        scores@[q.0 as int]@[q.1 as int] is Some,
    ensures
        r == pair_before(strs(ids@), score_views(scores@), p, q),
{
    let ghost sv = score_views(scores@);
    assert(sv[p.0 as int] == scores@[p.0 as int]@);
    assert(sv[q.0 as int] == scores@[q.0 as int]@);
    let rp = match scores[p.0][p.1] {
        Some(x) => x,
        None => 0,
    };
    let rq = match scores[q.0][q.1] {
        Some(x) => x,
        None => 0,
    };
    rp > rq || (rp == rq && (str_lt(ids[p.0].as_str(), ids[q.0].as_str()) || (str_eq(ids[p.0].as_str(), ids[q.0].as_str())
        && str_lt(ids[p.1].as_str(), ids[q.1].as_str()))))
}

/// Pairs whose ranks are known, all within the batch.
pub open spec fn ranked_pairs(ids: Seq<Seq<char>>, scores: Seq<Seq<Option<u64>>>, out: Seq<(usize, usize)>) -> bool {
    forall|k: int|
        0 <= k < out.len() ==> (#[trigger] out[k]).0 < ids.len() && out[k].1 < ids.len() && scores[out[k].0 as int][out[k].1 as int] is Some
}

/// Adds a pair to a list kept in candidate order.
fn insert_pair(ids: &Vec<String>, scores: &Vec<Vec<Option<u64>>>, out: &mut Vec<(usize, usize)>, x: (usize, usize))
    requires
        distinct_ids(strs(ids@)),
        scores@.len() == ids@.len(),
        forall|k: int| 0 <= k < scores@.len() ==> (#[trigger] scores@[k])@.len() == ids@.len(),
        x.0 < ids@.len() && x.1 < ids@.len(),
        scores@[x.0 as int]@[x.1 as int] is Some,
        ranked_pairs(strs(ids@), score_views(scores@), old(out)@),
        !old(out)@.contains(x),
        forall|i: int, j: int|
            0 <= i < j < old(out)@.len() ==> pair_before(strs(ids@), score_views(scores@), #[trigger] old(out)@[i], #[trigger] old(out)@[j]),
    ensures
        ranked_pairs(strs(ids@), score_views(scores@), final(out)@),
        forall|y: (usize, usize)| #[trigger] final(out)@.contains(y) <==> (old(out)@.contains(y) || y == x),
        forall|i: int, j: int|
            0 <= i < j < final(out)@.len() ==> pair_before(strs(ids@), score_views(scores@), #[trigger] final(out)@[i], #[trigger] final(out)@[j]),
{
    let ghost v = strs(ids@);
    let ghost sv = score_views(scores@);
    let ghost before = out@;
    assert(sv[x.0 as int] == scores@[x.0 as int]@);
    let mut i: usize = 0;
    while i < out.len()
        invariant
            out@ == before,
            i <= out@.len(),
            v == strs(ids@),
            sv == score_views(scores@),
            distinct_ids(v),
            scores@.len() == ids@.len(),
            forall|k: int| 0 <= k < scores@.len() ==> (#[trigger] scores@[k])@.len() == ids@.len(),
            x.0 < ids@.len() && x.1 < ids@.len(),
            scores@[x.0 as int]@[x.1 as int] is Some,
            ranked_pairs(v, sv, before),
            forall|k: int| 0 <= k < i ==> !pair_before(v, sv, x, #[trigger] before[k]),
        ensures
            out@ == before,
            i <= out@.len(),
            forall|k: int| 0 <= k < i ==> !pair_before(v, sv, x, #[trigger] before[k]),
            i < out@.len() ==> pair_before(v, sv, x, before[i as int]),
        decreases out@.len() - i,
    {
        let y = out[i];
        assert(before[i as int] == y);
        assert(sv[y.0 as int] == scores@[y.0 as int]@);
        if pair_before_exec(ids, scores, x, y) {
            break;
        }
        i = i + 1;
    }
    out.insert(i, x);
    proof {
        let after = out@;
        assert(after =~= before.insert(i as int, x));
        assert forall|y: (usize, usize)| #[trigger] after.contains(y) <==> (before.contains(y) || y == x) by {
            if after.contains(y) {
                let k = choose|k: int| 0 <= k < after.len() && after[k] == y;
                if k < i {
                    assert(before[k] == y);
                } else if k > i {
                    assert(before[k - 1] == y);
                }
            }
            if before.contains(y) {
                let k = choose|k: int| 0 <= k < before.len() && before[k] == y;
                if k < i {
                    assert(after[k] == y);
                } else {
                    assert(after[k + 1] == y);
                }
            }
            if y == x {
                assert(after[i as int] == x);
            }
        }
        assert forall|k: int| 0 <= k < after.len() implies (#[trigger] after[k]).0 < ids@.len() && after[k].1 < ids@.len()
            && sv[after[k].0 as int][after[k].1 as int] is Some by {
            if k < i {
                assert(after[k] == before[k]);
            } else if k > i {
                assert(after[k] == before[k - 1]);
            }
        }
        // Everything before the insertion point precedes x, x precedes the rest.
        assert forall|k: int| 0 <= k < i implies pair_before(v, sv, #[trigger] before[k], x) by {
            assert(before[k] != x) by {
                if before[k] == x {
                    assert(before.contains(x));
                }
            }
            lemma_pair_order(v, sv, before[k], x, x);
        }
        if i < before.len() {
            assert forall|k: int| i <= k < before.len() implies pair_before(v, sv, x, #[trigger] before[k]) by {
                if k > i {
                    lemma_pair_order(v, sv, x, before[i as int], before[k]);
                }
            }
        }
        assert forall|a: int, b: int| 0 <= a < b < after.len() implies pair_before(v, sv, #[trigger] after[a], #[trigger] after[b]) by {
            if b < i {
                assert(after[a] == before[a] && after[b] == before[b]);
            } else if b == i {
                assert(after[a] == before[a]);
            } else if a < i {
                assert(after[a] == before[a] && after[b] == before[b - 1]);
                lemma_pair_order(v, sv, before[a], x, before[b - 1]);
            } else if a == i {
                assert(after[b] == before[b - 1]);
            } else {
                assert(after[a] == before[a - 1] && after[b] == before[b - 1]);
            }
        }
    }
}

/// Without an input problem, no two entities share an ID.
proof fn lemma_no_problem_distinct(ids: Seq<Seq<char>>, dims: Seq<usize>, zero: Seq<bool>)
    requires
        ids.len() > 0,
        input_problem(ids, dims, zero) is None,
    ensures
        distinct_ids(ids),
{
    let expected = dims[first_in_order(ids, ids.len() as int)];
    lemma_first_problem(ids, dims, zero, expected, ids.len() as int);
    if first_problem_among(ids, dims, zero, expected, ids.len() as int) is Some {
        let a = first_problem_among(ids, dims, zero, expected, ids.len() as int)->0;
        assert(entity_problem(ids, dims, zero, expected, a) is Some);
    }
    assert forall|a: int, b: int| 0 <= a < b < ids.len() implies ids[a] != ids[b] by {
        assert(entity_problem(ids, dims, zero, expected, b) is None);
        assert(!repeats_earlier(ids, b));
    }
}

/// Builds the verification shortlist of an embedding batch: each entity
/// keeps at most `max_candidates_per_entity` neighbours that met the
/// threshold, best first; a pair already listed from its other side is
/// left out; the list is ordered by descending similarity, then by the two
/// stable IDs. `scores[s][c]` is the rank of the similarity of `c` to `s`
/// when it met the threshold.
pub fn generate_candidate_pairs(
    ids: &Vec<String>,
    dims: &Vec<usize>,
    zero_magnitude: &Vec<bool>,
    scores: &Vec<Vec<Option<u64>>>,
    max_candidates_per_entity: usize,
) -> (r: Result<Vec<(usize, usize)>, CandidateInputError>)
    requires
        dims@.len() == ids@.len(),
        zero_magnitude@.len() == ids@.len(),
        scores@.len() == ids@.len(),
        forall|k: int| 0 <= k < scores@.len() ==> (#[trigger] scores@[k])@.len() == ids@.len(),
    ensures
        match input_problem(strs(ids@), dims@, zero_magnitude@) {
            Some(e) => r matches Err(x) && x@ == e,
            None => r matches Ok(out) && is_candidate_list(
                strs(ids@),
                score_views(scores@),
                max_candidates_per_entity as nat,
                out@,
            ),
        },
{
    match check_embeddings(ids, dims, zero_magnitude) {
        Some(e) => {
            return Err(e);
        },
        None => {},
    }
    let ghost v = strs(ids@);
    let ghost sv = score_views(scores@);
    let ghost max = max_candidates_per_entity as nat;
    let n = ids.len();
    if n == 0 {
        return Ok(Vec::new());
    }
    proof {
        lemma_no_problem_distinct(v, dims@, zero_magnitude@);
    }
    let mut out: Vec<(usize, usize)> = Vec::new();
    for s in 0..n
        invariant
            n == ids@.len(),
            v == strs(ids@),
            sv == score_views(scores@),
            max == max_candidates_per_entity as nat,
            distinct_ids(v),
            scores@.len() == ids@.len(),
            forall|k: int| 0 <= k < scores@.len() ==> (#[trigger] scores@[k])@.len() == ids@.len(),
            ranked_pairs(v, sv, out@),
            forall|k: int| 0 <= k < out@.len() ==> (#[trigger] out@[k]).0 < s && listed(v, sv, max, out@[k].0 as int, out@[k].1 as int),
            forall|a: usize, b: usize| a < s && b < n && #[trigger] listed(v, sv, max, a as int, b as int) ==> out@.contains((a, b)),
            forall|i: int, j: int| 0 <= i < j < out@.len() ==> pair_before(v, sv, #[trigger] out@[i], #[trigger] out@[j]),
    {
        for c in 0..n
            invariant
                n == ids@.len(),
                s < n,
                v == strs(ids@),
                sv == score_views(scores@),
                max == max_candidates_per_entity as nat,
                distinct_ids(v),
                scores@.len() == ids@.len(),
                forall|k: int| 0 <= k < scores@.len() ==> (#[trigger] scores@[k])@.len() == ids@.len(),
                ranked_pairs(v, sv, out@),
                forall|k: int|
                    0 <= k < out@.len() ==> ((#[trigger] out@[k]).0 < s || (out@[k].0 == s && out@[k].1 < c)) && listed(
                        v,
                        sv,
                        max,
                        out@[k].0 as int,
                        out@[k].1 as int,
                    ),
                forall|a: usize, b: usize|
                    (a < s && b < n || a == s && b < c) && #[trigger] listed(v, sv, max, a as int, b as int) ==> out@.contains(
                        (a, b),
                    ),
                forall|i: int, j: int| 0 <= i < j < out@.len() ==> pair_before(v, sv, #[trigger] out@[i], #[trigger] out@[j]),
        {
            let keep = is_shortlisted(ids, scores, max_candidates_per_entity, s, c) && !(str_lt(
                ids[c].as_str(),
                ids[s].as_str(),
            ) && is_shortlisted(ids, scores, max_candidates_per_entity, c, s));
            if keep {
                proof {
                    assert(sv[s as int] == scores@[s as int]@);
                    if out@.contains((s, c)) {
                        let k = choose|k: int| 0 <= k < out@.len() && out@[k] == (s, c);
                        assert(out@[k].0 < s || (out@[k].0 == s && out@[k].1 < c));
                    }
                }
                let ghost prev = out@;
                insert_pair(ids, scores, &mut out, (s, c));
                proof {
                    assert forall|k: int| 0 <= k < out@.len() implies ((#[trigger] out@[k]).0 < s || (out@[k].0 == s
                        && out@[k].1 < c + 1)) && listed(v, sv, max, out@[k].0 as int, out@[k].1 as int) by {
                        assert(out@.contains(out@[k]));
                        if out@[k] != (s, c) {
                            assert(prev.contains(out@[k]));
                            let j = choose|j: int| 0 <= j < prev.len() && prev[j] == out@[k];
                            assert(prev[j].0 < s || (prev[j].0 == s && prev[j].1 < c));
                        }
                    }
                    assert forall|a: usize, b: usize|
                        (a < s && b < n || a == s && b < c + 1) && #[trigger] listed(v, sv, max, a as int, b as int)
                            implies out@.contains((a, b)) by {
                        if !(a == s && b == c) {
                            assert(prev.contains((a, b)));
                        }
                    }
                }
            }
        }
    }
    Ok(out)
}

/// The verifier sees each unordered pair of entities once: a pair is never
/// listed from both sides.
pub proof fn lemma_pair_listed_once(ids: Seq<Seq<char>>, scores: Seq<Seq<Option<u64>>>, max: nat, s: int, c: int)
    requires
        distinct_ids(ids),
        0 <= s < ids.len(),
        0 <= c < ids.len(),
    ensures
        !(listed(ids, scores, max, s, c) && listed(ids, scores, max, c, s)),
{
    lemma_seq_lt_total(ids[s], ids[c]);
    if s < c {
        assert(ids[s] != ids[c]);
    } else if c < s {
        assert(ids[c] != ids[s]);
    }
}

/// How many of the first `k` positions satisfy `p`.
pub open spec fn count_below(p: spec_fn(int) -> bool, k: int) -> nat
    decreases k,
{
    if k <= 0 {
        0
    } else {
        count_below(p, k - 1) + if p(k - 1) {
            1nat
        } else {
            0nat
        }
    }
}

/// The number of neighbours on the shortlist of `s`.
pub open spec fn shortlist_size(ids: Seq<Seq<char>>, scores: Seq<Seq<Option<u64>>>, max: nat, s: int) -> nat {
    count_below(|c: int| shortlisted(ids, scores, max, s, c), ids.len() as int)
}

proof fn lemma_count_mono(p: spec_fn(int) -> bool, q: spec_fn(int) -> bool, k: int)
    requires
        forall|x: int| 0 <= x < k && #[trigger] p(x) ==> q(x),
    ensures
        count_below(p, k) <= count_below(q, k),
    decreases k,
{
    if k > 0 {
        lemma_count_mono(p, q, k - 1);
    }
}

proof fn lemma_count_without(p: spec_fn(int) -> bool, q: spec_fn(int) -> bool, k: int, m: int)
    requires
        0 <= m < k,
        p(m),
        forall|x: int| #[trigger] q(x) == (p(x) && x != m),
    ensures
        count_below(p, k) == count_below(q, k) + 1,
    decreases k,
{
    if k - 1 > m {
        lemma_count_without(p, q, k - 1, m);
    } else {
        lemma_count_same(p, q, k - 1, m);
    }
}

proof fn lemma_count_same(p: spec_fn(int) -> bool, q: spec_fn(int) -> bool, k: int, m: int)
    requires
        k <= m,
        forall|x: int| #[trigger] q(x) == (p(x) && x != m),
    ensures
        count_below(p, k) == count_below(q, k),
    decreases k,
{
    if k > 0 {
        lemma_count_same(p, q, k - 1, m);
    }
}

proof fn lemma_ahead_count(ids: Seq<Seq<char>>, scores: Seq<Seq<Option<u64>>>, s: int, c: int, k: int)
    ensures
        ahead_of(ids, scores, s, c, k) == count_below(
            |x: int| eligible(scores, s, x) && ranks_ahead(ids, scores, s, x, c),
            k,
        ),
    decreases k,
{
    if k > 0 {
        lemma_ahead_count(ids, scores, s, c, k - 1);
    }
}

/// The shortlisted neighbour of `s` that every other one among the first
/// `k` ranks ahead of; -1 when there is none.
spec fn last_shortlisted(ids: Seq<Seq<char>>, scores: Seq<Seq<Option<u64>>>, max: nat, s: int, k: int) -> int
    decreases k,
{
    if k <= 0 {
        -1
    } else {
        let m = last_shortlisted(ids, scores, max, s, k - 1);
        if shortlisted(ids, scores, max, s, k - 1) && (m == -1 || ranks_ahead(ids, scores, s, m, k - 1)) {
            k - 1
        } else {
            m
        }
    }
}

/// Among eligible neighbours with distinct IDs, shortlist order is a strict
/// total order.
proof fn lemma_ranks_ahead_order(ids: Seq<Seq<char>>, scores: Seq<Seq<Option<u64>>>, s: int, a: int, b: int, c: int)
    requires
        distinct_ids(ids),
        0 <= a < ids.len(),
        0 <= b < ids.len(),
    ensures
        !ranks_ahead(ids, scores, s, a, a),
        a != b ==> (ranks_ahead(ids, scores, s, a, b) || ranks_ahead(ids, scores, s, b, a)),
        ranks_ahead(ids, scores, s, a, b) && ranks_ahead(ids, scores, s, b, c) ==> ranks_ahead(ids, scores, s, a, c),
{
    lemma_seq_lt_irreflexive(ids[a]);
    lemma_seq_lt_total(ids[a], ids[b]);
    if a < b {
        assert(ids[a] != ids[b]);
    } else if b < a {
        assert(ids[b] != ids[a]);
    }
    if seq_lt(ids[a], ids[b]) && seq_lt(ids[b], ids[c]) {
        lemma_seq_lt_transitive(ids[a], ids[b], ids[c]);
    }
}

proof fn lemma_last_shortlisted(ids: Seq<Seq<char>>, scores: Seq<Seq<Option<u64>>>, max: nat, s: int, k: int)
    requires
        distinct_ids(ids),
        0 <= k <= ids.len(),
    ensures
        -1 <= last_shortlisted(ids, scores, max, s, k) < k,
        last_shortlisted(ids, scores, max, s, k) == -1 ==> forall|y: int|
            0 <= y < k ==> !shortlisted(ids, scores, max, s, y),
        last_shortlisted(ids, scores, max, s, k) >= 0 ==> {
            let m = last_shortlisted(ids, scores, max, s, k);
            &&& shortlisted(ids, scores, max, s, m)
            &&& forall|y: int|
                0 <= y < k && y != m && shortlisted(ids, scores, max, s, y) ==> ranks_ahead(ids, scores, s, y, m)
        },
    decreases k,
{
    if k > 0 {
        lemma_last_shortlisted(ids, scores, max, s, k - 1);
        let m = last_shortlisted(ids, scores, max, s, k - 1);
        if m >= 0 {
            lemma_ranks_ahead_order(ids, scores, s, m, k - 1, m);
            let l = last_shortlisted(ids, scores, max, s, k);
            assert forall|y: int|
                0 <= y < k && y != l && shortlisted(ids, scores, max, s, y) implies ranks_ahead(ids, scores, s, y, l) by {
                if l == k - 1 && y != m {
                    lemma_ranks_ahead_order(ids, scores, s, y, m, k - 1);
                }
            }
        }
    }
}

/// Each entity keeps at most `max` neighbours on its shortlist.
pub proof fn lemma_shortlist_bounded(ids: Seq<Seq<char>>, scores: Seq<Seq<Option<u64>>>, max: nat, s: int)
    requires
        distinct_ids(ids),
    ensures
        shortlist_size(ids, scores, max, s) <= max,
{
    let n = ids.len() as int;
    lemma_last_shortlisted(ids, scores, max, s, n);
    let m = last_shortlisted(ids, scores, max, s, n);
    let p = |c: int| shortlisted(ids, scores, max, s, c);
    if m == -1 {
        let none = |c: int| false;
        lemma_count_mono(p, none, n);
        lemma_count_zero(n);
    } else {
        let others = |c: int| shortlisted(ids, scores, max, s, c) && c != m;
        let ahead = |x: int| eligible(scores, s, x) && ranks_ahead(ids, scores, s, x, m);
        lemma_count_without(p, others, n, m);
        lemma_count_mono(others, ahead, n);
        lemma_ahead_count(ids, scores, s, m, n);
    }
}

proof fn lemma_count_zero(k: int)
    ensures
        count_below(|c: int| false, k) == 0,
    decreases k,
{
    if k > 0 {
        lemma_count_zero(k - 1);
    }
}

} // verus!
