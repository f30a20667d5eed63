//! Grapheme cluster boundaries of a text, in char indices.

use crate::unicode::{grapheme_cluster_lengths, grapheme_lengths, seq_sum};
use vstd::prelude::*;

verus! {

/// A segmentation of a text of `len` chars: positive cluster lengths that add up to `len`.
pub open spec fn valid_lens(lens: Seq<usize>, len: int) -> bool {
    &&& forall|i: int| 0 <= i < lens.len() ==> lens[i] >= 1
    &&& seq_sum(lens) == len
}

/// Walks the clusters from cluster `k` (which starts at `acc`) and returns the
/// first cluster start after `pos`, or the end of the text.
pub open spec fn next_bound_walk(lens: Seq<usize>, pos: int, k: int, acc: int) -> int
    decreases lens.len() - k,
{
    if k >= lens.len() || acc > pos {
        acc
    } else {
        next_bound_walk(lens, pos, k + 1, acc + lens[k])
    }
}

/// Walks the clusters from cluster `k` (which starts at `acc`) and returns the
/// start of the cluster that holds `pos - 1`: the last cluster boundary before
/// `pos`, or 0.
pub open spec fn prev_bound_walk(lens: Seq<usize>, pos: int, k: int, acc: int) -> int
    decreases lens.len() - k,
{
    if k >= lens.len() || acc + lens[k] >= pos {
        acc
    } else {
        prev_bound_walk(lens, pos, k + 1, acc + lens[k])
    }
}

/// The first grapheme boundary after `pos` (the end of the text if there is none).
pub open spec fn next_grapheme_boundary_spec(t: Seq<char>, pos: int) -> int {
    next_bound_walk(grapheme_cluster_lengths(t), pos, 0, 0)
}

/// The last grapheme boundary before `pos` (0 if there is none).
pub open spec fn prev_grapheme_boundary_spec(t: Seq<char>, pos: int) -> int {
    prev_bound_walk(grapheme_cluster_lengths(t), pos, 0, 0)
}

/// `n` steps of `next_grapheme_boundary_spec`.
pub open spec fn nth_next_grapheme_boundary_spec(t: Seq<char>, pos: int, n: nat) -> int
    decreases n,
{
    if n == 0 {
        pos
    } else {
        nth_next_grapheme_boundary_spec(t, next_grapheme_boundary_spec(t, pos), (n - 1) as nat)
    }
}

/// `n` steps of `prev_grapheme_boundary_spec`.
pub open spec fn nth_prev_grapheme_boundary_spec(t: Seq<char>, pos: int, n: nat) -> int
    decreases n,
{
    if n == 0 {
        pos
    } else {
        nth_prev_grapheme_boundary_spec(t, prev_grapheme_boundary_spec(t, pos), (n - 1) as nat)
    }
}

/// Whether the segmentation of `t` obeys what the segmenter promises.
pub open spec fn segmented(t: Seq<char>) -> bool {
    valid_lens(grapheme_cluster_lengths(t), t.len() as int)
}

pub proof fn lemma_sum_take_step(lens: Seq<usize>, k: int)
    requires
        0 <= k < lens.len(),
    ensures
        seq_sum(lens.take(k + 1)) == seq_sum(lens.take(k)) + lens[k],
{
    assert(lens.take(k + 1).drop_last() =~= lens.take(k));
}

pub proof fn lemma_sum_take_le(lens: Seq<usize>, k: int)
    requires
        0 <= k <= lens.len(),
    ensures
        seq_sum(lens.take(k)) <= seq_sum(lens),
        k == lens.len() ==> seq_sum(lens.take(k)) == seq_sum(lens),
    decreases lens.len() - k,
{
    if k == lens.len() {
        assert(lens.take(k) =~= lens);
    } else {
        lemma_sum_take_step(lens, k);
        lemma_sum_take_le(lens, k + 1);
    }
}

pub proof fn lemma_next_walk(lens: Seq<usize>, pos: int, k: int, acc: int)
    requires
        valid_lens(lens, seq_sum(lens)),
        0 <= k <= lens.len(),
        acc == seq_sum(lens.take(k)),
    ensures
        acc <= next_bound_walk(lens, pos, k, acc) <= seq_sum(lens),
        acc > pos ==> next_bound_walk(lens, pos, k, acc) == acc,
        pos < seq_sum(lens) ==> next_bound_walk(lens, pos, k, acc) > pos,
        pos >= seq_sum(lens) ==> next_bound_walk(lens, pos, k, acc) == seq_sum(lens),
    decreases lens.len() - k,
{
    lemma_sum_take_le(lens, k);
    if k < lens.len() && acc <= pos {
        lemma_sum_take_step(lens, k);
        lemma_next_walk(lens, pos, k + 1, acc + lens[k]);
    }
}

pub proof fn lemma_prev_walk(lens: Seq<usize>, pos: int, k: int, acc: int)
    requires
        valid_lens(lens, seq_sum(lens)),
        0 <= k <= lens.len(),
        acc == seq_sum(lens.take(k)),
        acc < pos || (acc == 0 && pos == 0),
        pos <= seq_sum(lens),
    ensures
        acc <= prev_bound_walk(lens, pos, k, acc),
        prev_bound_walk(lens, pos, k, acc) < pos || pos == 0,
    decreases lens.len() - k,
{
    lemma_sum_take_le(lens, k);
    if k < lens.len() && acc + lens[k] < pos {
        lemma_sum_take_step(lens, k);
        lemma_prev_walk(lens, pos, k + 1, acc + lens[k]);
    }
}

/// What callers learn of the grapheme boundaries of a segmented text.
pub proof fn lemma_boundaries(t: Seq<char>, pos: int)
    requires
        segmented(t),
        0 <= pos <= t.len(),
    ensures
        pos <= next_grapheme_boundary_spec(t, pos) <= t.len(),
        pos < t.len() ==> pos < next_grapheme_boundary_spec(t, pos),
        pos == t.len() ==> next_grapheme_boundary_spec(t, pos) == t.len(),
        0 <= prev_grapheme_boundary_spec(t, pos) <= pos,
        pos > 0 ==> prev_grapheme_boundary_spec(t, pos) < pos,
        pos == 0 ==> prev_grapheme_boundary_spec(t, pos) == 0,
{
    let lens = grapheme_cluster_lengths(t);
    assert(lens.take(0) =~= Seq::<usize>::empty());
    lemma_next_walk(lens, pos, 0, 0);
    lemma_prev_walk(lens, pos, 0, 0);
}

pub proof fn lemma_nth_boundaries(t: Seq<char>, pos: int, n: nat)
    requires
        segmented(t),
        0 <= pos <= t.len(),
    ensures
        pos <= nth_next_grapheme_boundary_spec(t, pos, n) <= t.len(),
        0 <= nth_prev_grapheme_boundary_spec(t, pos, n) <= pos,
    decreases n,
{
    if n > 0 {
        lemma_boundaries(t, pos);
        lemma_nth_boundaries(t, next_grapheme_boundary_spec(t, pos), (n - 1) as nat);
        lemma_nth_boundaries(t, prev_grapheme_boundary_spec(t, pos), (n - 1) as nat);
    }
}

/// First cluster boundary after `pos` in a segmentation.
pub(crate) fn next_boundary_in(lens: &Vec<usize>, pos: usize) -> (r: usize)
    requires
        valid_lens(lens@, seq_sum(lens@)),
        seq_sum(lens@) <= usize::MAX,
    ensures
        r == next_bound_walk(lens@, pos as int, 0, 0),
{
    let mut k: usize = 0;
    let mut acc: usize = 0;
    proof {
        assert(lens@.take(0) =~= Seq::<usize>::empty());
    }
    while k < lens.len()
        invariant
            valid_lens(lens@, seq_sum(lens@)),
            seq_sum(lens@) <= usize::MAX,
            0 <= k <= lens@.len(),
            acc == seq_sum(lens@.take(k as int)),
            next_bound_walk(lens@, pos as int, 0, 0) == next_bound_walk(lens@, pos as int, k as int, acc as int),
        decreases lens.len() - k,
    {
        if acc > pos {
            return acc;
        }
        proof {
            lemma_sum_take_step(lens@, k as int);
            lemma_sum_take_le(lens@, k + 1);
        }
        acc = acc + lens[k];
        k = k + 1;
    }
    acc
}

/// Last cluster boundary before `pos` in a segmentation (0 if none).
pub(crate) fn prev_boundary_in(lens: &Vec<usize>, pos: usize) -> (r: usize)
    requires
        valid_lens(lens@, seq_sum(lens@)),
        seq_sum(lens@) <= usize::MAX,
    ensures
        r == prev_bound_walk(lens@, pos as int, 0, 0),
{
    let mut k: usize = 0;
    let mut acc: usize = 0;
    proof {
        assert(lens@.take(0) =~= Seq::<usize>::empty());
    }
    while k < lens.len()
        invariant
            valid_lens(lens@, seq_sum(lens@)),
            seq_sum(lens@) <= usize::MAX,
            0 <= k <= lens@.len(),
            acc == seq_sum(lens@.take(k as int)),
            prev_bound_walk(lens@, pos as int, 0, 0) == prev_bound_walk(lens@, pos as int, k as int, acc as int),
        decreases lens.len() - k,
    {
        proof {
            lemma_sum_take_step(lens@, k as int);
            lemma_sum_take_le(lens@, k + 1);
        }
        if acc + lens[k] >= pos {
            return acc;
        }
        acc = acc + lens[k];
        k = k + 1;
    }
    acc
}

/// The grapheme segmentation of `text`.
pub(crate) fn segment(text: &[char]) -> (lens: Vec<usize>)
    ensures
        lens@ == grapheme_cluster_lengths(text@),
        segmented(text@),
        valid_lens(lens@, seq_sum(lens@)),
        seq_sum(lens@) == text@.len(),
        text@.len() <= usize::MAX,
{
    let _n = text.len();
    grapheme_lengths(text)
}

/// The first grapheme boundary after `pos`; the end of the text if `pos` is there.
pub fn next_grapheme_boundary(text: &[char], pos: usize) -> (r: usize)
    requires
        pos <= text@.len(),
    ensures
        r == next_grapheme_boundary_spec(text@, pos as int),
        segmented(text@),
        pos <= r <= text@.len(),
        pos < text@.len() ==> pos < r,
{
    let lens = segment(text);
    proof {
        lemma_boundaries(text@, pos as int);
    }
    next_boundary_in(&lens, pos)
}

/// The last grapheme boundary before `pos`; 0 if `pos` is 0.
pub fn prev_grapheme_boundary(text: &[char], pos: usize) -> (r: usize)
    requires
        pos <= text@.len(),
    ensures
        r == prev_grapheme_boundary_spec(text@, pos as int),
        segmented(text@),
        r <= pos,
        pos > 0 ==> r < pos,
{
    let lens = segment(text);
    proof {
        lemma_boundaries(text@, pos as int);
    }
    prev_boundary_in(&lens, pos)
}

/// `n` grapheme boundaries forward from `pos`, stopping at the end of the text.
pub fn nth_next_grapheme_boundary(text: &[char], pos: usize, n: usize) -> (r: usize)
    requires
        pos <= text@.len(),
    ensures
        r == nth_next_grapheme_boundary_spec(text@, pos as int, n as nat),
        segmented(text@),
        pos <= r <= text@.len(),
{
    let lens = segment(text);
    let mut p = pos;
    let mut i: usize = 0;
    while i < n
        invariant
            lens@ == grapheme_cluster_lengths(text@),
            segmented(text@),
            seq_sum(lens@) == text@.len(),
            text@.len() <= usize::MAX,
            i <= n,
            pos <= p <= text@.len(),
            nth_next_grapheme_boundary_spec(text@, pos as int, n as nat)
                == nth_next_grapheme_boundary_spec(text@, p as int, (n - i) as nat),
        decreases n - i,
    {
        proof {
            lemma_boundaries(text@, p as int);
        }
        p = next_boundary_in(&lens, p);
        i = i + 1;
    }
    p
}

/// `n` grapheme boundaries backward from `pos`, stopping at the start of the text.
pub fn nth_prev_grapheme_boundary(text: &[char], pos: usize, n: usize) -> (r: usize)
    requires
        pos <= text@.len(),
    ensures
        r == nth_prev_grapheme_boundary_spec(text@, pos as int, n as nat),
        segmented(text@),
        r <= pos,
{
    let lens = segment(text);
    let mut p = pos;
    let mut i: usize = 0;
    while i < n
        invariant
            lens@ == grapheme_cluster_lengths(text@),
            segmented(text@),
            seq_sum(lens@) == text@.len(),
            text@.len() <= usize::MAX,
            i <= n,
            p <= pos <= text@.len(),
            nth_prev_grapheme_boundary_spec(text@, pos as int, n as nat)
                == nth_prev_grapheme_boundary_spec(text@, p as int, (n - i) as nat),
        decreases n - i,
    {
        proof {
            lemma_boundaries(text@, p as int);
        }
        p = prev_boundary_in(&lens, p);
        i = i + 1;
    }
    p
}

} // verus!
