//! Hunks of a diff between a file's base version and the document, and how
//! the editor steps between them.

use std::ops::Range;
use vstd::prelude::*;

verus! {

/// A single change, possibly spanning several lines: the lines it replaces
/// in the base version and the lines it takes in the document.
#[derive(Debug)]
pub struct Hunk {
    pub before: Range<u32>,
    pub after: Range<u32>,
}

/// The hunks are ordered by their position in the file and do not overlap:
/// each ends before the next starts, on both sides of the diff.
pub open spec fn hunks_ordered(hs: Seq<Hunk>) -> bool {
    &&& forall|i: int| 0 <= i < hs.len() ==> #[trigger] hs[i].before.start <= hs[i].before.end
        && hs[i].after.start <= hs[i].after.end
    &&& forall|i: int, j: int|
        #![trigger hs[i], hs[j]]
        0 <= i < j < hs.len() ==> hs[i].before.end < hs[j].before.start && hs[i].after.end < hs[j].after.start
}

/// Index of the first hunk that starts after `line` in the document (their
/// number where none does).
pub open spec fn first_starting_after(hs: Seq<Hunk>, line: u32) -> int
    decreases hs.len(),
{
    if hs.len() == 0 {
        0
    } else if hs[0].after.start > line {
        0
    } else {
        1 + first_starting_after(hs.drop_first(), line)
    }
}

/// Index of the first hunk that ends at or after `line` in the document
/// (their number where none does).
pub open spec fn first_ending_from(hs: Seq<Hunk>, line: u32) -> int
    decreases hs.len(),
{
    if hs.len() == 0 {
        0
    } else if hs[0].after.end >= line {
        0
    } else {
        1 + first_ending_from(hs.drop_first(), line)
    }
}

/// Index of the first hunk whose document lines hold `line` (their number
/// where none does).
pub open spec fn first_holding(hs: Seq<Hunk>, line: u32) -> int
    decreases hs.len(),
{
    if hs.len() == 0 {
        0
    } else if hs[0].after.start <= line < hs[0].after.end {
        0
    } else {
        1 + first_holding(hs.drop_first(), line)
    }
}

/// The index `prev_hunk` goes to: the hunk that ends at `line`, else the last
/// one that ends before it (the first hunk where none does).
pub open spec fn prev_index(hs: Seq<Hunk>, line: u32) -> int {
    let c = first_ending_from(hs, line);
    if c < hs.len() && hs[c].after.end == line {
        c
    } else if c > 0 {
        c - 1
    } else {
        0
    }
}

/// `h` equals the hunk `g`, field by field.
pub open spec fn same_hunk(h: Hunk, g: Hunk) -> bool {
    h.before.start == g.before.start && h.before.end == g.before.end && h.after.start == g.after.start
        && h.after.end == g.after.end
}

/// The hunk at index `n` of `hs`, if there is one.
pub open spec fn hunk_spec(hs: Seq<Hunk>, n: int, r: Option<Hunk>) -> bool {
    if 0 <= n < hs.len() {
        r.is_some() && same_hunk(r.unwrap(), hs[n])
    } else {
        r.is_none()
    }
}

/// A copy of `h`.
fn copy_hunk(h: &Hunk) -> (r: Hunk)
    ensures
        same_hunk(r, *h),
{
    Hunk { before: h.before.start..h.before.end, after: h.after.start..h.after.end }
}

/// Whether a hunk that replaces `len_before` lines by `len_after` lines is
/// diffed char by char: not a pure insertion or removal, not one side more
/// than five times the other (where the old side has over 10 lines, for a
/// shrinking hunk), and at most 200 lines in all.
pub fn hunk_gets_char_diff(len_before: u32, len_after: u32) -> (b: bool)
    requires
        !(len_before == 0 || len_after == 0) ==> 5 * len_before <= u32::MAX && (len_after <= 5 * len_before
            ==> 5 * len_after <= u32::MAX && (!(5 * len_after < len_before && len_before > 10) ==> len_before
            + len_after <= u32::MAX)),
    ensures
        b == !(len_before == 0 || len_after == 0 || len_after > 5 * len_before || (5 * len_after < len_before
            && len_before > 10) || len_before + len_after > 200),
{
    !(len_before == 0 || len_after == 0 || len_after > 5 * len_before || 5 * len_after < len_before
        && len_before > 10 || len_before + len_after > 200)
}

/// The hunk of the `n`th change.
pub fn nth_hunk(hunks: &[Hunk], n: u32) -> (r: Option<Hunk>)
    ensures
        hunk_spec(hunks@, n as int, r),
{
    let i = n as usize;
    if i < hunks.len() {
        Some(copy_hunk(&hunks[i]))
    } else {
        None
    }
}

proof fn lemma_first_starting_after(hs: Seq<Hunk>, line: u32)
    ensures
        0 <= first_starting_after(hs, line) <= hs.len(),
        forall|j: int| 0 <= j < first_starting_after(hs, line) ==> #[trigger] hs[j].after.start <= line,
        first_starting_after(hs, line) < hs.len() ==> hs[first_starting_after(hs, line)].after.start > line,
    decreases hs.len(),
{
    if hs.len() > 0 && hs[0].after.start <= line {
        lemma_first_starting_after(hs.drop_first(), line);
        assert forall|j: int| 0 <= j < first_starting_after(hs, line) implies #[trigger] hs[j].after.start <= line by {
            if j > 0 {
                assert(hs[j] == hs.drop_first()[j - 1]);
            }
        }
    }
}

proof fn lemma_first_ending_from(hs: Seq<Hunk>, line: u32)
    ensures
        0 <= first_ending_from(hs, line) <= hs.len(),
        forall|j: int| 0 <= j < first_ending_from(hs, line) ==> #[trigger] hs[j].after.end < line,
        first_ending_from(hs, line) < hs.len() ==> hs[first_ending_from(hs, line)].after.end >= line,
    decreases hs.len(),
{
    if hs.len() > 0 && hs[0].after.end < line {
        lemma_first_ending_from(hs.drop_first(), line);
        assert forall|j: int| 0 <= j < first_ending_from(hs, line) implies #[trigger] hs[j].after.end < line by {
            if j > 0 {
                assert(hs[j] == hs.drop_first()[j - 1]);
            }
        }
    }
}

proof fn lemma_first_holding(hs: Seq<Hunk>, line: u32)
    ensures
        0 <= first_holding(hs, line) <= hs.len(),
        forall|j: int| 0 <= j < first_holding(hs, line) ==> !(#[trigger] hs[j].after.start <= line < hs[j].after.end),
        first_holding(hs, line) < hs.len() ==> hs[first_holding(hs, line)].after.start <= line
            < hs[first_holding(hs, line)].after.end,
    decreases hs.len(),
{
    if hs.len() > 0 && !(hs[0].after.start <= line < hs[0].after.end) {
        lemma_first_holding(hs.drop_first(), line);
        assert forall|j: int| 0 <= j < first_holding(hs, line) implies !(#[trigger] hs[j].after.start <= line < hs[j].after.end) by {
            if j > 0 {
                assert(hs[j] == hs.drop_first()[j - 1]);
            }
        }
    }
}

/// The first hunk that starts after `line`. For ordered hunks this is the
/// hunk after the one starting at `line`, or the first one starting below it.
pub fn next_hunk(hunks: &[Hunk], line: u32) -> (r: Option<Hunk>)
    ensures
        hunk_spec(hunks@, first_starting_after(hunks@, line), r),
{
    proof {
        lemma_first_starting_after(hunks@, line);
    }
    let mut i: usize = 0;
    while i < hunks.len() && hunks[i].after.start <= line
        invariant
            0 <= i <= hunks@.len(),
            forall|j: int| 0 <= j < i ==> #[trigger] hunks@[j].after.start <= line,
            0 <= first_starting_after(hunks@, line) <= hunks@.len(),
            forall|j: int| 0 <= j < first_starting_after(hunks@, line) ==> #[trigger] hunks@[j].after.start <= line,
            first_starting_after(hunks@, line) < hunks@.len() ==> hunks@[first_starting_after(hunks@, line)].after.start > line,
        decreases hunks.len() - i,
    {
        i = i + 1;
    }
    if i < hunks.len() {
        Some(copy_hunk(&hunks[i]))
    } else {
        None
    }
}

/// The hunk that ends at `line`, else the last one that ends before it (the
/// first hunk where none does).
pub fn prev_hunk(hunks: &[Hunk], line: u32) -> (r: Option<Hunk>)
    ensures
        hunk_spec(hunks@, prev_index(hunks@, line), r),
{
    proof {
        lemma_first_ending_from(hunks@, line);
    }
    let mut c: usize = 0;
    while c < hunks.len() && hunks[c].after.end < line
        invariant
            0 <= c <= hunks@.len(),
            forall|j: int| 0 <= j < c ==> #[trigger] hunks@[j].after.end < line,
            0 <= first_ending_from(hunks@, line) <= hunks@.len(),
            forall|j: int| 0 <= j < first_ending_from(hunks@, line) ==> #[trigger] hunks@[j].after.end < line,
            first_ending_from(hunks@, line) < hunks@.len() ==> hunks@[first_ending_from(hunks@, line)].after.end >= line,
        decreases hunks.len() - c,
    {
        c = c + 1;
    }
    let index = if c < hunks.len() && hunks[c].after.end == line {
        c
    } else {
        c.saturating_sub(1)
    };
    if index < hunks.len() {
        Some(copy_hunk(&hunks[index]))
    } else {
        None
    }
}

/// The first hunk whose document lines hold `line`.
pub fn hunk_at(hunks: &[Hunk], line: u32) -> (r: Option<Hunk>)
    ensures
        hunk_spec(hunks@, first_holding(hunks@, line), r),
{
    proof {
        lemma_first_holding(hunks@, line);
    }
    let mut i: usize = 0;
    while i < hunks.len() && !(hunks[i].after.start <= line && line < hunks[i].after.end)
        invariant
            0 <= i <= hunks@.len(),
            forall|j: int| 0 <= j < i ==> !(#[trigger] hunks@[j].after.start <= line < hunks@[j].after.end),
            0 <= first_holding(hunks@, line) <= hunks@.len(),
            forall|j: int| 0 <= j < first_holding(hunks@, line) ==> !(#[trigger] hunks@[j].after.start <= line < hunks@[j].after.end),
            first_holding(hunks@, line) < hunks@.len() ==> hunks@[first_holding(hunks@, line)].after.start <= line
                < hunks@[first_holding(hunks@, line)].after.end,
        decreases hunks.len() - i,
    {
        i = i + 1;
    }
    if i < hunks.len() {
        Some(copy_hunk(&hunks[i]))
    } else {
        None
    }
}

/// In ordered hunks at most one hunk holds a given line, so the hunk
/// `hunk_at` finds is the only one there is.
pub proof fn lemma_hunk_at_unique(hs: Seq<Hunk>, line: u32, i: int, j: int)
    requires
        hunks_ordered(hs),
        0 <= i < hs.len(),
        0 <= j < hs.len(),
        hs[i].after.start <= line < hs[i].after.end,
        hs[j].after.start <= line < hs[j].after.end,
    ensures
        i == j,
{
    if i < j {
        assert(hs[i].after.end < hs[j].after.start);
    } else if j < i {
        assert(hs[j].after.end < hs[i].after.start);
    }
}

/// In ordered hunks, the hunk `next_hunk` finds is the nearest one below
/// `line`: every hunk that starts after `line` starts at or after it.
pub proof fn lemma_next_hunk_nearest(hs: Seq<Hunk>, line: u32, j: int)
    requires
        hunks_ordered(hs),
        0 <= j < hs.len(),
        hs[j].after.start > line,
    ensures
        first_starting_after(hs, line) < hs.len(),
        hs[first_starting_after(hs, line)].after.start <= hs[j].after.start,
{
    lemma_first_starting_after(hs, line);
    let k = first_starting_after(hs, line);
    assert(k <= j) by {
        if k > j {
            assert(hs[j].after.start <= line);
        }
    }
    if k < j {
        assert(hs[k].after.end < hs[j].after.start);
    }
}

/// In ordered hunks, where some hunk ends at or before `line`, the hunk
/// `prev_hunk` steps to ends at or before `line`, and no hunk ends between
/// its end and `line`: it is the nearest hunk that ends there or above.
pub proof fn lemma_prev_hunk_nearest(hs: Seq<Hunk>, line: u32, i: int)
    requires
        hunks_ordered(hs),
        0 <= i < hs.len(),
        hs[i].after.end <= line,
    ensures
        0 <= prev_index(hs, line) < hs.len(),
        hs[prev_index(hs, line)].after.end <= line,
        forall|j: int|
            0 <= j < hs.len() && #[trigger] hs[j].after.end <= line ==> hs[j].after.end <= hs[prev_index(
                hs,
                line,
            )].after.end,
{
    lemma_first_ending_from(hs, line);
    let c = first_ending_from(hs, line);
    assert(i < c || hs[c].after.end == line) by {
        if i >= c {
            if c < i {
                assert(hs[c].after.end < hs[i].after.start);
            }
        }
    }
    let p = prev_index(hs, line);
    assert forall|j: int| 0 <= j < hs.len() && #[trigger] hs[j].after.end <= line implies hs[j].after.end
        <= hs[p].after.end by {
        if j < p {
            assert(hs[j].after.end < hs[p].after.start);
        } else if j > p {
            if !(c < hs.len() && hs[c].after.end == line) {
                if j == c {
                } else {
                    assert(hs[c].after.end < hs[j].after.start);
                }
            }
        }
    }
}

/// Where every hunk ends after `line`, `prev_hunk` gives the first hunk.
pub proof fn lemma_prev_hunk_none_before(hs: Seq<Hunk>, line: u32)
    requires
        forall|j: int| 0 <= j < hs.len() ==> #[trigger] hs[j].after.end > line,
    ensures
        prev_index(hs, line) == 0,
{
    lemma_first_ending_from(hs, line);
    if hs.len() > 0 {
        assert(hs[0].after.end > line);
    }
}

} // verus!
