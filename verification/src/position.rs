//! Positions in a text as (row, column) pairs: by grapheme count, and by
//! display column (wide graphemes and tab stops taken into account).

use crate::graphemes::{
    next_grapheme_boundary_spec, prev_grapheme_boundary, prev_grapheme_boundary_spec, segment,
    segmented, valid_lens, lemma_sum_take_le, lemma_sum_take_step,
};
use crate::text::{lemma_line_starts_basic, 
    char_to_line, last_line_idx, len_lines, line_end_char_idx, line_end_char_index, line_of,
    line_start, line_to_char, line_bounds, line_end,
};
use crate::unicode::{grapheme_cluster_lengths, seq_sum, str_width, unicode_str_width};
use vstd::prelude::*;

verus! {

/// A (row, column) position.
#[derive(Debug, Clone, Copy, PartialEq, Eq, Structural)]
pub struct Position {
    pub row: usize,
    pub col: usize,
}

impl Position {
    pub fn new(row: usize, col: usize) -> (p: Position)
        ensures
            p.row == row,
            p.col == col,
    {
        Position { row, col }
    }
}

/// Display width of a grapheme that is not a tab: one column for a grapheme
/// that starts with an ASCII char, else its Unicode width but at least one.
pub open spec fn grapheme_width_spec(g: Seq<char>) -> int {
    if g.len() > 0 && (g[0] as u32) <= 127 {
        1
    } else if unicode_str_width(g) >= 1 {
        unicode_str_width(g) as int
    } else {
        1
    }
}

/// Columns a grapheme takes when it starts at column `col`: a tab reaches the
/// next tab stop.
pub open spec fn columns_of(g: Seq<char>, col: int, tab_width: int) -> int {
    if g == seq!['\t'] {
        tab_width - col % tab_width
    } else {
        grapheme_width_spec(g)
    }
}

/// Walks the clusters of `s` (lengths `lens`) from cluster `k`, which starts
/// at char `off` and column `col`, and returns the column reached at the end.
pub open spec fn width_walk(s: Seq<char>, lens: Seq<usize>, k: int, off: int, col: int, tab_width: int) -> int
    decreases lens.len() - k,
{
    if k < 0 || k >= lens.len() {
        col
    } else {
        let g = s.subrange(off, off + lens[k]);
        width_walk(s, lens, k + 1, off + lens[k], col + columns_of(g, col, tab_width), tab_width)
    }
}

/// Display width of `s` starting from column 0.
pub open spec fn display_width(s: Seq<char>, tab_width: int) -> int {
    width_walk(s, grapheme_cluster_lengths(s), 0, 0, 0, tab_width)
}

/// Walks the clusters of `s` from cluster `k` (at char `off`, column `col`)
/// until the next one would pass column `target`; returns the char offset reached.
pub open spec fn offset_walk(s: Seq<char>, lens: Seq<usize>, k: int, off: int, col: int, target: int, tab_width: int) -> int
    decreases lens.len() - k,
{
    if k < 0 || k >= lens.len() {
        off
    } else {
        let g = s.subrange(off, off + lens[k]);
        let w = columns_of(g, col, tab_width);
        if w > target - col {
            off
        } else {
            offset_walk(s, lens, k + 1, off + lens[k], col + w, target, tab_width)
        }
    }
}

/// Char offset in `s` of the grapheme at display column `target` (the start
/// of a grapheme that covers it, or the end of `s`).
pub open spec fn offset_at_column(s: Seq<char>, target: int, tab_width: int) -> int {
    offset_walk(s, grapheme_cluster_lengths(s), 0, 0, 0, target, tab_width)
}

/// Walks the clusters of `s` from cluster `k` (at char `off`) until `n` of
/// them are passed; returns the char offset reached.
pub open spec fn count_walk(lens: Seq<usize>, k: int, off: int, n: int) -> int
    decreases lens.len() - k,
{
    if k < 0 || k >= lens.len() || n <= 0 {
        off
    } else {
        count_walk(lens, k + 1, off + lens[k], n - 1)
    }
}

/// `pos` moved back to the start of the grapheme it lies in.
pub open spec fn boundary_at_or_before(t: Seq<char>, pos: int) -> int {
    if pos == t.len() {
        pos
    } else {
        prev_grapheme_boundary_spec(t, pos + 1)
    }
}

/// The end of the span that positions on line `l` are measured to: `pos`
/// moved to a grapheme start, and not before the line start.
pub open spec fn measured_end(t: Seq<char>, l: int, pos: int) -> int {
    let b = boundary_at_or_before(t, pos);
    if b < line_start(t, l) {
        line_start(t, l)
    } else {
        b
    }
}

/// The (line, display column) of `pos`.
pub open spec fn visual_coords_spec(t: Seq<char>, pos: int, tab_width: int) -> (int, int) {
    let l = line_of(t, pos);
    let s = line_start(t, l);
    (l, display_width(t.subrange(s, measured_end(t, l, pos)), tab_width))
}

/// The (line, grapheme count) of `pos`.
pub open spec fn coords_spec(t: Seq<char>, pos: int) -> (int, int) {
    let l = line_of(t, pos);
    let s = line_start(t, l);
    let sub = t.subrange(s, measured_end(t, l, pos));
    (l, grapheme_cluster_lengths(sub).len() as int)
}

/// The char index at display column `col` of line `row` (the last line for a
/// row past it), never past the line's line ending.
pub open spec fn pos_at_visual_coords_spec(t: Seq<char>, row: int, col: int, tab_width: int) -> int {
    let r = if row < len_lines(t) { row } else { len_lines(t) - 1 };
    let s = line_start(t, r);
    let e = line_end_char_index(t, r);
    s + offset_at_column(t.subrange(s, e), col, tab_width)
}

/// The line and display column of a position are never negative.
pub proof fn lemma_visual_coords_nonneg(t: Seq<char>, pos: int, tab_width: int)
    requires
        tab_width > 0,
    ensures
        visual_coords_spec(t, pos, tab_width).0 >= 0,
        visual_coords_spec(t, pos, tab_width).1 >= 0,
{
    lemma_line_starts_basic(t.take(pos));
    let l = line_of(t, pos);
    let g = t.subrange(line_start(t, l), measured_end(t, l, pos));
    lemma_width_walk_mono(g, grapheme_cluster_lengths(g), 0, 0, 0, tab_width);
}

proof fn lemma_width_walk_mono(s: Seq<char>, lens: Seq<usize>, k: int, off: int, col: int, tab_width: int)
    requires
        tab_width > 0,
        col >= 0,
    ensures
        width_walk(s, lens, k, off, col, tab_width) >= col,
    decreases lens.len() - k,
{
    if 0 <= k < lens.len() {
        let g = s.subrange(off, off + lens[k]);
        lemma_width_walk_mono(s, lens, k + 1, off + lens[k], col + columns_of(g, col, tab_width), tab_width);
    }
}

/// Display width of a grapheme that is not a tab.
pub fn grapheme_width(g: &[char]) -> (w: usize)
    ensures
        w == grapheme_width_spec(g@),
        w >= 1,
{
    if g.len() > 0 && (g[0] as u32) <= 127 {
        1
    } else {
        let w = str_width(g);
        if w >= 1 {
            w
        } else {
            1
        }
    }
}

/// Columns the grapheme `g` takes when it starts at column `col`.
fn grapheme_columns(g: &[char], col: usize, tab_width: usize) -> (w: usize)
    requires
        tab_width > 0,
    ensures
        w == columns_of(g@, col as int, tab_width as int),
        w >= 1,
{
    if g.len() == 1 && g[0] == '\t' {
        proof {
            assert(g@ =~= seq!['\t']);
        }
        tab_width - col % tab_width
    } else {
        proof {
            if g@ == seq!['\t'] {
                assert(g@.len() == 1 && g@[0] == '\t');
            }
        }
        grapheme_width(g)
    }
}

/// Display width of `s` from column 0.
pub fn display_width_of(s: &[char], tab_width: usize) -> (w: usize)
    requires
        tab_width > 0,
        display_width(s@, tab_width as int) <= usize::MAX,
    ensures
        w == display_width(s@, tab_width as int),
{
    let lens = segment(s);
    let mut k: usize = 0;
    let mut off: usize = 0;
    let mut col: usize = 0;
    proof {
        assert(lens@.take(0) =~= Seq::<usize>::empty());
    }
    while k < lens.len()
        invariant
            tab_width > 0,
            lens@ == grapheme_cluster_lengths(s@),
            valid_lens(lens@, seq_sum(lens@)),
            seq_sum(lens@) == s@.len(),
            s@.len() <= usize::MAX,
            0 <= k <= lens@.len(),
            off == seq_sum(lens@.take(k as int)),
            display_width(s@, tab_width as int) == width_walk(s@, lens@, k as int, off as int, col as int, tab_width as int),
            display_width(s@, tab_width as int) <= usize::MAX,
        decreases lens.len() - k,
    {
        proof {
            lemma_sum_take_step(lens@, k as int);
            lemma_sum_take_le(lens@, k + 1);
        }
        let end = off + lens[k];
        let w = grapheme_columns(&s[off..end], col, tab_width);
        proof {
            lemma_width_walk_mono(s@, lens@, k + 1, end as int, col + w, tab_width as int);
        }
        col = col + w;
        off = end;
        k = k + 1;
    }
    col
}

/// Char offset in `s` of the grapheme at display column `target`.
pub fn offset_at_col(s: &[char], target: usize, tab_width: usize) -> (o: usize)
    requires
        tab_width > 0,
    ensures
        o == offset_at_column(s@, target as int, tab_width as int),
        o <= s@.len(),
{
    let lens = segment(s);
    let mut k: usize = 0;
    let mut off: usize = 0;
    let mut col: usize = 0;
    proof {
        assert(lens@.take(0) =~= Seq::<usize>::empty());
    }
    while k < lens.len()
        invariant
            tab_width > 0,
            lens@ == grapheme_cluster_lengths(s@),
            valid_lens(lens@, seq_sum(lens@)),
            seq_sum(lens@) == s@.len(),
            s@.len() <= usize::MAX,
            0 <= k <= lens@.len(),
            off == seq_sum(lens@.take(k as int)),
            col <= target,
            offset_at_column(s@, target as int, tab_width as int) == offset_walk(s@, lens@, k as int, off as int, col as int, target as int, tab_width as int),
        decreases lens.len() - k,
    {
        proof {
            lemma_sum_take_step(lens@, k as int);
            lemma_sum_take_le(lens@, k + 1);
        }
        let end = off + lens[k];
        let w = grapheme_columns(&s[off..end], col, tab_width);
        // If the column is in the middle of a wider grapheme (a tab for
        // example), the grapheme's start is returned.
        if w > target - col {
            return off;
        }
        col = col + w;
        off = end;
        k = k + 1;
    }
    proof {
        lemma_sum_take_le(lens@, k as int);
    }
    off
}

/// Char offset in `s` after its first `n` graphemes (the end of `s` if it has fewer).
pub fn offset_after_graphemes(s: &[char], n: usize) -> (o: usize)
    ensures
        o == count_walk(grapheme_cluster_lengths(s@), 0, 0, n as int),
        o <= s@.len(),
{
    let lens = segment(s);
    let mut k: usize = 0;
    let mut off: usize = 0;
    proof {
        assert(lens@.take(0) =~= Seq::<usize>::empty());
    }
    while k < lens.len() && k < n
        invariant
            lens@ == grapheme_cluster_lengths(s@),
            valid_lens(lens@, seq_sum(lens@)),
            seq_sum(lens@) == s@.len(),
            s@.len() <= usize::MAX,
            0 <= k <= lens@.len(),
            k <= n,
            off == seq_sum(lens@.take(k as int)),
            count_walk(lens@, 0, 0, n as int) == count_walk(lens@, k as int, off as int, (n - k) as int),
        decreases lens.len() - k,
    {
        proof {
            lemma_sum_take_step(lens@, k as int);
            lemma_sum_take_le(lens@, k + 1);
        }
        off = off + lens[k];
        k = k + 1;
    }
    proof {
        lemma_sum_take_le(lens@, k as int);
    }
    off
}

/// `pos` moved back to the start of the grapheme it lies in, kept on its line.
fn measured_end_of(text: &[char], l: usize, pos: usize) -> (e: usize)
    requires
        pos <= text@.len(),
        l == line_of(text@, pos as int),
    ensures
        e == measured_end(text@, l as int, pos as int),
        line_start(text@, l as int) <= e <= pos,
{
    let _ = char_to_line(text, pos);
    let s = line_to_char(text, l);
    let b = if pos == text.len() {
        pos
    } else {
        prev_grapheme_boundary(text, pos + 1)
    };
    if b < s {
        s
    } else {
        b
    }
}

/// The line of `pos` and its display column (tabs reaching the next multiple
/// of `tab_width`).
pub fn visual_coords_at_pos(text: &[char], pos: usize, tab_width: usize) -> (p: Position)
    requires
        pos <= text@.len(),
        tab_width > 0,
        visual_coords_spec(text@, pos as int, tab_width as int).1 <= usize::MAX,
    ensures
        (p.row as int, p.col as int) == visual_coords_spec(text@, pos as int, tab_width as int),
{
    let line = char_to_line(text, pos);
    let line_start = line_to_char(text, line);
    let end = measured_end_of(text, line, pos);
    let col = display_width_of(&text[line_start..end], tab_width);
    Position::new(line, col)
}

/// The line of `pos` and the number of graphemes before it on its line.
pub fn coords_at_pos(text: &[char], pos: usize) -> (p: Position)
    requires
        pos <= text@.len(),
    ensures
        (p.row as int, p.col as int) == coords_spec(text@, pos as int),
{
    let line = char_to_line(text, pos);
    let line_start = line_to_char(text, line);
    let end = measured_end_of(text, line, pos);
    let lens = segment(&text[line_start..end]);
    Position::new(line, lens.len())
}

/// The char index at display column `coords.col` of line `coords.row` (the
/// last line for a row past it). A column past the end of the line gives the
/// start of its line ending; a column inside a wide grapheme gives its start.
pub fn pos_at_visual_coords(text: &[char], coords: Position, tab_width: usize) -> (p: usize)
    requires
        tab_width > 0,
    ensures
        p == pos_at_visual_coords_spec(text@, coords.row as int, coords.col as int, tab_width as int),
        p <= text@.len(),
{
    let last = last_line_idx(text);
    let row = if coords.row < last { coords.row } else { last };
    let line_start = line_to_char(text, row);
    let line_end = line_end_char_idx(text, row);
    let off = offset_at_col(&text[line_start..line_end], coords.col, tab_width);
    line_start + off
}

/// The char index after `coords.col` graphemes of line `coords.row`. With
/// `limit_before_line_ending` the row is kept to the last line and the column
/// to the line's content; without it the column may reach into the line ending.
pub fn pos_at_coords(text: &[char], coords: Position, limit_before_line_ending: bool) -> (p: usize)
    requires
        limit_before_line_ending || coords.row < len_lines(text@),
    ensures
        p == ({
            let r = if limit_before_line_ending && coords.row >= len_lines(text@) {
                len_lines(text@) - 1
            } else {
                coords.row as int
            };
            let s = line_start(text@, r);
            let e = if limit_before_line_ending { line_end_char_index(text@, r) } else { line_end(text@, r) };
            s + count_walk(grapheme_cluster_lengths(text@.subrange(s, e)), 0, 0, coords.col as int)
        }),
        p <= text@.len(),
{
    let last = last_line_idx(text);
    let row = if limit_before_line_ending && coords.row > last { last } else { coords.row };
    let line_start = line_to_char(text, row);
    let line_end = if limit_before_line_ending {
        line_end_char_idx(text, row)
    } else {
        line_bounds(text, row).1
    };
    let off = offset_after_graphemes(&text[line_start..line_end], coords.col);
    line_start + off
}

/// A tab that starts at column `col` ends at the next tab stop: the column
/// after it is the first multiple of `tab_width` above `col`, so the tab
/// takes at least one column and at most `tab_width`.
pub proof fn lemma_tab_reaches_stop(col: int, tab_width: int)
    requires
        tab_width > 0,
        col >= 0,
    ensures
        (col + columns_of(seq!['\t'], col, tab_width)) % tab_width == 0,
        (col + columns_of(seq!['\t'], col, tab_width)) / tab_width == col / tab_width + 1,
        0 < columns_of(seq!['\t'], col, tab_width) <= tab_width,
{
    let q = col / tab_width;
    let r = col % tab_width;
    vstd::arithmetic::div_mod::lemma_fundamental_div_mod(col, tab_width);
    vstd::arithmetic::div_mod::lemma_mod_pos_bound(col, tab_width);
    let w = columns_of(seq!['\t'], col, tab_width);
    assert(w == tab_width - r);
    assert(col + w == (q + 1) * tab_width) by (nonlinear_arith)
        requires
            col == tab_width * q + r,
            w == tab_width - r,
    ;
    vstd::arithmetic::div_mod::lemma_fundamental_div_mod_converse(col + w, tab_width, q + 1, 0);
}

} // verus!
