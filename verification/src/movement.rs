//! Cursor movements: by graphemes, by lines, by words and by paragraphs.

use crate::chars::{categorize_char, category_of, char_has_white_space, is_eol, CharCategory};
use crate::unicode::unicode_white_space;
use crate::graphemes::{nth_next_grapheme_boundary, nth_next_grapheme_boundary_spec,
    nth_prev_grapheme_boundary, nth_prev_grapheme_boundary_spec,
    next_grapheme_boundary, next_grapheme_boundary_spec, prev_grapheme_boundary,
    prev_grapheme_boundary_spec, segmented,
};
use crate::position::{pos_at_visual_coords, pos_at_visual_coords_spec, visual_coords_at_pos,
    visual_coords_spec, Position};
use crate::selection::{cursor_spec, put_cursor_spec, range_in, Range, RuleContext, VisualPosition};
use crate::text::{
    char_to_line, is_line_blank, line_end, lemma_line_start_ge, last_line_idx, len_lines, line_bounds,
    line_is_blank, line_of, line_start, line_to_char, scan_back, scan_fwd,
    scan_lines_back, scan_lines_fwd_start,
};
use vstd::prelude::*;

verus! {

#[derive(Debug, Copy, Clone, PartialEq, Eq, Structural)]
pub enum Direction {
    Forward,
    Backward,
}

#[derive(Debug, Copy, Clone, PartialEq, Eq, Structural)]
pub enum Movement {
    Extend,
    Move,
}

/// How text is laid out on screen: every line is one visual row, and tabs
/// reach the next multiple of `tab_width` columns.
#[derive(Debug, Copy, Clone, PartialEq, Eq, Structural)]
pub struct TextFormat {
    pub tab_width: u16,
}

impl Default for TextFormat {
    fn default() -> (f: TextFormat)
        ensures
            f.tab_width == 4,
    {
        TextFormat { tab_width: 4 }
    }
}

/// The range `move_horizontally` gives: the cursor moved by `count` graphemes.
pub open spec fn move_horizontally_spec(t: Seq<char>, r: Range, dir: Direction, count: nat, extend: bool) -> (int, int) {
    let pos = cursor_spec(t, r);
    let new_pos = match dir {
        Direction::Forward => nth_next_grapheme_boundary_spec(t, pos, count),
        Direction::Backward => nth_prev_grapheme_boundary_spec(t, pos, count),
    };
    put_cursor_spec(t, r, new_pos, extend)
}

/// Moves the cursor `count` graphemes in `dir`; with `Extend` the anchor stays.
pub fn move_horizontally(
    slice: &[char],
    range: Range,
    dir: Direction,
    count: usize,
    behaviour: Movement,
    _text_fmt: &TextFormat,
) -> (r: Range)
    requires
        range_in(range, slice@.len() as int),
    ensures
        (r.anchor as int, r.head as int) == move_horizontally_spec(slice@, range, dir, count as nat, behaviour == Movement::Extend),
        r.old_visual_position.is_none(),
        range_in(r, slice@.len() as int),
{
    let pos = range.cursor(slice);

    // Compute the new position.
    let new_pos = match dir {
        Direction::Forward => nth_next_grapheme_boundary(slice, pos, count),
        Direction::Backward => nth_prev_grapheme_boundary(slice, pos, count),
    };

    // Compute the final new range.
    range.put_cursor(slice, new_pos, behaviour == Movement::Extend)
}

/// The line `count` lines from `line` in `dir`, kept within the text.
pub open spec fn target_line(t: Seq<char>, line: int, dir: Direction, count: nat) -> int {
    match dir {
        Direction::Forward => if line + count < len_lines(t) { line + count } else { len_lines(t) - 1 },
        Direction::Backward => if line >= count { line - count } else { 0 },
    }
}

/// The column a vertical move aims at: the remembered one, else the cursor's.
pub open spec fn aimed_column(t: Seq<char>, r: Range, tab_width: int) -> u32 {
    match r.old_visual_position {
        Some(p) => p.col,
        None => visual_coords_spec(t, cursor_spec(t, r), tab_width).1 as u32,
    }
}

/// The range `move_vertically` gives; `None` when it leaves the range alone
/// (an extending move onto the empty last line).
pub open spec fn move_vertically_spec(t: Seq<char>, r: Range, dir: Direction, count: nat, extend: bool, tab_width: int) -> Option<(int, int)> {
    let pos = cursor_spec(t, r);
    let line = line_of(t, pos);
    let new_col = aimed_column(t, r, tab_width);
    let new_line = target_line(t, line, dir, count);
    let new_pos = pos_at_visual_coords_spec(t, new_line, new_col as int, tab_width);
    if extend && line_start(t, new_line) == line_end(t, new_line) {
        None
    } else {
        Some(put_cursor_spec(t, r, new_pos, extend))
    }
}

/// The row remembered by `move_vertically`: the one already remembered, else 0.
pub open spec fn aimed_row(r: Range) -> u32 {
    match r.old_visual_position {
        Some(p) => p.row,
        None => 0,
    }
}

/// Moves the cursor `count` lines in `dir`, aiming at the remembered column
/// (or the cursor's display column), clamped to the target line's end; the
/// aimed row and column are remembered in the result. An extending move onto
/// the empty last line leaves the range unchanged.
pub fn move_vertically(
    slice: &[char],
    range: Range,
    dir: Direction,
    count: usize,
    behaviour: Movement,
    text_fmt: &TextFormat,
) -> (r: Range)
    requires
        range_in(range, slice@.len() as int),
        text_fmt.tab_width > 0,
        visual_coords_spec(slice@, cursor_spec(slice@, range), text_fmt.tab_width as int).1 <= usize::MAX,
    ensures
        match move_vertically_spec(slice@, range, dir, count as nat, behaviour == Movement::Extend, text_fmt.tab_width as int) {
            None => r == range,
            Some(p) => (r.anchor as int, r.head as int) == p && r.old_visual_position == Some(VisualPosition { row: aimed_row(range), col: aimed_column(slice@, range, text_fmt.tab_width as int) }),
        },
        range_in(r, slice@.len() as int),
{
    let tab_width = text_fmt.tab_width as usize;
    let pos = range.cursor(slice);
    let line_idx = char_to_line(slice, pos);

    // Compute the current position's 2d coordinates.
    let visual_pos = visual_coords_at_pos(slice, pos, tab_width);
    let (new_row, new_col) = match range.old_visual_position {
        Some(p) => (p.row, p.col),
        None => (0u32, visual_pos.col as u32),
    };

    // Compute the new position.
    let last = last_line_idx(slice);
    let new_line_idx = match dir {
        Direction::Forward => if count <= last - line_idx { line_idx + count } else { last },
        Direction::Backward => if line_idx >= count { line_idx - count } else { 0 },
    };
    let new_pos = pos_at_visual_coords(slice, Position::new(new_line_idx, new_col as usize), tab_width);

    // Special-case to avoid moving to the end of the last non-empty line.
    let (line_start, line_end) = line_bounds(slice, new_line_idx);
    if behaviour == Movement::Extend && line_start == line_end {
        return range;
    }

    let mut new_range = range.put_cursor(slice, new_pos, behaviour == Movement::Extend);
    new_range.old_visual_position = Some(VisualPosition { row: new_row, col: new_col });
    new_range
}

/// Moves the cursor `count` visual rows in `dir` (one row per line), aiming
/// at the remembered column (or the cursor's display column); the aimed
/// column is remembered in the result with row 0. An extending move onto the
/// empty last line leaves the range unchanged.
pub fn move_vertically_visual(
    slice: &[char],
    range: Range,
    dir: Direction,
    count: usize,
    behaviour: Movement,
    text_fmt: &TextFormat,
) -> (r: Range)
    requires
        range_in(range, slice@.len() as int),
        text_fmt.tab_width > 0,
        visual_coords_spec(slice@, cursor_spec(slice@, range), text_fmt.tab_width as int).1 <= usize::MAX,
    ensures
        match move_vertically_spec(slice@, range, dir, count as nat, behaviour == Movement::Extend, text_fmt.tab_width as int) {
            None => r == range,
            Some(p) => (r.anchor as int, r.head as int) == p && r.old_visual_position == Some(VisualPosition { row: 0, col: aimed_column(slice@, range, text_fmt.tab_width as int) }),
        },
        range_in(r, slice@.len() as int),
{
    let r = move_vertically(slice, range, dir, count, behaviour, text_fmt);
    if r == range && behaviour == Movement::Extend {
        let tab_width = text_fmt.tab_width as usize;
        let pos = range.cursor(slice);
        let line_idx = char_to_line(slice, pos);
        let last = last_line_idx(slice);
        let new_line_idx = match dir {
            Direction::Forward => if count <= last - line_idx { line_idx + count } else { last },
            Direction::Backward => if line_idx >= count { line_idx - count } else { 0 },
        };
        let (line_start, line_end) = line_bounds(slice, new_line_idx);
        if line_start == line_end {
            return range;
        }
    }
    let mut new_range = r;
    let new_col = match range.old_visual_position {
        Some(p) => p.col,
        None => visual_coords_at_pos(slice, range.cursor(slice), text_fmt.tab_width as usize).col as u32,
    };
    new_range.old_visual_position = Some(VisualPosition { row: 0, col: new_col });
    new_range
}

/// Possible targets of a word motion
#[derive(Copy, Clone, Debug, PartialEq, Eq, Structural)]
pub enum WordMotionTarget {
    NextWordStart,
    NextWordEnd,
    PrevWordStart,
    PrevWordEnd,
    // A "Long word" (also known as a WORD in Vim/Kakoune) is strictly
    // delimited by whitespace, and can consist of punctuation as well
    // as alphanumerics.
    NextLongWordStart,
    NextLongWordEnd,
    PrevLongWordStart,
}

/// Whether `target` moves backward.
pub open spec fn is_prev_target(target: WordMotionTarget) -> bool {
    target == WordMotionTarget::PrevWordStart || target == WordMotionTarget::PrevLongWordStart
        || target == WordMotionTarget::PrevWordEnd
}

/// A word boundary separates chars of different categories.
pub open spec fn word_boundary(a: char, b: char) -> bool {
    category_of(a) != category_of(b)
}

/// A long word boundary separates chars of different categories, except word
/// chars and punctuation, which belong to the same long word.
pub open spec fn long_word_boundary(a: char, b: char) -> bool {
    let (x, y) = (category_of(a), category_of(b));
    if (x == CharCategory::Word && y == CharCategory::Punctuation) || (x
        == CharCategory::Punctuation && y == CharCategory::Word) {
        false
    } else {
        x != y
    }
}

/// Whether a motion towards `target` stops between `prev_ch` and `next_ch`
/// (in the order the motion meets them).
pub open spec fn reached_target_spec(target: WordMotionTarget, prev_ch: char, next_ch: char) -> bool {
    match target {
        WordMotionTarget::NextWordStart | WordMotionTarget::PrevWordEnd => word_boundary(
            prev_ch,
            next_ch,
        ) && (is_eol(next_ch) || !unicode_white_space(next_ch)),
        WordMotionTarget::NextWordEnd | WordMotionTarget::PrevWordStart => word_boundary(
            prev_ch,
            next_ch,
        ) && (!unicode_white_space(prev_ch) || is_eol(next_ch)),
        WordMotionTarget::NextLongWordStart => long_word_boundary(prev_ch, next_ch) && (is_eol(
            next_ch,
        ) || !unicode_white_space(next_ch)),
        WordMotionTarget::NextLongWordEnd | WordMotionTarget::PrevLongWordStart =>
            long_word_boundary(prev_ch, next_ch) && (!unicode_white_space(prev_ch) || is_eol(
            next_ch,
        )),
    }
}

/// First index at or after `p` that is not a line feed.
pub open spec fn fwd_skip_eol(t: Seq<char>, p: int) -> int
    decreases t.len() - p,
{
    if 0 <= p < t.len() && t[p] == '\n' {
        fwd_skip_eol(t, p + 1)
    } else {
        p
    }
}

/// Going back from `p`, the first index whose preceding char is not a line feed.
pub open spec fn back_skip_eol(t: Seq<char>, p: int) -> int
    decreases p,
{
    if 0 < p <= t.len() && t[p - 1] == '\n' {
        back_skip_eol(t, p - 1)
    } else {
        p
    }
}

/// A forward motion stops at `h` (with `h < t.len()`): at the start of the
/// text, or where the target is reached between `t[h - 1]` and `t[h]`.
pub open spec fn fwd_stop(t: Seq<char>, target: WordMotionTarget, h: int) -> bool {
    h == 0 || reached_target_spec(target, t[h - 1], t[h])
}

/// A backward motion stops at `h` (with `h > 0`): at the end of the text, or
/// where the target is reached between `t[h]` and `t[h - 1]`.
pub open spec fn bwd_stop(t: Seq<char>, target: WordMotionTarget, h: int) -> bool {
    h == t.len() || reached_target_spec(target, t[h], t[h - 1])
}

/// The first forward stop at or after `h`, or the end of the text.
pub open spec fn first_fwd_stop(t: Seq<char>, target: WordMotionTarget, h: int) -> int
    decreases t.len() - h,
{
    if h >= t.len() {
        t.len() as int
    } else if fwd_stop(t, target, h) {
        h
    } else {
        first_fwd_stop(t, target, h + 1)
    }
}

/// The first backward stop at or before `h`, or the start of the text.
pub open spec fn first_bwd_stop(t: Seq<char>, target: WordMotionTarget, h: int) -> int
    decreases h,
{
    if h <= 0 {
        0
    } else if bwd_stop(t, target, h) {
        h
    } else {
        first_bwd_stop(t, target, h - 1)
    }
}

/// One word motion from `origin` towards `target`: line feeds next to the head
/// are skipped first; the head then moves to the next stop, and the anchor
/// moves to where the head started when the head started on a stop or just
/// past a line feed.
pub open spec fn range_to_target_spec(t: Seq<char>, target: WordMotionTarget, origin: Range) -> (int, int) {
    if !is_prev_target(target) {
        let hs = fwd_skip_eol(t, origin.head as int);
        let a1 = if hs > 0 && t[hs - 1] == '\n' { hs } else { origin.anchor as int };
        let a2 = if hs < t.len() && fwd_stop(t, target, hs) { hs } else { a1 };
        (a2, first_fwd_stop(t, target, hs + 1))
    } else {
        let hs = back_skip_eol(t, origin.head as int);
        let a1 = if hs < t.len() && t[hs] == '\n' { hs } else { origin.anchor as int };
        let a2 = if hs > 0 && bwd_stop(t, target, hs) { hs } else { a1 };
        (a2, first_bwd_stop(t, target, hs - 1))
    }
}

/// `n` word motions, stopping once a motion leaves the range unchanged.
pub open spec fn repeat_target_spec(t: Seq<char>, target: WordMotionTarget, r: Range, n: nat) -> Range
    decreases n,
{
    if n == 0 {
        r
    } else {
        let p = range_to_target_spec(t, target, r);
        let next = Range { anchor: p.0 as usize, head: p.1 as usize, old_visual_position: None };
        if next == r {
            r
        } else {
            repeat_target_spec(t, target, next, (n - 1) as nat)
        }
    }
}

/// The range a word motion starts from: the grapheme under the cursor,
/// oriented in the direction of the motion.
pub open spec fn word_start_range(t: Seq<char>, r: Range, is_prev: bool) -> Range {
    let (a, h) = if is_prev {
        if r.anchor < r.head {
            (r.head as int, prev_grapheme_boundary_spec(t, r.head as int))
        } else {
            (next_grapheme_boundary_spec(t, r.head as int), r.head as int)
        }
    } else {
        if r.anchor < r.head {
            (prev_grapheme_boundary_spec(t, r.head as int), r.head as int)
        } else {
            (r.head as int, next_grapheme_boundary_spec(t, r.head as int))
        }
    };
    Range { anchor: a as usize, head: h as usize, old_visual_position: None }
}

/// The range that `count` word motions towards `target` give.
pub open spec fn word_move_spec(t: Seq<char>, r: Range, count: nat, target: WordMotionTarget) -> Range {
    let is_prev = is_prev_target(target);
    if (is_prev && r.head == 0) || (!is_prev && r.head == t.len()) {
        r
    } else {
        repeat_target_spec(t, target, word_start_range(t, r, is_prev), count)
    }
}

/// The anchor that a range had before a word motion matters only by its side
/// of the head: from two ranges with the same head, whose anchors stand on
/// the same side of it, a word motion (forward from before the end of the
/// text, backward from after its start) gives the same range.
pub proof fn lemma_anchor_irrelevant(t: Seq<char>, r1: Range, r2: Range, count: nat, target: WordMotionTarget)
    requires
        r1.head == r2.head,
        (r1.anchor < r1.head) == (r2.anchor < r2.head),
        if is_prev_target(target) { r1.head > 0 } else { r1.head < t.len() },
    ensures
        word_move_spec(t, r1, count, target) == word_move_spec(t, r2, count, target),
{
    assert(word_start_range(t, r1, is_prev_target(target)) == word_start_range(t, r2, is_prev_target(target)));
}

/// A motion that cannot advance leaves the range as it is: a forward word
/// motion from the end of the text, or a backward one from its start, gives
/// the range it started from, whatever the count.
pub proof fn lemma_no_move_at_edge(t: Seq<char>, r: Range, count: nat, target: WordMotionTarget)
    requires
        if is_prev_target(target) { r.head == 0 } else { r.head == t.len() },
    ensures
        word_move_spec(t, r, count, target) == r,
{
}

proof fn lemma_fwd_skip(t: Seq<char>, p: int)
    requires
        0 <= p <= t.len(),
    ensures
        p <= fwd_skip_eol(t, p) <= t.len(),
    decreases t.len() - p,
{
    if p < t.len() && t[p] == '\n' {
        lemma_fwd_skip(t, p + 1);
    }
}

proof fn lemma_back_skip(t: Seq<char>, p: int)
    requires
        0 <= p <= t.len(),
    ensures
        0 <= back_skip_eol(t, p) <= p,
    decreases p,
{
    if 0 < p && t[p - 1] == '\n' {
        lemma_back_skip(t, p - 1);
    }
}

proof fn lemma_first_fwd(t: Seq<char>, target: WordMotionTarget, h: int)
    requires
        0 <= h,
    ensures
        0 <= first_fwd_stop(t, target, h) <= t.len(),
        h <= t.len() ==> h <= first_fwd_stop(t, target, h),
    decreases t.len() - h,
{
    if h < t.len() && !fwd_stop(t, target, h) {
        lemma_first_fwd(t, target, h + 1);
    }
}

proof fn lemma_first_bwd(t: Seq<char>, target: WordMotionTarget, h: int)
    requires
        h <= t.len(),
    ensures
        0 <= first_bwd_stop(t, target, h),
        first_bwd_stop(t, target, h) <= if h < 0 { 0 } else { h },
    decreases h,
{
    if h > 0 && !bwd_stop(t, target, h) {
        lemma_first_bwd(t, target, h - 1);
    }
}

/// Whether a motion towards `target` stops between `prev_ch` and `next_ch`.
pub fn reached_target(target: WordMotionTarget, prev_ch: char, next_ch: char) -> (b: bool)
    ensures
        b == reached_target_spec(target, prev_ch, next_ch),
{
    match target {
        WordMotionTarget::NextWordStart | WordMotionTarget::PrevWordEnd => {
            is_word_boundary(prev_ch, next_ch) && (next_ch == '\n' || !char_has_white_space(
                next_ch,
            ))
        },
        WordMotionTarget::NextWordEnd | WordMotionTarget::PrevWordStart => {
            is_word_boundary(prev_ch, next_ch) && (!char_has_white_space(prev_ch) || next_ch
                == '\n')
        },
        WordMotionTarget::NextLongWordStart => {
            is_long_word_boundary(prev_ch, next_ch) && (next_ch == '\n' || !char_has_white_space(
                next_ch,
            ))
        },
        WordMotionTarget::NextLongWordEnd | WordMotionTarget::PrevLongWordStart => {
            is_long_word_boundary(prev_ch, next_ch) && (!char_has_white_space(prev_ch) || next_ch
                == '\n')
        },
    }
}

/// Whether `a` and `b` lie in different categories.
pub fn is_word_boundary(a: char, b: char) -> (r: bool)
    ensures
        r == word_boundary(a, b),
{
    categorize_char(a) != categorize_char(b)
}

/// Whether `a` and `b` lie in different long words.
pub fn is_long_word_boundary(a: char, b: char) -> (r: bool)
    ensures
        r == long_word_boundary(a, b),
{
    match (categorize_char(a), categorize_char(b)) {
        (CharCategory::Word, CharCategory::Punctuation)
        | (CharCategory::Punctuation, CharCategory::Word) => false,
        (x, y) => x != y,
    }
}

/// The first forward stop after `head_start`, or the end of the text.
fn find_fwd_stop(text: &[char], target: WordMotionTarget, head_start: usize) -> (h: usize)
    requires
        head_start <= text@.len(),
    ensures
        h == first_fwd_stop(text@, target, head_start + 1),
        head_start <= h <= text@.len(),
{
    let len = text.len();
    if head_start == len {
        return len;
    }
    let mut head = head_start + 1;
    while head < len
        invariant
            head_start < head <= len == text@.len(),
            first_fwd_stop(text@, target, head_start + 1) == first_fwd_stop(text@, target, head as int),
        decreases len - head,
    {
        if reached_target(target, text[head - 1], text[head]) {
            return head;
        }
        head = head + 1;
    }
    head
}

/// The first backward stop before `head_start`, or the start of the text.
fn find_bwd_stop(text: &[char], target: WordMotionTarget, head_start: usize) -> (h: usize)
    requires
        head_start <= text@.len(),
    ensures
        h == first_bwd_stop(text@, target, head_start - 1),
        h <= head_start,
{
    if head_start == 0 {
        return 0;
    }
    let mut head = head_start - 1;
    while head > 0
        invariant
            head < head_start <= text@.len(),
            first_bwd_stop(text@, target, head_start - 1) == first_bwd_stop(text@, target, head as int),
        decreases head,
    {
        if reached_target(target, text[head], text[head - 1]) {
            return head;
        }
        head = head - 1;
    }
    head
}

/// Word motions over a text read char by char.
pub trait CharHelpers {
    /// The text the chars come from.
    spec fn text_of(&self) -> Seq<char>;

    /// One word motion from `origin` towards `target` in the text (see
    /// `range_to_target_spec`).
    fn range_to_target(&mut self, target: WordMotionTarget, origin: Range) -> (r: Range)
        requires
            range_in(origin, old(self).text_of().len() as int),
        ensures
            (r.anchor as int, r.head as int) == range_to_target_spec(old(self).text_of(), target, origin),
            r.old_visual_position.is_none(),
            range_in(r, old(self).text_of().len() as int),
    ;
}

/// The chars of a text.
pub struct Chars<'a> {
    pub text: &'a [char],
}

impl<'a> CharHelpers for Chars<'a> {
    open spec fn text_of(&self) -> Seq<char> {
        self.text@
    }

    fn range_to_target(&mut self, target: WordMotionTarget, origin: Range) -> (r: Range) {
        range_to_target(self.text, target, origin)
    }
}

/// One word motion from `origin` towards `target` (see `range_to_target_spec`).
/// This only changes the anchor of the range if the head is effectively
/// starting on a boundary (either directly or after skipping newline characters).
pub fn range_to_target(text: &[char], target: WordMotionTarget, origin: Range) -> (r: Range)
    requires
        range_in(origin, text@.len() as int),
    ensures
        (r.anchor as int, r.head as int) == range_to_target_spec(text@, target, origin),
        r.old_visual_position.is_none(),
        range_in(r, text@.len() as int),
{
    let len = text.len();
    let is_prev = matches!(
        target,
        WordMotionTarget::PrevWordStart | WordMotionTarget::PrevLongWordStart
            | WordMotionTarget::PrevWordEnd
    );
    let mut anchor = origin.anchor;
    let mut head = origin.head;
    if !is_prev {
        // Skip any initial newline characters.
        while head < len && text[head] == '\n'
            invariant
                origin.head <= head <= len == text@.len(),
                fwd_skip_eol(text@, origin.head as int) == fwd_skip_eol(text@, head as int),
            decreases len - head,
        {
            head = head + 1;
        }
        if head > 0 && text[head - 1] == '\n' {
            anchor = head;
        }
        let head_start = head;
        if head < len && (head == 0 || reached_target(target, text[head - 1], text[head])) {
            anchor = head;
        }
        // Find our target position.
        head = find_fwd_stop(text, target, head);
        proof {
            lemma_fwd_skip(text@, origin.head as int);
        }
    } else {
        // Skip any initial newline characters.
        while head > 0 && text[head - 1] == '\n'
            invariant
                head <= origin.head <= len == text@.len(),
                back_skip_eol(text@, origin.head as int) == back_skip_eol(text@, head as int),
            decreases head,
        {
            head = head - 1;
        }
        if head < len && text[head] == '\n' {
            anchor = head;
        }
        let head_start = head;
        if head > 0 && (head == len || reached_target(target, text[head], text[head - 1])) {
            anchor = head;
        }
        // Find our target position.
        head = find_bwd_stop(text, target, head);
        proof {
            lemma_back_skip(text@, origin.head as int);
        }
    }
    Range::new(anchor, head)
}

/// `count` word motions from `range` towards `target`, started from the
/// grapheme under the cursor; the motion stops early once it no longer moves.
fn word_move(text: &[char], range: Range, count: usize, target: WordMotionTarget) -> (r: Range)
    requires
        range_in(range, text@.len() as int),
    ensures
        r == word_move_spec(text@, range, count as nat, target),
        range_in(r, text@.len() as int),
{
    let is_prev = matches!(
        target,
        WordMotionTarget::PrevWordStart | WordMotionTarget::PrevLongWordStart
            | WordMotionTarget::PrevWordEnd
    );

    // Special-case early-out.
    if (is_prev && range.head == 0) || (!is_prev && range.head == text.len()) {
        return range;
    }

    // Prepare the range appropriately based on the target movement direction:
    // block-cursor semantics, and the anchor position being irrelevant to the
    // output result.
    let start_range = if is_prev {
        if range.anchor < range.head {
            Range::new(range.head, prev_grapheme_boundary(text, range.head))
        } else {
            Range::new(next_grapheme_boundary(text, range.head), range.head)
        }
    } else {
        if range.anchor < range.head {
            Range::new(prev_grapheme_boundary(text, range.head), range.head)
        } else {
            Range::new(range.head, next_grapheme_boundary(text, range.head))
        }
    };

    // Do the main work.
    let ghost spec_result = word_move_spec(text@, range, count as nat, target);
    assert(spec_result == repeat_target_spec(text@, target, start_range, count as nat));
    let mut cur = start_range;
    let mut i: usize = 0;
    while i < count
        invariant
            i <= count,
            range_in(cur, text@.len() as int),
            spec_result == repeat_target_spec(text@, target, cur, (count - i) as nat),
            spec_result == word_move_spec(text@, range, count as nat, target),
        decreases count - i,
    {
        let next_range = range_to_target(text, target, cur);
        proof {
            let p = range_to_target_spec(text@, target, cur);
            assert(next_range == Range {
                anchor: p.0 as usize,
                head: p.1 as usize,
                old_visual_position: None,
            });
        }
        if cur == next_range {
            proof {
                assert(repeat_target_spec(text@, target, cur, (count - i) as nat) == cur);
            }
            return cur;
        }
        cur = next_range;
        i = i + 1;
    }
    cur
}

pub fn move_next_word_start(slice: &[char], range: Range, count: usize) -> (r: Range)
    requires
        range_in(range, slice@.len() as int),
    ensures
        r == word_move_spec(slice@, range, count as nat, WordMotionTarget::NextWordStart),
        range_in(r, slice@.len() as int),
{
    word_move(slice, range, count, WordMotionTarget::NextWordStart)
}

pub fn move_next_word_end(slice: &[char], range: Range, count: usize) -> (r: Range)
    requires
        range_in(range, slice@.len() as int),
    ensures
        r == word_move_spec(slice@, range, count as nat, WordMotionTarget::NextWordEnd),
        range_in(r, slice@.len() as int),
{
    word_move(slice, range, count, WordMotionTarget::NextWordEnd)
}

pub fn move_prev_word_start(slice: &[char], range: Range, count: usize) -> (r: Range)
    requires
        range_in(range, slice@.len() as int),
    ensures
        r == word_move_spec(slice@, range, count as nat, WordMotionTarget::PrevWordStart),
        range_in(r, slice@.len() as int),
{
    word_move(slice, range, count, WordMotionTarget::PrevWordStart)
}

pub fn move_next_long_word_start(slice: &[char], range: Range, count: usize) -> (r: Range)
    requires
        range_in(range, slice@.len() as int),
    ensures
        r == word_move_spec(slice@, range, count as nat, WordMotionTarget::NextLongWordStart),
        range_in(r, slice@.len() as int),
{
    word_move(slice, range, count, WordMotionTarget::NextLongWordStart)
}

pub fn move_next_long_word_end(slice: &[char], range: Range, count: usize) -> (r: Range)
    requires
        range_in(range, slice@.len() as int),
    ensures
        r == word_move_spec(slice@, range, count as nat, WordMotionTarget::NextLongWordEnd),
        range_in(r, slice@.len() as int),
{
    word_move(slice, range, count, WordMotionTarget::NextLongWordEnd)
}

pub fn move_prev_long_word_start(slice: &[char], range: Range, count: usize) -> (r: Range)
    requires
        range_in(range, slice@.len() as int),
    ensures
        r == word_move_spec(slice@, range, count as nat, WordMotionTarget::PrevLongWordStart),
        range_in(r, slice@.len() as int),
{
    word_move(slice, range, count, WordMotionTarget::PrevLongWordStart)
}

pub fn move_prev_word_end(slice: &[char], range: Range, count: usize) -> (r: Range)
    requires
        range_in(range, slice@.len() as int),
    ensures
        r == word_move_spec(slice@, range, count as nat, WordMotionTarget::PrevWordEnd),
        range_in(r, slice@.len() as int),
{
    word_move(slice, range, count, WordMotionTarget::PrevWordEnd)
}

/// The range `move_prev_paragraph` gives: its anchor and head.
pub open spec fn move_prev_paragraph_spec(t: Seq<char>, r: Range, extend: bool) -> (int, int) {
    let c = cursor_spec(t, r);
    let n0 = line_of(t, c);
    let on_first_char = line_start(t, n0) == c;
    let prev_line_empty = line_is_blank(t, if n0 > 0 { n0 - 1 } else { 0 });
    let curr_line_empty = line_is_blank(t, n0);
    let prev_empty_to_line = prev_line_empty && !curr_line_empty;
    let n1 = if prev_empty_to_line && !on_first_char { n0 + 1 } else { n0 };
    let n2 = scan_back(t, scan_back(t, n1, true), false);
    let head = line_start(t, n2);
    let anchor = if !extend {
        if prev_empty_to_line && on_first_char { c } else { r.head as int }
    } else {
        put_cursor_spec(t, r, head, true).0
    };
    (anchor, head)
}

/// The range `move_next_paragraph` gives: its anchor and head.
pub open spec fn move_next_paragraph_spec(t: Seq<char>, r: Range, extend: bool) -> (int, int) {
    let c = cursor_spec(t, r);
    let n0 = line_of(t, c);
    let on_last_char = prev_grapheme_boundary_spec(t, line_end(t, n0)) == c;
    let curr_line_empty = line_is_blank(t, n0);
    let next_line_empty = line_is_blank(
        t,
        if n0 + 1 < len_lines(t) { n0 + 1 } else { len_lines(t) - 1 },
    );
    let curr_empty_to_line = curr_line_empty && !next_line_empty;
    let n1 = if curr_empty_to_line && on_last_char { n0 + 1 } else { n0 };
    let n2 = scan_fwd(t, scan_fwd(t, n1, false), true);
    let head = line_start(t, n2);
    let anchor = if !extend {
        if curr_empty_to_line && on_last_char { r.head as int } else { c }
    } else {
        put_cursor_spec(t, r, head, true).0
    };
    (anchor, head)
}

/// Moves the head to the start of the paragraph before the cursor: back over
/// blank lines, then back over the lines of the paragraph. Unless extending,
/// the anchor is left on the old head (on the cursor when the cursor starts
/// the first line after a blank line).
pub fn move_prev_paragraph(range: Range, rule_cx: &RuleContext) -> (r: Range)
    requires
        range_in(range, rule_cx.text@.len() as int),
    ensures
        (r.anchor as int, r.head as int) == move_prev_paragraph_spec(
            rule_cx.text@,
            range,
            rule_cx.extend,
        ),
        r.old_visual_position.is_none(),
        range_in(r, rule_cx.text@.len() as int),
{
    let text = rule_cx.text;
    let cursor = range.cursor(text);
    let mut curr_line_nr = char_to_line(text, cursor);
    let on_first_char = line_to_char(text, curr_line_nr) == cursor;
    let prev_line_nr = if curr_line_nr > 0 { curr_line_nr - 1 } else { 0 };
    let prev_line_empty = is_line_blank(text, prev_line_nr);
    let curr_line_empty = is_line_blank(text, curr_line_nr);
    let prev_empty_to_line = prev_line_empty && !curr_line_empty;

    // skip character before paragraph boundary
    if prev_empty_to_line && !on_first_char {
        proof {
            lemma_line_start_ge(text@, curr_line_nr as int);
        }
        curr_line_nr = curr_line_nr + 1;
    }
    let after_blank = scan_lines_back(text, curr_line_nr, true);
    let curr_line_nr = scan_lines_back(text, after_blank, false);

    let head = line_to_char(text, curr_line_nr);
    let anchor = if !rule_cx.extend {
        // exclude first character after paragraph boundary
        if prev_empty_to_line && on_first_char {
            cursor
        } else {
            range.head
        }
    } else {
        range.put_cursor(text, head, true).anchor
    };
    Range::new(anchor, head)
}

/// Moves the head past the end of the paragraph at the cursor: forward over
/// its lines, then over the blank lines after it. Unless extending, the
/// anchor is left on the cursor (on the old head when the cursor ends a blank
/// line before a paragraph).
pub fn move_next_paragraph(range: Range, rule_cx: &RuleContext) -> (r: Range)
    requires
        range_in(range, rule_cx.text@.len() as int),
    ensures
        (r.anchor as int, r.head as int) == move_next_paragraph_spec(
            rule_cx.text@,
            range,
            rule_cx.extend,
        ),
        r.old_visual_position.is_none(),
        range_in(r, rule_cx.text@.len() as int),
{
    let text = rule_cx.text;
    let cursor = range.cursor(text);
    let mut curr_line_nr = char_to_line(text, cursor);
    let last = last_line_idx(text);
    let (_, line_end_pos) = line_bounds(text, curr_line_nr);
    let on_last_char = prev_grapheme_boundary(text, line_end_pos) == cursor;
    let curr_line_empty = is_line_blank(text, curr_line_nr);
    let next_line_nr = if curr_line_nr < last { curr_line_nr + 1 } else { last };
    let next_line_empty = is_line_blank(text, next_line_nr);
    let curr_empty_to_line = curr_line_empty && !next_line_empty;

    // skip character after paragraph boundary
    if curr_empty_to_line && on_last_char {
        curr_line_nr = curr_line_nr + 1;
    }
    let head = scan_paragraph_end(text, curr_line_nr);
    let anchor = if !rule_cx.extend {
        if curr_empty_to_line && on_last_char {
            range.head
        } else {
            cursor
        }
    } else {
        range.put_cursor(text, head, true).anchor
    };
    Range::new(anchor, head)
}

/// From line `l`: the start of the line after the non-blank lines from `l`
/// and the blank lines that follow them (the end of the text if none follows).
pub fn scan_paragraph_end(text: &[char], l: usize) -> (p: usize)
    requires
        l < len_lines(text@),
    ensures
        p == line_start(text@, scan_fwd(text@, scan_fwd(text@, l as int, false), true)),
        p <= text@.len(),
{
    let last = last_line_idx(text);
    let mut k = l;
    proof {
        lemma_scan_fwd_bounds(text@, l as int, false);
    }
    loop
        invariant
            k <= last,
            last + 1 == len_lines(text@),
            scan_fwd(text@, l as int, false) == scan_fwd(text@, k as int, false),
        decreases last - k,
    {
        if is_line_blank(text, k) {
            return scan_lines_fwd_start(text, k, true);
        }
        if k == last {
            proof {
                assert(scan_fwd(text@, (k + 1) as int, false) == k + 1);
                assert(scan_fwd(text@, (k + 1) as int, true) == k + 1);
            }
            return text.len();
        }
        k = k + 1;
    }
}

proof fn lemma_scan_fwd_bounds(t: Seq<char>, l: int, blank: bool)
    requires
        0 <= l <= len_lines(t),
    ensures
        l <= scan_fwd(t, l, blank) <= len_lines(t),
    decreases len_lines(t) - l,
{
    if l < len_lines(t) && line_is_blank(t, l) == blank {
        lemma_scan_fwd_bounds(t, l + 1, blank);
    }
}

/// The first index from `pos` on whose char does not satisfy `fun`, if any.
pub fn skip_while<F>(slice: &[char], pos: usize, fun: F) -> (r: Option<usize>)
    where
        F: Fn(char) -> bool,
    requires
        pos <= slice@.len(),
        forall|c: char| fun.requires((c,)),
    ensures
        match r {
            Some(i) => pos <= i < slice@.len() && fun.ensures((slice@[i as int],), false) && forall|j: int|
                pos <= j < i ==> fun.ensures((#[trigger] slice@[j],), true),
            None => forall|j: int| pos <= j < slice@.len() ==> fun.ensures((#[trigger] slice@[j],), true),
        },
{
    let mut i = pos;
    while i < slice.len()
        invariant
            pos <= i <= slice@.len(),
            forall|c: char| fun.requires((c,)),
            forall|j: int| pos <= j < i ==> fun.ensures((#[trigger] slice@[j],), true),
        decreases slice.len() - i,
    {
        if !fun(slice[i]) {
            return Some(i);
        }
        i = i + 1;
    }
    None
}

/// Going back from `pos`: the index of the first char before `pos` that does
/// not satisfy `fun`, if any.
pub fn backwards_skip_while<F>(slice: &[char], pos: usize, fun: F) -> (r: Option<usize>)
    where
        F: Fn(char) -> bool,
    requires
        pos <= slice@.len(),
        forall|c: char| fun.requires((c,)),
    ensures
        match r {
            Some(k) => k < pos && fun.ensures((slice@[k as int],), false) && forall|j: int|
                k < j < pos ==> fun.ensures((#[trigger] slice@[j],), true),
            None => forall|j: int| 0 <= j < pos ==> fun.ensures((#[trigger] slice@[j],), true),
        },
{
    let mut k = pos;
    while k > 0
        invariant
            k <= pos <= slice@.len(),
            forall|c: char| fun.requires((c,)),
            forall|j: int| k <= j < pos ==> fun.ensures((#[trigger] slice@[j],), true),
        decreases k,
    {
        if !fun(slice[k - 1]) {
            return Some(k - 1);
        }
        k = k - 1;
    }
    None
}

} // verus!
