//! Text objects: the word, paragraph or pair around the cursor.

use crate::chars::{categorize_char, category_of, char_is_whitespace, is_blank_char, CharCategory};
use crate::movement::{scan_paragraph_end, Direction};
use crate::selection::{cursor_spec, range_in, Range, RuleContext};
use crate::text::{
    char_to_line, is_line_blank, len_lines, line_is_blank, line_of, line_start, line_to_char,
    scan_back, scan_fwd, scan_lines_back, scan_lines_fwd_start,
};
use crate::command::chars_of;
use crate::strings::string_from_chars;
use vstd::prelude::*;

verus! {

#[derive(Copy, Clone, PartialEq, Eq, Debug, Structural)]
pub enum TextObject {
    Around,
    Inside,
    /// Used for moving between objects.
    Movement,
}

impl TextObject {
    /// The object's kind as text: `around`, `inside` or `movement`.
    pub fn to_string(&self) -> (s: String)
        ensures
            s@ == match *self {
                TextObject::Around => "around"@,
                TextObject::Inside => "inside"@,
                TextObject::Movement => "movement"@,
            },
    {
        let name = match *self {
            TextObject::Around => "around",
            TextObject::Inside => "inside",
            TextObject::Movement => "movement",
        };
        let v = chars_of(name);
        string_from_chars(v.as_slice())
    }
}

/// The line the paragraph object is looked for from: the cursor's line, or,
/// on a blank line, the first blank line of its run.
pub open spec fn paragraph_line(t: Seq<char>, r: Range) -> int {
    let n0 = line_of(t, cursor_spec(t, r));
    if line_is_blank(t, n0) {
        scan_back(t, n0, true)
    } else {
        n0
    }
}

/// The range `paragraph` selects: from the first line of the paragraph to the
/// end of its last line; `Around` also takes the blank lines after it.
pub open spec fn paragraph_spec(t: Seq<char>, r: Range, textobject: TextObject) -> (int, int) {
    let curr = paragraph_line(t, r);
    let top = scan_back(t, curr, false);
    let bottom = scan_fwd(t, curr, false);
    let bottom = if textobject == TextObject::Around {
        scan_fwd(t, bottom, true)
    } else {
        bottom
    };
    (line_start(t, top), line_start(t, bottom))
}

/// Selects the paragraph around the cursor.
///
/// A cursor on a blank line takes the paragraph above the run of blank lines
/// it is in. `Inside` selects the lines of the paragraph; `Around` adds the
/// blank lines after them.
pub fn paragraph(range: Range, rule_cx: &RuleContext) -> (r: Range)
    requires
        range_in(range, rule_cx.text@.len() as int),
        rule_cx.ts_textobject.is_some(),
    ensures
        (r.anchor as int, r.head as int) == paragraph_spec(
            rule_cx.text@,
            range,
            rule_cx.ts_textobject.unwrap(),
        ),
        r.old_visual_position.is_none(),
        range_in(r, rule_cx.text@.len() as int),
{
    let text = rule_cx.text;
    let mut curr_line_nr = range.cursor_line(text);

    // Finding the paragraph/starting line:
    // Move upwards until first non-newline ending is found, or when top of document is reached.
    if is_line_blank(text, curr_line_nr) {
        curr_line_nr = scan_lines_back(text, curr_line_nr, true);
    }

    // Select to top of paragraph:
    // Increment top_line until a new line is found. (Never select newlines above paragraph.)
    let top_line_nr = scan_lines_back(text, curr_line_nr, false);

    // Selecting to bottom of paragraph, and with `Around` the blank lines after it.
    let head = match rule_cx.ts_textobject {
        Some(TextObject::Around) => scan_paragraph_end(text, curr_line_nr),
        _ => scan_lines_fwd_start(text, curr_line_nr, false),
    };
    let anchor = line_to_char(text, top_line_nr);
    Range::new(anchor, head)
}

/// From char index `p` down: the first index whose char is not a blank (`-1`
/// where all of them are).
pub open spec fn back_over_blanks(t: Seq<char>, p: int) -> int
    decreases p + 1,
{
    if p >= 0 && p < t.len() && is_blank_char(t[p]) {
        back_over_blanks(t, p - 1)
    } else {
        p
    }
}

/// Whether a char of category `c` ends a word scan: a line ending or whitespace.
pub open spec fn stops_scan(c: CharCategory) -> bool {
    c == CharCategory::Eol || c == CharCategory::Whitespace
}

/// From index `e`, whose left neighbour has category `prev`: the index the
/// word ends at, scanning right until whitespace, a line ending, the end of
/// the text or (unless `long`) a change of category.
pub open spec fn word_end_from(t: Seq<char>, e: int, prev: CharCategory, long: bool) -> int
    decreases t.len() - e,
{
    if e < 0 || e >= t.len() {
        e
    } else {
        let c = category_of(t[e]);
        if stops_scan(c) || (c != prev && !long) {
            e
        } else {
            word_end_from(t, e + 1, c, long)
        }
    }
}

/// From index `s`, whose char has category `prev`: the index the word starts
/// at, scanning left until whitespace, a line ending, the start of the text
/// or (unless `long`) a change of category.
pub open spec fn word_start_from(t: Seq<char>, s: int, prev: CharCategory, long: bool) -> int
    decreases s,
{
    if s <= 0 || s > t.len() {
        s
    } else {
        let c = category_of(t[s - 1]);
        if stops_scan(c) || (c != prev && !long) {
            s
        } else {
            word_start_from(t, s - 1, c, long)
        }
    }
}

/// From index `e`: the first index that is not a blank (or the end of the text).
pub open spec fn blanks_end(t: Seq<char>, e: int) -> int
    decreases t.len() - e,
{
    if 0 <= e < t.len() && is_blank_char(t[e]) {
        blanks_end(t, e + 1)
    } else {
        e
    }
}

/// The (start, end) of the word at index `p`, which is inside the text.
pub open spec fn word_bounds(t: Seq<char>, p: int, long: bool) -> (int, int) {
    let cat = category_of(t[p]);
    (word_start_from(t, p, cat, long), word_end_from(t, p, cat, long))
}

/// What `word_impl` needs: a cursor past the end leaves the range alone;
/// otherwise a char that is not a blank at or before the cursor.
pub open spec fn word_impl_ok(t: Seq<char>, r: Range) -> bool {
    let pos = cursor_spec(t, r);
    pos >= t.len() || back_over_blanks(t, pos) >= 0
}

/// The range `word_impl` gives.
pub open spec fn word_spec(t: Seq<char>, r: Range, textobject: TextObject, long: bool) -> Range {
    let pos = cursor_spec(t, r);
    if pos >= t.len() {
        r
    } else {
        let p = back_over_blanks(t, pos);
        let (s, e) = word_bounds(t, p, long);
        let e = if textobject == TextObject::Around { blanks_end(t, e) } else { e };
        if r.head >= r.anchor {
            Range { anchor: s as usize, head: e as usize, old_visual_position: None }
        } else {
            Range { anchor: e as usize, head: s as usize, old_visual_position: None }
        }
    }
}

proof fn lemma_back_over_blanks(t: Seq<char>, p: int)
    requires
        -1 <= p < t.len(),
    ensures
        -1 <= back_over_blanks(t, p) <= p,
        back_over_blanks(t, p) >= 0 ==> !is_blank_char(t[back_over_blanks(t, p)]),
    decreases p + 1,
{
    if p >= 0 && is_blank_char(t[p]) {
        lemma_back_over_blanks(t, p - 1);
    }
}

proof fn lemma_word_end_from(t: Seq<char>, e: int, prev: CharCategory, long: bool)
    requires
        0 <= e <= t.len(),
    ensures
        e <= word_end_from(t, e, prev, long) <= t.len(),
    decreases t.len() - e,
{
    if e < t.len() {
        let c = category_of(t[e]);
        if !(stops_scan(c) || (c != prev && !long)) {
            lemma_word_end_from(t, e + 1, c, long);
        }
    }
}

proof fn lemma_word_start_from(t: Seq<char>, s: int, prev: CharCategory, long: bool)
    requires
        0 <= s <= t.len(),
    ensures
        0 <= word_start_from(t, s, prev, long) <= s,
    decreases s,
{
    if s > 0 {
        let c = category_of(t[s - 1]);
        if !(stops_scan(c) || (c != prev && !long)) {
            lemma_word_start_from(t, s - 1, c, long);
        }
    }
}

proof fn lemma_blanks_end(t: Seq<char>, e: int)
    requires
        0 <= e <= t.len(),
    ensures
        e <= blanks_end(t, e) <= t.len(),
    decreases t.len() - e,
{
    if e < t.len() && is_blank_char(t[e]) {
        lemma_blanks_end(t, e + 1);
    }
}

/// From `from`, next to a char of category `before`: where the word ends.
fn scan_word_end(text: &[char], from: usize, before: CharCategory, long: bool) -> (r: usize)
    requires
        from <= text@.len(),
    ensures
        r == word_end_from(text@, from as int, before, long),
{
    let mut e = from;
    let mut prev = before;
    loop
        invariant
            e <= text@.len(),
            word_end_from(text@, e as int, prev, long) == word_end_from(text@, from as int, before, long),
        decreases text@.len() - e,
    {
        if e >= text.len() {
            return e;
        }
        let c = categorize_char(text[e]);
        if c == CharCategory::Eol || c == CharCategory::Whitespace || (c != prev && !long) {
            return e;
        }
        e = e + 1;
        prev = c;
    }
}

/// From `from`, whose char has category `after`: where the word starts.
fn scan_word_start(text: &[char], from: usize, after: CharCategory, long: bool) -> (r: usize)
    requires
        from <= text@.len(),
    ensures
        r == word_start_from(text@, from as int, after, long),
{
    let mut s = from;
    let mut prev = after;
    loop
        invariant
            s <= text@.len(),
            word_start_from(text@, s as int, prev, long) == word_start_from(text@, from as int, after, long),
        decreases s,
    {
        if s == 0 {
            return s;
        }
        let c = categorize_char(text[s - 1]);
        if c == CharCategory::Eol || c == CharCategory::Whitespace || (c != prev && !long) {
            return s;
        }
        s = s - 1;
        prev = c;
    }
}

/// The start and end of the word at `curr_pos`: chars of its category (of
/// any category but whitespace and line endings when `long`) on both sides.
fn find_word_boundary(text: &[char], curr_pos: usize, long: bool) -> (r: (usize, usize))
    requires
        curr_pos < text@.len(),
    ensures
        (r.0 as int, r.1 as int) == word_bounds(text@, curr_pos as int, long),
        r.0 <= curr_pos <= r.1 <= text@.len(),
{
    let cat = categorize_char(text[curr_pos]);
    proof {
        lemma_word_end_from(text@, curr_pos as int, cat, long);
        lemma_word_start_from(text@, curr_pos as int, cat, long);
    }
    let curr_end_idx = scan_word_end(text, curr_pos, cat, long);
    let curr_start_idx = scan_word_start(text, curr_pos, cat, long);
    (curr_start_idx, curr_end_idx)
}

/// From `pos`: the last index at or before it that is not a blank.
fn back_over_blank_chars(text: &[char], pos: usize) -> (r: usize)
    requires
        pos < text@.len(),
        back_over_blanks(text@, pos as int) >= 0,
    ensures
        r == back_over_blanks(text@, pos as int),
{
    let mut p = pos;
    loop
        invariant
            p < text@.len(),
            back_over_blanks(text@, p as int) == back_over_blanks(text@, pos as int),
            back_over_blanks(text@, pos as int) >= 0,
        decreases p,
    {
        if !char_is_whitespace(text[p]) {
            return p;
        }
        proof {
            lemma_back_over_blanks(text@, p - 1);
        }
        p = p - 1;
    }
}

/// From `e`: the first index that is not a blank.
fn skip_blanks(text: &[char], from: usize) -> (r: usize)
    requires
        from <= text@.len(),
    ensures
        r == blanks_end(text@, from as int),
{
    let mut e = from;
    loop
        invariant
            e <= text@.len(),
            blanks_end(text@, e as int) == blanks_end(text@, from as int),
        decreases text@.len() - e,
    {
        if e >= text.len() || !char_is_whitespace(text[e]) {
            return e;
        }
        e = e + 1;
    }
}

/// Selects the word around the cursor; `long` words run up to whitespace
/// whatever their chars. A cursor on blanks takes the word before them.
/// `Around` adds the blanks after the word. The range keeps its direction;
/// a cursor past the end of the text leaves it as it is.
pub fn word_impl(range: Range, text: &[char], textobject: Option<TextObject>, long: bool) -> (r: Range)
    requires
        range_in(range, text@.len() as int),
        textobject.is_some(),
        word_impl_ok(text@, range),
    ensures
        r == word_spec(text@, range, textobject.unwrap(), long),
        range_in(r, text@.len() as int),
{
    let pos = range.cursor(text);
    if pos >= text.len() {
        return range;
    }
    proof {
        lemma_back_over_blanks(text@, pos as int);
    }
    // Step back over blanks to the word before them.
    let pos = back_over_blank_chars(text, pos);
    let (start_idx, end_idx) = find_word_boundary(text, pos, long);
    let end_idx = if textobject == Some(TextObject::Around) {
        proof {
            lemma_blanks_end(text@, end_idx as int);
        }
        skip_blanks(text, end_idx)
    } else {
        end_idx
    };
    let direction = if range.head >= range.anchor {
        Direction::Forward
    } else {
        Direction::Backward
    };
    Range::new(start_idx, end_idx).with_direction(direction)
}

} // verus!
