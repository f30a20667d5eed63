//! A view of a buffer on screen: the area it takes, its gutter columns, the
//! scroll offset of the text in it, its jump list and the buffers it showed.
//! It translates between text positions and screen cells, and scrolls so the
//! cursor stays visible.

use crate::buffer::{lemma_selection_fits, Buffer, BufferID, BufferViewID};
use crate::graphics::{sat_add_u16, sat_sub, Rect};
use crate::gutter::{gutter_width_spec, gutters_width_spec, GutterComponents};
use crate::jump::{without_buffer, JumpList};
use crate::position::{lemma_visual_coords_nonneg, 
    pos_at_visual_coords, pos_at_visual_coords_spec, visual_coords_at_pos, visual_coords_spec,
    Position,
};
use crate::selection::{cursor_spec, Range, Selection};
use crate::text::{char_to_line, last_line_idx, len_lines, line_of};
use vstd::prelude::*;

verus! {

/// Where to put the cursor's line when a view is aligned on it.
#[derive(Debug, Clone, Copy, PartialEq, Eq, Structural)]
pub enum Align {
    Top,
    Center,
    Bottom,
}

/// `a` if it is smaller than `b`, else `b`.
pub open spec fn min_int(a: int, b: int) -> int {
    if a < b { a } else { b }
}

/// The offset that brings (`line`, `col`) into a text area of `height` rows
/// and `width` columns shown from offset (`orow`, `ocol`), keeping `scrolloff`
/// rows and columns (at most half the height, less one) between it and the
/// edges. Rows and columns that need no scrolling keep their offset.
pub open spec fn new_offset_spec(line: int, col: int, orow: int, ocol: int, height: int, width: int, scrolloff: int) -> (int, int) {
    let last_line = sat_sub(orow + height, 1);
    let last_col = ocol + sat_sub(width, 1);
    let s = min_int(scrolloff, sat_sub(height, 1) / 2);
    let row = if line > sat_sub(last_line, s) {
        orow + line - sat_sub(last_line, s)
    } else if line < orow + s {
        sat_sub(line, s)
    } else {
        orow
    };
    let c = if col > sat_sub(last_col, s) {
        ocol + col - sat_sub(last_col, s)
    } else if col < ocol + s {
        sat_sub(col, s)
    } else {
        ocol
    };
    (row, c)
}

/// The history after buffer `id` was accessed: `id` moves to the end (its
/// first entry is taken out where there is one).
pub open spec fn history_after_access(h: Seq<BufferID>, id: BufferID) -> Seq<BufferID> {
    if h.contains(id) {
        h.remove(first_index(h, id)).push(id)
    } else {
        h.push(id)
    }
}

/// Index of the first entry `id` in `h` (its length where there is none).
pub open spec fn first_index(h: Seq<BufferID>, id: BufferID) -> int
    decreases h.len(),
{
    if h.len() == 0 {
        0
    } else if h[0] == id {
        0
    } else {
        1 + first_index(h.drop_first(), id)
    }
}

/// The entries of `h` other than `id`, in their order.
pub open spec fn without_id(h: Seq<BufferID>, id: BufferID) -> Seq<BufferID>
    decreases h.len(),
{
    if h.len() == 0 {
        h
    } else {
        let rest = without_id(h.drop_last(), id);
        if h.last() != id {
            rest.push(h.last())
        } else {
            rest
        }
    }
}

proof fn lemma_first_index(h: Seq<BufferID>, id: BufferID)
    ensures
        0 <= first_index(h, id) <= h.len(),
        h.contains(id) <==> first_index(h, id) < h.len(),
        first_index(h, id) < h.len() ==> h[first_index(h, id)] == id,
        forall|j: int| 0 <= j < first_index(h, id) ==> h[j] != id,
    decreases h.len(),
{
    if h.len() > 0 && h[0] != id {
        lemma_first_index(h.drop_first(), id);
        assert forall|j: int| 0 <= j < first_index(h, id) implies h[j] != id by {
            if j > 0 {
                assert(h[j] == h.drop_first()[j - 1]);
            }
        }
        if h.contains(id) {
            let k = choose|k: int| 0 <= k < h.len() && h[k] == id;
            assert(h.drop_first()[k - 1] == id);
        }
        if h.drop_first().contains(id) {
            let k = choose|k: int| 0 <= k < h.drop_first().len() && h.drop_first()[k] == id;
            assert(h[k + 1] == id);
        }
    } else if h.len() > 0 {
        assert(h.contains(id));
    }
}

pub struct BufferView {
    pub id: BufferViewID,
    pub offset: Position,
    pub area: Rect,
    pub buffer_id: BufferID,
    pub jumps: JumpList,
    /// Buffers shown in this view, from the one shown longest ago to the latest.
    pub buffer_access_history: Vec<BufferID>,
    /// The buffers last modified before the current one.
    pub last_modified_buffers: [Option<BufferID>; 2],
    /// Earlier selections of syntax-tree objects.
    pub object_selections: Vec<Selection>,
    /// Gutter columns, left to right.
    pub gutters: Vec<GutterComponents>,
}

impl BufferView {
    /// The view's gutter columns, left to right.
    pub open spec fn gutters_spec(&self) -> Seq<GutterComponents> {
        self.gutters@
    }

    /// Total width of the gutter for `buffer`'s text.
    pub open spec fn gutter_offset_spec(&self, buffer: &Buffer) -> int {
        gutters_width_spec(self.gutters_spec(), buffer.text@)
    }

    /// The area left for text: the view's area without the gutter and without
    /// the status line at the bottom.
    pub open spec fn inner_area_spec(&self, buffer: &Buffer) -> Rect {
        self.area.clipped_left(self.gutter_offset_spec(buffer)).clipped_bottom(1)
    }

    /// Rows left for text.
    pub open spec fn inner_height_spec(&self) -> int {
        sat_sub(self.area.height as int, 1)
    }

    /// The char index of the cursor of the view's primary range in `buffer`.
    pub open spec fn cursor_of(&self, buffer: &Buffer) -> int {
        let s = buffer.selection_spec(self.id).unwrap();
        cursor_spec(buffer.text@, s.ranges@[s.primary_index as int])
    }

    /// The (line, display column) of the view's cursor in `buffer`.
    pub open spec fn cursor_coords(&self, buffer: &Buffer) -> (int, int) {
        visual_coords_spec(buffer.text@, self.cursor_of(buffer), buffer.tab_width as int)
    }

    /// What scrolling the view reads of `buffer` is there and in range: the
    /// buffer is well formed, holds a selection for the view, the gutter fits
    /// on a screen row, and offsets plus cursor coordinates plus a screen's
    /// size fit in a `usize`.
    pub open spec fn can_scroll(&self, buffer: &Buffer) -> bool {
        &&& buffer.wf()
        &&& buffer.selection_spec(self.id).is_some()
        &&& self.gutter_offset_spec(buffer) <= u16::MAX
        &&& self.offset.row + self.cursor_coords(buffer).0 + u16::MAX <= usize::MAX
        &&& self.offset.col + self.cursor_coords(buffer).1 + u16::MAX <= usize::MAX
    }

    /// The offset that brings the cursor into view, `None` where the offset
    /// is to stay. Without `centering`: `None` when the cursor is inside the
    /// view with `scrolloff` to spare. With `centering`: `None` when the
    /// cursor is outside the view, else the offset that leaves it `scrolloff`
    /// from the edges.
    pub open spec fn offset_to_view_spec(&self, buffer: &Buffer, scrolloff: int, centering: bool) -> Option<(int, int)> {
        let (line, col) = self.cursor_coords(buffer);
        let inner = self.inner_area_spec(buffer);
        let off = |s: int|
            new_offset_spec(
                line,
                col,
                self.offset.row as int,
                self.offset.col as int,
                inner.height as int,
                inner.width as int,
                s,
            );
        let current = (self.offset.row as int, self.offset.col as int);
        if centering {
            if off(0) == current {
                Some(if scrolloff == 0 { off(0) } else { off(scrolloff) })
            } else {
                None
            }
        } else {
            if off(scrolloff) != current {
                Some(off(scrolloff))
            } else {
                None
            }
        }
    }

    /// The last line shown: that at the bottom of the text area, or the last
    /// line of the text where it ends above.
    pub open spec fn last_line_spec(&self, buffer: &Buffer) -> int {
        min_int(sat_sub(self.offset.row + self.inner_height_spec(), 1), len_lines(buffer.text@) - 1)
    }

    /// `other` is `self` with, at most, another offset.
    pub open spec fn same_but_offset(&self, other: &BufferView) -> bool {
        &&& self.id == other.id
        &&& self.area == other.area
        &&& self.buffer_id == other.buffer_id
        &&& self.jumps@ == other.jumps@
        &&& self.buffer_access_history@ == other.buffer_access_history@
        &&& self.last_modified_buffers@ == other.last_modified_buffers@
        &&& self.object_selections@ == other.object_selections@
        &&& self.gutters_spec() == other.gutters_spec()
    }

    /// A view of buffer `buffer_id` with the gutter columns `gutter_types`,
    /// at offset zero, in an empty area, whose jump list holds a point
    /// selection at the start of the buffer.
    pub fn new(buffer_id: BufferID, gutter_types: Vec<GutterComponents>) -> (v: BufferView)
        ensures
            v.id == BufferViewID(0),
            v.buffer_id == buffer_id,
            v.offset == (Position { row: 0, col: 0 }),
            v.area == (Rect { x: 0, y: 0, width: 0, height: 0 }),
            v.jumps@.0 == seq![(buffer_id, (seq![(Range { anchor: 0, head: 0, old_visual_position: None })], 0usize))],
            v.jumps@.1 == 0,
            v.buffer_access_history@.len() == 0,
            v.last_modified_buffers@ == seq![None::<BufferID>, None::<BufferID>],
            v.object_selections@.len() == 0,
            v.gutters_spec() == gutter_types@,
    {
        let v = BufferView {
            id: BufferViewID::default(),
            buffer_id,
            offset: Position::new(0, 0),
            area: Rect::default(),
            jumps: JumpList::new((buffer_id, Selection::point(0))),
            buffer_access_history: Vec::new(),
            last_modified_buffers: [None, None],
            object_selections: Vec::new(),
            gutters: gutter_types,
        };
        proof {
            assert(v.last_modified_buffers@ =~= seq![None::<BufferID>, None::<BufferID>]);
        }
        v
    }

    /// Records that buffer `id` is shown: it moves to the end of the history.
    pub fn add_to_history(&mut self, id: BufferID)
        ensures
            final(self).buffer_access_history@ == history_after_access(old(self).buffer_access_history@, id),
            final(self).id == old(self).id,
            final(self).offset == old(self).offset,
            final(self).area == old(self).area,
            final(self).buffer_id == old(self).buffer_id,
            final(self).jumps@ == old(self).jumps@,
            final(self).last_modified_buffers@ == old(self).last_modified_buffers@,
            final(self).object_selections@ == old(self).object_selections@,
            final(self).gutters_spec() == old(self).gutters_spec(),
    {
        let ghost h = self.buffer_access_history@;
        proof {
            lemma_first_index(h, id);
        }
        let p = find_first(self.buffer_access_history.as_slice(), id);
        if p < self.buffer_access_history.len() {
            self.buffer_access_history.remove(p);
        }
        self.buffer_access_history.push(id);
    }

    /// The area left for text in the view.
    pub fn inner_area(&self, buffer: &Buffer) -> (r: Rect)
        requires
            self.gutter_offset_spec(buffer) <= u16::MAX,
        ensures
            r == self.inner_area_spec(buffer),
    {
        self.area.clip_left(self.gutter_offset(buffer)).clip_bottom(1)
    }

    /// Rows left for text: the view's height less the status line.
    pub fn inner_height(&self) -> (h: usize)
        ensures
            h == self.inner_height_spec(),
    {
        self.area.clip_bottom(1).height as usize
    }

    /// The gutter columns, left to right.
    pub fn gutters(&self) -> (g: &[GutterComponents])
        ensures
            g@ == self.gutters_spec(),
    {
        self.gutters.as_slice()
    }

    /// Total width of the gutter for `buffer`'s text.
    pub fn gutter_offset(&self, buffer: &Buffer) -> (w: u16)
        requires
            self.gutter_offset_spec(buffer) <= u16::MAX,
        ensures
            w == self.gutter_offset_spec(buffer),
    {
        let mut sum: u16 = 0;
        let mut i: usize = 0;
        let ghost gs = self.gutters@;
        while i < self.gutters.len()
            invariant
                gs == self.gutters@,
                0 <= i <= gs.len(),
                sum == gutters_width_spec(gs.take(i as int), buffer.text@),
                gutters_width_spec(gs, buffer.text@) <= u16::MAX,
            decreases self.gutters.len() - i,
        {
            proof {
                assert(gs.take(i + 1).drop_last() =~= gs.take(i as int));
                lemma_gutters_width_prefix(gs, buffer.text@, i + 1);
            }
            let w = self.gutters[i].width(buffer);
            sum = sum + w as u16;
            i = i + 1;
        }
        proof {
            assert(gs.take(i as int) =~= gs);
        }
        sum
    }

    /// The offset that brings the cursor into view with `scrolloff` to spare,
    /// `None` where it is in view already.
    pub fn offset_coords_to_in_view(&self, buffer: &Buffer, scrolloff: usize) -> (r: Option<(usize, usize)>)
        requires
            self.can_scroll(buffer),
        ensures
            r matches Some(o) ==> self.offset_to_view_spec(buffer, scrolloff as int, false) == Some((o.0 as int, o.1 as int)),
            r is None ==> self.offset_to_view_spec(buffer, scrolloff as int, false) is None,
    {
        self.offset_coords_to_in_view_center(buffer, scrolloff, false)
    }

    /// See `offset_to_view_spec`.
    pub fn offset_coords_to_in_view_center(&self, buffer: &Buffer, scrolloff: usize, centering: bool) -> (r: Option<(usize, usize)>)
        requires
            self.can_scroll(buffer),
        ensures
            r matches Some(o) ==> self.offset_to_view_spec(buffer, scrolloff as int, centering) == Some((o.0 as int, o.1 as int)),
            r is None ==> self.offset_to_view_spec(buffer, scrolloff as int, centering) is None,
    {
        proof {
            lemma_selection_fits(buffer, self.id);
        }
        let text = buffer.text();
        let cursor = buffer.selection(self.id).primary().cursor(text);
        let Position { col, row: line } = visual_coords_at_pos(text, cursor, buffer.tab_width());
        let inner_area = self.inner_area(buffer);
        let current_offset = (self.offset.row, self.offset.col);
        if centering {
            let offset = new_offset(line, col, self.offset, inner_area.height, inner_area.width, 0);
            if offset.0 == current_offset.0 && offset.1 == current_offset.1 {
                if scrolloff == 0 {
                    Some(offset)
                } else {
                    Some(new_offset(line, col, self.offset, inner_area.height, inner_area.width, scrolloff))
                }
            } else {
                None
            }
        } else {
            let offset = new_offset(line, col, self.offset, inner_area.height, inner_area.width, scrolloff);
            if offset.0 != current_offset.0 || offset.1 != current_offset.1 {
                Some(offset)
            } else {
                None
            }
        }
    }

    /// Scrolls so the cursor is in view with `scrolloff` to spare.
    pub fn ensure_cursor_in_view(&mut self, buffer: &Buffer, scrolloff: usize)
        requires
            old(self).can_scroll(buffer),
        ensures
            final(self).same_but_offset(old(self)),
            (final(self).offset.row as int, final(self).offset.col as int) == (match old(self).offset_to_view_spec(buffer, scrolloff as int, false) {
                Some(o) => o,
                None => (old(self).offset.row as int, old(self).offset.col as int),
            }),
    {
        if let Some((row, col)) = self.offset_coords_to_in_view_center(buffer, scrolloff, false) {
            self.offset.row = row;
            self.offset.col = col;
        }
    }

    /// Scrolls so the cursor is in view with `scrolloff` to spare where it is
    /// in view; else centers the view on the cursor's line.
    pub fn ensure_cursor_in_view_center(&mut self, buffer: &Buffer, scrolloff: usize)
        requires
            old(self).can_scroll(buffer),
        ensures
            final(self).same_but_offset(old(self)),
            old(self).offset_to_view_spec(buffer, scrolloff as int, true) matches Some(o) ==>
                (final(self).offset.row as int, final(self).offset.col as int) == o,
            old(self).offset_to_view_spec(buffer, scrolloff as int, true) is None ==> {
                &&& final(self).offset.col == old(self).offset.col
                &&& final(self).offset.row == align_row_spec(
                    line_of(buffer.text@, old(self).cursor_of(buffer)),
                    old(self).inner_height_spec(),
                    Align::Center,
                )
            },
    {
        if let Some((row, col)) = self.offset_coords_to_in_view_center(buffer, scrolloff, true) {
            self.offset.row = row;
            self.offset.col = col;
        } else {
            align_view(buffer, self, Align::Center);
        }
    }

    /// Whether the cursor is in view with `scrolloff` to spare.
    pub fn is_cursor_in_view(&mut self, buffer: &Buffer, scrolloff: usize) -> (b: bool)
        requires
            old(self).can_scroll(buffer),
        ensures
            b == old(self).offset_to_view_spec(buffer, scrolloff as int, false) is None,
            final(self).same_but_offset(old(self)),
            final(self).offset == old(self).offset,
    {
        self.offset_coords_to_in_view(buffer, scrolloff).is_none()
    }

    /// The last line shown on screen.
    pub fn last_line(&self, buffer: &Buffer) -> (l: usize)
        requires
            self.offset.row + self.inner_height_spec() <= usize::MAX,
        ensures
            l == self.last_line_spec(buffer),
    {
        let a = (self.offset.row + self.inner_height()).saturating_sub(1);
        let b = last_line_idx(buffer.text());
        if a < b {
            a
        } else {
            b
        }
    }

    /// The screen cell, relative to the view, of char index `pos` of `text`
    /// (the buffer's text), if its line is shown.
    pub fn screen_coords_at_pos(&self, buffer: &Buffer, text: &[char], pos: usize) -> (r: Option<Position>)
        requires
            pos <= text@.len(),
            buffer.tab_width > 0,
            visual_coords_spec(text@, pos as int, buffer.tab_width as int).1 <= usize::MAX,
            self.offset.row + self.inner_height_spec() <= usize::MAX,
        ensures
            ({
                let line = line_of(text@, pos as int);
                if line < self.offset.row || line > self.last_line_spec(buffer) {
                    r is None
                } else {
                    r matches Some(p) && p.row == line - self.offset.row && p.col == sat_sub(
                        visual_coords_spec(text@, pos as int, buffer.tab_width as int).1,
                        self.offset.col as int,
                    )
                }
            }),
    {
        let line = char_to_line(text, pos);
        if line < self.offset.row || line > self.last_line(buffer) {
            return None;
        }
        let tab_width = buffer.tab_width();
        let Position { col, .. } = visual_coords_at_pos(text, pos, tab_width);
        let row = line.saturating_sub(self.offset.row);
        let col = col.saturating_sub(self.offset.col);
        Some(Position::new(row, col))
    }

    /// The char index shown at screen cell (`row`, `column`), if the cell is
    /// in the view's text area. A row below the text gives the end of the
    /// text; a column past a line's end gives the end of that line.
    pub fn text_pos_at_screen_coords(&self, buffer: &Buffer, row: u16, column: u16, tab_width: usize) -> (r: Option<usize>)
        requires
            tab_width > 0,
            self.gutter_offset_spec(buffer) <= u16::MAX,
            self.offset.row + row <= usize::MAX,
            self.offset.col + column <= usize::MAX,
        ensures
            r == text_pos_spec(self, buffer, row as int, column as int, tab_width as int),
            r matches Some(p) ==> p <= buffer.text@.len(),
    {
        let text = buffer.text();
        let inner = self.inner_area(buffer);
        if row < inner.top() || row >= inner.bottom() {
            return None;
        }
        if column < inner.left() || column > inner.right() {
            return None;
        }
        let text_row = (row - inner.y) as usize + self.offset.row;
        if text_row > last_line_idx(text) {
            return Some(text.len());
        }
        let text_col = (column - inner.x) as usize + self.offset.col;
        Some(pos_at_visual_coords(text, Position { row: text_row, col: text_col }, tab_width))
    }

    /// The char index shown at screen cell (`row`, `column`), measured with
    /// the buffer's tab width.
    pub fn pos_at_screen_coords(&self, buffer: &Buffer, row: u16, column: u16) -> (r: Option<usize>)
        requires
            buffer.tab_width > 0,
            self.gutter_offset_spec(buffer) <= u16::MAX,
            self.offset.row + row <= usize::MAX,
            self.offset.col + column <= usize::MAX,
        ensures
            r == text_pos_spec(self, buffer, row as int, column as int, buffer.tab_width as int),
            r matches Some(p) ==> p <= buffer.text@.len(),
    {
        self.text_pos_at_screen_coords(buffer, row, column, buffer.tab_width())
    }

    /// The (row, column) of screen cell (`row`, `column`) relative to the
    /// view's area, if the cell is on the gutter drawn for `buffer`: within
    /// the area's rows and within the gutter's columns at its left edge.
    pub fn gutter_coords_at_screen_coords(&self, buffer: &Buffer, row: u16, column: u16) -> (r: Option<Position>)
        requires
            self.gutter_offset_spec(buffer) <= u16::MAX,
        ensures
            ({
                let a = self.area;
                if row < a.y || row >= sat_add_u16(a.y as int, a.height as int) || column < a.x
                    || column - a.x >= self.gutter_offset_spec(buffer) {
                    r is None
                } else {
                    r == Some(Position { row: (row - a.y) as usize, col: (column - a.x) as usize })
                }
            }),
    {
        if row < self.area.top() || row >= self.area.bottom() {
            return None;
        }
        if column < self.area.left() || column - self.area.left() >= self.gutter_offset(buffer) {
            return None;
        }
        Some(Position::new((row - self.area.top()) as usize, (column - self.area.left()) as usize))
    }

    /// Forgets buffer `buffer_id`: its jumps and its entries in the history.
    pub fn remove_buffer(&mut self, buffer_id: &BufferID)
        ensures
            final(self).jumps@ == (without_buffer(old(self).jumps@.0, *buffer_id), old(self).jumps@.1),
            final(self).buffer_access_history@ == without_id(old(self).buffer_access_history@, *buffer_id),
            final(self).id == old(self).id,
            final(self).offset == old(self).offset,
            final(self).area == old(self).area,
            final(self).buffer_id == old(self).buffer_id,
            final(self).last_modified_buffers@ == old(self).last_modified_buffers@,
            final(self).object_selections@ == old(self).object_selections@,
            final(self).gutters_spec() == old(self).gutters_spec(),
    {
        self.jumps.remove(buffer_id);
        self.forget_in_history(buffer_id);
    }

    /// Drops buffer `buffer_id` from the history, keeping the order of the rest.
    pub fn forget_in_history(&mut self, buffer_id: &BufferID)
        ensures
            final(self).jumps@ == old(self).jumps@,
            final(self).buffer_access_history@ == without_id(old(self).buffer_access_history@, *buffer_id),
            !final(self).buffer_access_history@.contains(*buffer_id),
            final(self).id == old(self).id,
            final(self).offset == old(self).offset,
            final(self).area == old(self).area,
            final(self).buffer_id == old(self).buffer_id,
            final(self).last_modified_buffers@ == old(self).last_modified_buffers@,
            final(self).object_selections@ == old(self).object_selections@,
            final(self).gutters_spec() == old(self).gutters_spec(),
    {
        let ghost h = self.buffer_access_history@;
        let mut kept: Vec<BufferID> = Vec::new();
        let mut i: usize = 0;
        while i < self.buffer_access_history.len()
            invariant
                h == self.buffer_access_history@,
                0 <= i <= h.len(),
                kept@ == without_id(h.take(i as int), *buffer_id),
            decreases self.buffer_access_history.len() - i,
        {
            proof {
                assert(h.take(i + 1).drop_last() =~= h.take(i as int));
            }
            let b = self.buffer_access_history[i];
            if b != *buffer_id {
                kept.push(b);
            }
            i = i + 1;
        }
        proof {
            assert(h.take(i as int) =~= h);
            lemma_without_id_lacks(h, *buffer_id);
        }
        self.buffer_access_history = kept;
    }
}

/// What `without_id` leaves holds no `id`.
pub proof fn lemma_without_id_lacks(h: Seq<BufferID>, id: BufferID)
    ensures
        !without_id(h, id).contains(id),
    decreases h.len(),
{
    if h.len() > 0 {
        lemma_without_id_lacks(h.drop_last(), id);
        let w = without_id(h, id);
        let r = without_id(h.drop_last(), id);
        if w.contains(id) {
            let i = choose|i: int| 0 <= i < w.len() && w[i] == id;
            if h.last() != id {
                assert(w == r.push(h.last()));
                if i < r.len() {
                    assert(r[i] == id);
                }
            }
        }
    }
}

/// See `BufferView::text_pos_at_screen_coords`.
pub open spec fn text_pos_spec(v: &BufferView, buffer: &Buffer, row: int, column: int, tab_width: int) -> Option<usize> {
    let inner = v.inner_area_spec(buffer);
    let t = buffer.text@;
    if row < inner.y || row >= sat_add_u16(inner.y as int, inner.height as int) {
        None
    } else if column < inner.x || column > sat_add_u16(inner.x as int, inner.width as int) {
        None
    } else {
        let text_row = row - inner.y + v.offset.row;
        if text_row > len_lines(t) - 1 {
            Some(t.len() as usize)
        } else {
            Some(pos_at_visual_coords_spec(t, text_row, column - inner.x + v.offset.col, tab_width) as usize)
        }
    }
}

/// The offset row that puts `line` at the top, center or bottom of a text
/// area of `height` rows.
pub open spec fn align_row_spec(line: int, height: int, align: Align) -> int {
    let last = sat_sub(height, 1);
    let relative = match align {
        Align::Center => last / 2,
        Align::Top => 0,
        Align::Bottom => last,
    };
    sat_sub(line, relative)
}

/// Scrolls `buffer_view` so the line of its cursor is at the top, center or
/// bottom of its text area.
pub fn align_view(buffer: &Buffer, buffer_view: &mut BufferView, align: Align)
    requires
        buffer.wf(),
        buffer.selection_spec(old(buffer_view).id).is_some(),
    ensures
        final(buffer_view).same_but_offset(old(buffer_view)),
        final(buffer_view).offset.col == old(buffer_view).offset.col,
        final(buffer_view).offset.row == align_row_spec(
            line_of(buffer.text@, old(buffer_view).cursor_of(buffer)),
            old(buffer_view).inner_height_spec(),
            align,
        ),
{
    proof {
        lemma_selection_fits(buffer, buffer_view.id);
    }
    let text = buffer.text();
    let pos = buffer.selection(buffer_view.id).primary().cursor(text);
    let line = char_to_line(text, pos);
    let last_line_height = buffer_view.inner_height().saturating_sub(1);
    let relative = match align {
        Align::Center => last_line_height / 2,
        Align::Top => 0,
        Align::Bottom => last_line_height,
    };
    buffer_view.offset.row = line.saturating_sub(relative);
}

/// Index of the first entry `id` in `h` (its length where there is none).
fn find_first(h: &[BufferID], id: BufferID) -> (r: usize)
    ensures
        r == first_index(h@, id),
{
    proof {
        lemma_first_index(h@, id);
    }
    let mut i: usize = 0;
    while i < h.len()
        invariant
            0 <= i <= h@.len(),
            forall|j: int| 0 <= j < i ==> h@[j] != id,
            0 <= first_index(h@, id) <= h@.len(),
            first_index(h@, id) < h@.len() ==> h@[first_index(h@, id)] == id,
            forall|j: int| 0 <= j < first_index(h@, id) ==> h@[j] != id,
        decreases h.len() - i,
    {
        if h[i] == id {
            return i;
        }
        i = i + 1;
    }
    i
}

/// See `new_offset_spec`.
fn new_offset(line: usize, col: usize, offset: Position, height: u16, width: u16, scrolloff: usize) -> (r: (usize, usize))
    requires
        offset.row + line + u16::MAX <= usize::MAX,
        offset.col + col + u16::MAX <= usize::MAX,
    ensures
        (r.0 as int, r.1 as int) == new_offset_spec(
            line as int,
            col as int,
            offset.row as int,
            offset.col as int,
            height as int,
            width as int,
            scrolloff as int,
        ),
{
    let last_line = (offset.row + height as usize).saturating_sub(1);
    let last_col = offset.col + width.saturating_sub(1) as usize;
    let half = height.saturating_sub(1) as usize / 2;
    let s = if scrolloff < half { scrolloff } else { half };
    let row = if line > last_line.saturating_sub(s) {
        offset.row + line - last_line.saturating_sub(s)
    } else if line < offset.row + s {
        line.saturating_sub(s)
    } else {
        offset.row
    };
    let c = if col > last_col.saturating_sub(s) {
        offset.col + col - last_col.saturating_sub(s)
    } else if col < offset.col + s {
        col.saturating_sub(s)
    } else {
        offset.col
    };
    (row, c)
}

proof fn lemma_gutters_width_prefix(gs: Seq<GutterComponents>, t: Seq<char>, i: int)
    requires
        0 <= i <= gs.len(),
    ensures
        0 <= gutters_width_spec(gs.take(i), t) <= gutters_width_spec(gs, t),
    decreases gs.len(),
{
    if gs.len() > 0 {
        if i == gs.len() {
            assert(gs.take(i) =~= gs);
            lemma_gutters_width_prefix(gs.drop_last(), t, i - 1);
            assert(gs.drop_last().take(i - 1) =~= gs.drop_last());
        } else {
            lemma_gutters_width_prefix(gs.drop_last(), t, i);
            assert(gs.drop_last().take(i) =~= gs.take(i));
        }
        assert(gutter_width_spec(gs.last(), t) >= 1) by {
            match gs.last() {
                GutterComponents::LineNumbers => {},
                _ => {},
            }
        }
    }
}

/// The offset along one axis that brings `pos` into view, keeping `s` to
/// spare, from offset `o` with last visible position `last`.
pub open spec fn axis_offset(pos: int, o: int, last: int, s: int) -> int {
    if pos > sat_sub(last, s) {
        o + pos - sat_sub(last, s)
    } else if pos < o + s {
        sat_sub(pos, s)
    } else {
        o
    }
}

proof fn lemma_axis_stable(pos: int, o: int, size: int, s: int)
    requires
        pos >= 0,
        o >= 0,
        size >= 1,
        s >= 0,
        2 * s <= size - 1,
    ensures
        ({
            let o2 = axis_offset(pos, o, o + size - 1, s);
            o2 >= 0 && axis_offset(pos, o2, o2 + size - 1, s) == o2
        }),
{
}

/// Scrolling to the cursor settles: from the offset it gives, no more
/// scrolling is needed, where the text area is at least one cell and the
/// margin kept (`scrolloff`, at most half the height less one) fits twice in
/// its width less one. (In a view one column wide and ten rows high with a
/// margin of three, a cursor at column five makes the columns scroll on.)
pub proof fn lemma_new_offset_stable(line: int, col: int, orow: int, ocol: int, height: int, width: int, scrolloff: int)
    requires
        height >= 1,
        width >= 1,
        line >= 0,
        col >= 0,
        orow >= 0,
        ocol >= 0,
        scrolloff >= 0,
        2 * min_int(scrolloff, sat_sub(height, 1) / 2) <= width - 1,
    ensures
        ({
            let (r, c) = new_offset_spec(line, col, orow, ocol, height, width, scrolloff);
            new_offset_spec(line, col, r, c, height, width, scrolloff) == (r, c)
        }),
{
    let s = min_int(scrolloff, sat_sub(height, 1) / 2);
    assert(2 * s <= height - 1);
    lemma_axis_stable(line, orow, height, s);
    lemma_axis_stable(col, ocol, width, s);
    let (r, c) = new_offset_spec(line, col, orow, ocol, height, width, scrolloff);
    assert(r == axis_offset(line, orow, orow + height - 1, s));
    assert(c == axis_offset(col, ocol, ocol + width - 1, s));
}

/// Once `ensure_cursor_in_view` has scrolled a view (whose text area is at
/// least one cell, and whose margin fits twice in its width less one), the
/// cursor is in view: the view needs no more scrolling, so a second call
/// (where the view still fits the machine's integers, `can_scroll`) leaves
/// it as it is.
pub proof fn lemma_cursor_in_view_after_ensure(v: &BufferView, after: &BufferView, buffer: &Buffer, scrolloff: nat)
    requires
        v.can_scroll(buffer),
        after.same_but_offset(v),
        (after.offset.row as int, after.offset.col as int) == (match v.offset_to_view_spec(buffer, scrolloff as int, false) {
            Some(o) => o,
            None => (v.offset.row as int, v.offset.col as int),
        }),
        v.inner_area_spec(buffer).height >= 1,
        v.inner_area_spec(buffer).width >= 1,
        2 * min_int(scrolloff as int, (v.inner_area_spec(buffer).height - 1) / 2) <= v.inner_area_spec(buffer).width - 1,
    ensures
        after.offset_to_view_spec(buffer, scrolloff as int, false) is None,
{
    lemma_visual_coords_nonneg(buffer.text@, v.cursor_of(buffer), buffer.tab_width as int);
    let (line, col) = v.cursor_coords(buffer);
    assert(after.cursor_coords(buffer) == (line, col));
    assert(after.inner_area_spec(buffer) == v.inner_area_spec(buffer));
    let inner = v.inner_area_spec(buffer);
    lemma_new_offset_stable(
        line,
        col,
        v.offset.row as int,
        v.offset.col as int,
        inner.height as int,
        inner.width as int,
        scrolloff as int,
    );
}

/// After `ensure_cursor_in_view` (on a view whose text area is at least one
/// cell, and whose margin fits twice in its width less one), the view can be scrolled again, so the call can be made a second
/// time, where twice the cursor's line and column plus a screen's size fit
/// in a `usize`: the new offset is at most the old one or the cursor's.
pub proof fn lemma_can_scroll_after_ensure(v: &BufferView, after: &BufferView, buffer: &Buffer, scrolloff: nat)
    requires
        v.can_scroll(buffer),
        after.same_but_offset(v),
        (after.offset.row as int, after.offset.col as int) == (match v.offset_to_view_spec(buffer, scrolloff as int, false) {
            Some(o) => o,
            None => (v.offset.row as int, v.offset.col as int),
        }),
        v.inner_area_spec(buffer).height >= 1,
        v.inner_area_spec(buffer).width >= 1,
        2 * min_int(scrolloff as int, (v.inner_area_spec(buffer).height - 1) / 2) <= v.inner_area_spec(buffer).width - 1,
        2 * v.cursor_coords(buffer).0 + u16::MAX <= usize::MAX,
        2 * v.cursor_coords(buffer).1 + u16::MAX <= usize::MAX,
    ensures
        after.can_scroll(buffer),
{
    lemma_visual_coords_nonneg(buffer.text@, v.cursor_of(buffer), buffer.tab_width as int);
    let (line, col) = v.cursor_coords(buffer);
    assert(after.cursor_coords(buffer) == (line, col));
    assert(after.inner_area_spec(buffer) == v.inner_area_spec(buffer));
    assert(after.gutter_offset_spec(buffer) == v.gutter_offset_spec(buffer));
    assert(after.offset.row <= v.offset.row || after.offset.row <= line);
    assert(after.offset.col <= v.offset.col || after.offset.col <= col);
}

/// Calling `ensure_cursor_in_view` twice scrolls no more than calling it
/// once (under the conditions of `lemma_cursor_in_view_after_ensure`): the
/// second call keeps the offset the first one gave.
pub proof fn lemma_ensure_twice(v: &BufferView, once: &BufferView, twice: &BufferView, buffer: &Buffer, scrolloff: nat)
    requires
        v.can_scroll(buffer),
        once.same_but_offset(v),
        (once.offset.row as int, once.offset.col as int) == (match v.offset_to_view_spec(buffer, scrolloff as int, false) {
            Some(o) => o,
            None => (v.offset.row as int, v.offset.col as int),
        }),
        twice.same_but_offset(once),
        (twice.offset.row as int, twice.offset.col as int) == (match once.offset_to_view_spec(buffer, scrolloff as int, false) {
            Some(o) => o,
            None => (once.offset.row as int, once.offset.col as int),
        }),
        v.inner_area_spec(buffer).height >= 1,
        v.inner_area_spec(buffer).width >= 1,
        2 * min_int(scrolloff as int, (v.inner_area_spec(buffer).height - 1) / 2) <= v.inner_area_spec(buffer).width - 1,
    ensures
        twice.offset == once.offset,
{
    lemma_cursor_in_view_after_ensure(v, once, buffer, scrolloff);
}

/// The history after an access ends with the buffer accessed, holds what it
/// held and that buffer, and stays free of repeats.
pub proof fn lemma_history_after_access(h: Seq<BufferID>, id: BufferID)
    ensures
        history_after_access(h, id).len() > 0,
        history_after_access(h, id).last() == id,
        forall|x: BufferID| #[trigger] history_after_access(h, id).contains(x) <==> (h.contains(x) || x == id),
        h.no_duplicates() ==> history_after_access(h, id).no_duplicates(),
{
    lemma_first_index(h, id);
    let r = history_after_access(h, id);
    if h.contains(id) {
        let p = first_index(h, id);
        assert forall|x: BufferID| #[trigger] r.contains(x) <==> (h.contains(x) || x == id) by {
            if h.contains(x) && x != id {
                let i = choose|i: int| 0 <= i < h.len() && h[i] == x;
                if i < p {
                    assert(r[i] == x);
                } else {
                    assert(i != p);
                    assert(r[i - 1] == x);
                }
            }
            if x == id {
                assert(r[r.len() - 1] == x);
            }
            if r.contains(x) {
                let i = choose|i: int| 0 <= i < r.len() && r[i] == x;
                if i < r.len() - 1 {
                    if i < p {
                        assert(h[i] == x);
                    } else {
                        assert(h[i + 1] == x);
                    }
                }
            }
        }
        if h.no_duplicates() {
            assert forall|i: int, j: int| 0 <= i < r.len() && 0 <= j < r.len() && i != j implies r[i] != r[j] by {
                let hi = if i < p { i } else { i + 1 };
                let hj = if j < p { j } else { j + 1 };
                if i < r.len() - 1 && j < r.len() - 1 {
                    assert(r[i] == h[hi] && r[j] == h[hj]);
                } else if i == r.len() - 1 && j < r.len() - 1 {
                    assert(r[j] == h[hj]);
                    assert(hj != p);
                } else if j == r.len() - 1 && i < r.len() - 1 {
                    assert(r[i] == h[hi]);
                    assert(hi != p);
                }
            }
        }
    } else {
        assert forall|x: BufferID| #[trigger] r.contains(x) <==> (h.contains(x) || x == id) by {
            if h.contains(x) {
                let i = choose|i: int| 0 <= i < h.len() && h[i] == x;
                assert(r[i] == x);
            }
            if x == id {
                assert(r[r.len() - 1] == x);
            }
            if r.contains(x) {
                let i = choose|i: int| 0 <= i < r.len() && r[i] == x;
                if i < h.len() {
                    assert(h[i] == x);
                }
            }
        }
    }
}

} // verus!
