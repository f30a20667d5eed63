//! Ranges and selections of a text.
//!
//! A range has an anchor and a head, both char indices. With block-cursor
//! semantics the cursor of a forward range is the grapheme before its head.

use crate::graphemes::{
    next_grapheme_boundary, next_grapheme_boundary_spec, prev_grapheme_boundary,
    prev_grapheme_boundary_spec, segmented,
};
use crate::movement::Direction;
use crate::textobject::TextObject;
use crate::text::{char_to_line, len_lines, line_of};
use vstd::prelude::*;

verus! {

/// A remembered (row, column) pair.
#[derive(Clone, Copy, Debug, PartialEq, Eq, Structural)]
pub struct VisualPosition {
    pub row: u32,
    pub col: u32,
}

/// A range of text between an anchor and a head.
#[derive(Clone, Copy, Debug, PartialEq, Eq, Structural)]
pub struct Range {
    pub anchor: usize,
    pub head: usize,
    /// The row and column that vertical moves aim at, kept between moves.
    pub old_visual_position: Option<VisualPosition>,
}

/// Both ends of `r` lie within a text of `len` chars.
pub open spec fn range_in(r: Range, len: int) -> bool {
    r.anchor <= len && r.head <= len
}

/// The char index the cursor of `r` sits on.
pub open spec fn cursor_spec(t: Seq<char>, r: Range) -> int {
    if r.head > r.anchor {
        prev_grapheme_boundary_spec(t, r.head as int)
    } else {
        r.head as int
    }
}

/// The range `r` with its cursor put on `idx`; with `extend` the anchor stays
/// (adjusted so the grapheme under the old cursor stays selected).
pub open spec fn put_cursor_spec(t: Seq<char>, r: Range, idx: int, extend: bool) -> (int, int) {
    if extend {
        let anchor = if r.head >= r.anchor && idx < r.anchor {
            next_grapheme_boundary_spec(t, r.anchor as int)
        } else if r.head < r.anchor && idx >= r.anchor {
            prev_grapheme_boundary_spec(t, r.anchor as int)
        } else {
            r.anchor as int
        };
        if anchor <= idx {
            (anchor, next_grapheme_boundary_spec(t, idx))
        } else {
            (anchor, idx)
        }
    } else {
        (idx, idx)
    }
}

impl Range {
    pub fn new(anchor: usize, head: usize) -> (r: Range)
        ensures
            r.anchor == anchor,
            r.head == head,
            r.old_visual_position.is_none(),
    {
        Range { anchor, head, old_visual_position: None }
    }

    /// An empty range at `head`.
    pub fn point(head: usize) -> (r: Range)
        ensures
            r.anchor == head,
            r.head == head,
            r.old_visual_position.is_none(),
    {
        Range::new(head, head)
    }

    /// The smaller end.
    pub fn from(&self) -> (r: usize)
        ensures
            r == if self.anchor <= self.head { self.anchor } else { self.head },
    {
        if self.anchor <= self.head {
            self.anchor
        } else {
            self.head
        }
    }

    /// The larger end.
    pub fn to(&self) -> (r: usize)
        ensures
            r == if self.anchor <= self.head { self.head } else { self.anchor },
    {
        if self.anchor <= self.head {
            self.head
        } else {
            self.anchor
        }
    }

    /// `Backward` when the head is before the anchor, else `Forward`.
    pub fn direction(&self) -> (d: Direction)
        ensures
            d == (if self.head < self.anchor { Direction::Backward } else { Direction::Forward }),
    {
        if self.head < self.anchor {
            Direction::Backward
        } else {
            Direction::Forward
        }
    }

    /// Swaps anchor and head.
    pub fn flip(&self) -> (r: Range)
        ensures
            r.anchor == self.head,
            r.head == self.anchor,
            r.old_visual_position.is_none(),
    {
        Range::new(self.head, self.anchor)
    }

    /// The same range, flipped when its direction is not `direction`.
    pub fn with_direction(self, direction: Direction) -> (r: Range)
        ensures
            (self.head < self.anchor) == (direction == Direction::Backward) ==> r == self,
            (self.head < self.anchor) != (direction == Direction::Backward) ==> (r.anchor
                == self.head && r.head == self.anchor && r.old_visual_position.is_none()),
    {
        let d = self.direction();
        if d == direction {
            self
        } else {
            self.flip()
        }
    }

    /// The char index the cursor sits on.
    pub fn cursor(&self, text: &[char]) -> (c: usize)
        requires
            range_in(*self, text@.len() as int),
        ensures
            c == cursor_spec(text@, *self),
            c <= text@.len(),
            segmented(text@),
    {
        let _ = next_grapheme_boundary(text, 0);
        if self.head > self.anchor {
            prev_grapheme_boundary(text, self.head)
        } else {
            self.head
        }
    }

    /// The line the cursor sits on.
    pub fn cursor_line(&self, text: &[char]) -> (l: usize)
        requires
            range_in(*self, text@.len() as int),
        ensures
            l == line_of(text@, cursor_spec(text@, *self)),
            l < len_lines(text@),
            segmented(text@),
            cursor_spec(text@, *self) <= text@.len(),
    {
        let c = self.cursor(text);
        char_to_line(text, c)
    }

    /// Puts the cursor on `char_idx`, extending the range when `extend` is set.
    pub fn put_cursor(&self, text: &[char], char_idx: usize, extend: bool) -> (r: Range)
        requires
            range_in(*self, text@.len() as int),
            char_idx <= text@.len(),
        ensures
            (r.anchor as int, r.head as int) == put_cursor_spec(text@, *self, char_idx as int, extend),
            r.old_visual_position.is_none(),
            range_in(r, text@.len() as int),
            segmented(text@),
    {
        let _ = next_grapheme_boundary(text, 0);
        if extend {
            let anchor = if self.head >= self.anchor && char_idx < self.anchor {
                next_grapheme_boundary(text, self.anchor)
            } else if self.head < self.anchor && char_idx >= self.anchor {
                prev_grapheme_boundary(text, self.anchor)
            } else {
                self.anchor
            };
            if anchor <= char_idx {
                Range::new(anchor, next_grapheme_boundary(text, char_idx))
            } else {
                Range::new(anchor, char_idx)
            }
        } else {
            Range::point(char_idx)
        }
    }
}

/// What a selection rule reads besides the range it moves.
pub struct RuleContext<'a> {
    pub text: &'a [char],
    /// Whether the rule extends the range instead of moving it.
    pub extend: bool,
    /// A count or position handed to the rule.
    pub pos_arg: usize,
    /// The text object a text-object rule selects.
    pub ts_textobject: Option<TextObject>,
    /// The direction a rule searches in, where it has one.
    pub direction: Option<Direction>,
    /// The char a rule looks for, where it looks for one.
    pub find_char: Option<char>,
}

/// One or more ranges, one of which is the primary range.
#[derive(Debug)]
pub struct Selection {
    pub ranges: Vec<Range>,
    pub primary_index: usize,
}

/// A selection is seen as its ranges and its primary index.
impl View for Selection {
    type V = (Seq<Range>, usize);

    open spec fn view(&self) -> (Seq<Range>, usize) {
        (self.ranges@, self.primary_index)
    }
}

impl Clone for Selection {
    fn clone(&self) -> (s: Selection)
        ensures
            s@ == self@,
    {
        let mut ranges: Vec<Range> = Vec::new();
        let mut i: usize = 0;
        while i < self.ranges.len()
            invariant
                0 <= i <= self.ranges@.len(),
                ranges@ == self.ranges@.take(i as int),
            decreases self.ranges.len() - i,
        {
            ranges.push(self.ranges[i]);
            i = i + 1;
            proof {
                assert(ranges@ =~= self.ranges@.take(i as int));
            }
        }
        proof {
            assert(ranges@ =~= self.ranges@);
        }
        Selection { ranges, primary_index: self.primary_index }
    }
}

impl Selection {
    /// The selection is well formed: it has a range, and its primary index points at one.
    pub open spec fn wf(&self) -> bool {
        self.ranges@.len() >= 1 && self.primary_index < self.ranges@.len()
    }

    /// A selection of the single range `range`.
    pub fn single_range(range: Range) -> (s: Selection)
        ensures
            s.wf(),
            s.ranges@ == seq![range],
            s.primary_index == 0,
    {
        let mut v = Vec::new();
        v.push(range);
        Selection { ranges: v, primary_index: 0 }
    }

    /// A selection of one empty range at `pos`.
    pub fn point(pos: usize) -> (s: Selection)
        ensures
            s.wf(),
            s.ranges@ == seq![Range { anchor: pos, head: pos, old_visual_position: None }],
            s.primary_index == 0,
    {
        Selection::single_range(Range::point(pos))
    }

    /// The primary range.
    pub fn primary(&self) -> (r: Range)
        requires
            self.wf(),
        ensures
            r == self.ranges@[self.primary_index as int],
    {
        self.ranges[self.primary_index]
    }

    /// Whether two selections hold the same ranges and the same primary index.
    pub fn same_as(&self, other: &Selection) -> (b: bool)
        ensures
            b == (self.ranges@ == other.ranges@ && self.primary_index == other.primary_index),
    {
        if self.primary_index != other.primary_index || self.ranges.len() != other.ranges.len() {
            return false;
        }
        let mut i: usize = 0;
        while i < self.ranges.len()
            invariant
                self.ranges@.len() == other.ranges@.len(),
                0 <= i <= self.ranges@.len(),
                forall|j: int| 0 <= j < i ==> self.ranges@[j] == other.ranges@[j],
            decreases self.ranges.len() - i,
        {
            if self.ranges[i] != other.ranges[i] {
                return false;
            }
            i = i + 1;
        }
        proof {
            assert(self.ranges@ =~= other.ranges@);
        }
        true
    }
}

} // verus!
