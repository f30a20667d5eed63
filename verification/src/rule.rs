//! Selection rules: the moves and text objects that map one range to
//! another, and the application of a rule to every range of a selection,
//! repeated `count` times.

use crate::movement::{
    move_next_paragraph, move_next_paragraph_spec, move_prev_paragraph, move_prev_paragraph_spec,
};
use crate::selection::{range_in, Range, RuleContext, Selection};
use crate::textobject::{paragraph, paragraph_spec, TextObject};
use vstd::prelude::*;

verus! {

/// The rules a selection can be transformed by.
#[derive(Copy, Clone, PartialEq, Eq, Debug, Structural)]
pub enum SelectionRule {
    MovePrevParagraph,
    MoveNextParagraph,
    Paragraph,
}

/// What a rule asks of its context.
pub open spec fn rule_requires(rule: SelectionRule, textobject: Option<TextObject>) -> bool {
    match rule {
        SelectionRule::Paragraph => textobject.is_some(),
        _ => true,
    }
}

pub open spec fn range_of(p: (int, int)) -> Range {
    Range { anchor: p.0 as usize, head: p.1 as usize, old_visual_position: None }
}

/// The range that `rule` maps `r` to.
pub open spec fn rule_spec(
    rule: SelectionRule,
    t: Seq<char>,
    extend: bool,
    textobject: Option<TextObject>,
    r: Range,
) -> Range {
    match rule {
        SelectionRule::MovePrevParagraph => range_of(move_prev_paragraph_spec(t, r, extend)),
        SelectionRule::MoveNextParagraph => range_of(move_next_paragraph_spec(t, r, extend)),
        SelectionRule::Paragraph => range_of(paragraph_spec(t, r, textobject.unwrap())),
    }
}

/// `rule` applied `n` times to `r`, stopping once a step leaves the range unchanged.
pub open spec fn repeat_rule_spec(
    rule: SelectionRule,
    t: Seq<char>,
    extend: bool,
    textobject: Option<TextObject>,
    r: Range,
    n: nat,
) -> Range
    decreases n,
{
    if n == 0 {
        r
    } else {
        let next = rule_spec(rule, t, extend, textobject, r);
        if next == r {
            r
        } else {
            repeat_rule_spec(rule, t, extend, textobject, next, (n - 1) as nat)
        }
    }
}

/// Applies `rule` to `range`.
pub fn apply_rule(rule: SelectionRule, range: Range, rule_cx: &RuleContext) -> (r: Range)
    requires
        range_in(range, rule_cx.text@.len() as int),
        rule_requires(rule, rule_cx.ts_textobject),
    ensures
        r == rule_spec(rule, rule_cx.text@, rule_cx.extend, rule_cx.ts_textobject, range),
        range_in(r, rule_cx.text@.len() as int),
{
    match rule {
        SelectionRule::MovePrevParagraph => move_prev_paragraph(range, rule_cx),
        SelectionRule::MoveNextParagraph => move_next_paragraph(range, rule_cx),
        SelectionRule::Paragraph => paragraph(range, rule_cx),
    }
}

/// Applies `rule` to `range` up to `count` times, stopping early once the
/// range no longer changes.
pub fn repeat_rule(rule: SelectionRule, range: Range, rule_cx: &RuleContext, count: usize) -> (r:
    Range)
    requires
        range_in(range, rule_cx.text@.len() as int),
        rule_requires(rule, rule_cx.ts_textobject),
    ensures
        r == repeat_rule_spec(
            rule,
            rule_cx.text@,
            rule_cx.extend,
            rule_cx.ts_textobject,
            range,
            count as nat,
        ),
        range_in(r, rule_cx.text@.len() as int),
{
    let mut cur = range;
    let mut i: usize = 0;
    while i < count
        invariant
            i <= count,
            range_in(cur, rule_cx.text@.len() as int),
            rule_requires(rule, rule_cx.ts_textobject),
            repeat_rule_spec(rule, rule_cx.text@, rule_cx.extend, rule_cx.ts_textobject, range, count as nat)
                == repeat_rule_spec(rule, rule_cx.text@, rule_cx.extend, rule_cx.ts_textobject, cur, (count - i) as nat),
        decreases count - i,
    {
        let next = apply_rule(rule, cur, rule_cx);
        if next == cur {
            return cur;
        }
        cur = next;
        i = i + 1;
    }
    cur
}

impl Selection {
    /// Every range of the selection lies within a text of `len` chars.
    pub open spec fn ranges_in(&self, len: int) -> bool {
        forall|i: int| 0 <= i < self.ranges@.len() ==> range_in(#[trigger] self.ranges@[i], len)
    }

    /// Maps every range of the selection by `rule`, repeated `count` times
    /// (see `repeat_rule`). The primary index is kept; the ranges are not merged.
    pub fn transform_pure(&self, rule: SelectionRule, rule_cx: &RuleContext, count: usize) -> (s:
        Selection)
        requires
            self.wf(),
            self.ranges_in(rule_cx.text@.len() as int),
            rule_requires(rule, rule_cx.ts_textobject),
            count >= 1,
        ensures
            s.wf(),
            s.primary_index == self.primary_index,
            s.ranges@.len() == self.ranges@.len(),
            forall|i: int|
                0 <= i < s.ranges@.len() ==> #[trigger] s.ranges@[i] == repeat_rule_spec(
                    rule,
                    rule_cx.text@,
                    rule_cx.extend,
                    rule_cx.ts_textobject,
                    self.ranges@[i],
                    count as nat,
                ),
            s.ranges_in(rule_cx.text@.len() as int),
    {
        let mut out: Vec<Range> = Vec::new();
        let mut i: usize = 0;
        while i < self.ranges.len()
            invariant
                i <= self.ranges@.len(),
                out@.len() == i,
                self.ranges_in(rule_cx.text@.len() as int),
                rule_requires(rule, rule_cx.ts_textobject),
                forall|j: int|
                    0 <= j < i ==> #[trigger] out@[j] == repeat_rule_spec(
                        rule,
                        rule_cx.text@,
                        rule_cx.extend,
                        rule_cx.ts_textobject,
                        self.ranges@[j],
                        count as nat,
                    ),
                forall|j: int| 0 <= j < i ==> range_in(#[trigger] out@[j], rule_cx.text@.len() as int),
            decreases self.ranges.len() - i,
        {
            let r = repeat_rule(rule, self.ranges[i], rule_cx, count);
            out.push(r);
            i = i + 1;
        }
        Selection { ranges: out, primary_index: self.primary_index }
    }
}

} // verus!
