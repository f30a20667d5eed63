//! The gutter columns drawn left of a view's text, and how wide each is.

use crate::buffer::Buffer;
use crate::text::{last_line_idx, lemma_line_start_ge, len_lines, line_start, line_to_char};
use vstd::prelude::*;

verus! {

/// A kind of gutter column.
#[derive(Debug, Clone, Copy, PartialEq, Eq, Structural)]
pub enum GutterComponents {
    Diagnostics,
    DiagnosticsAndBreakpoints,
    LineNumbers,
    Spacer,
    VcsDiff,
}

/// How line numbers are counted.
#[derive(Debug, Clone, Copy, PartialEq, Eq, Structural)]
pub enum LineNumberMode {
    Absolute,
    Relative,
}

/// The number of decimal digits of `n` (one for zero).
pub open spec fn digits(n: nat) -> nat
    decreases n,
{
    if n < 10 {
        1
    } else {
        1 + digits(n / 10)
    }
}

/// The number of decimal digits of `n` (one for zero).
pub fn count_digits(n: usize) -> (d: usize)
    ensures
        d == digits(n as nat),
        1 <= d <= 20,
{
    proof {
        lemma_digits_bound(n as nat);
    }
    let mut m = n;
    let mut d: usize = 1;
    while m >= 10
        invariant
            d + digits(m as nat) == 1 + digits(n as nat),
            1 <= d,
            d + digits(m as nat) <= 21,
        decreases m,
    {
        m = m / 10;
        d = d + 1;
    }
    d
}

/// Width of the line-number column for text `t`: the digits of the last
/// line number drawn, at least two. The last line is drawn where it is not
/// empty.
pub open spec fn line_numbers_width_spec(t: Seq<char>) -> int {
    let last_line = len_lines(t) - 1;
    let last_drawn = if line_start(t, last_line) < t.len() { last_line + 1 } else { last_line };
    let d = digits(last_drawn as nat) as int;
    if d > 2 { d } else { 2 }
}

/// Width of gutter column `g` for text `t`.
pub open spec fn gutter_width_spec(g: GutterComponents, t: Seq<char>) -> int {
    match g {
        GutterComponents::LineNumbers => line_numbers_width_spec(t),
        _ => 1,
    }
}

/// Total width of the gutter columns `gs` for text `t`.
pub open spec fn gutters_width_spec(gs: Seq<GutterComponents>, t: Seq<char>) -> int
    decreases gs.len(),
{
    if gs.len() == 0 {
        0
    } else {
        gutters_width_spec(gs.drop_last(), t) + gutter_width_spec(gs.last(), t)
    }
}

proof fn lemma_digits_bound(n: nat)
    requires
        n <= usize::MAX,
    ensures
        1 <= digits(n) <= 20,
{
    assert(digits(n) <= 20) by {
        reveal_with_fuel(digits, 21);
    }
}

impl GutterComponents {
    /// Width of the column for `buffer`'s text.
    pub fn width(&self, buffer: &Buffer) -> (w: usize)
        ensures
            w == gutter_width_spec(*self, buffer.text@),
            1 <= w <= 20,
    {
        match self {
            GutterComponents::LineNumbers => {
                let text = buffer.text();
                let last_line = last_line_idx(text);
                proof {
                    lemma_line_start_ge(text@, last_line as int);
                }
                let last_drawn = if line_to_char(text, last_line) < text.len() {
                    last_line + 1
                } else {
                    last_line
                };
                let d = count_digits(last_drawn);
                if d > 2 {
                    d
                } else {
                    2
                }
            },
            _ => 1,
        }
    }
}

} // verus!
