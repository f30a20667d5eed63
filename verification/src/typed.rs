//! What typed commands compute from their arguments and the text: sorting
//! the selected fragments, reading an indent style or a line ending, the
//! line endings to rewrite, and the steps of going to a line from the prompt.

use crate::command::{chars_of, chars_of_all, join_spec, parse_usize, parse_usize_spec, push_joined, LineEnding};
use crate::selection::{range_in, Range, Selection};
use crate::strings::{push_str, string_from_chars};
use vstd::prelude::*;
use vstd::seq_lib::*;

verus! {

/// Whether `a` comes before `b` or equals it, comparing char by char (the
/// order of strings, since UTF-8 keeps the order of code points).
pub open spec fn lex_le(a: Seq<char>, b: Seq<char>) -> bool
    decreases a.len(),
{
    if a.len() == 0 {
        true
    } else if b.len() == 0 {
        false
    } else if (a[0] as int) < (b[0] as int) {
        true
    } else if (a[0] as int) > (b[0] as int) {
        false
    } else {
        lex_le(a.drop_first(), b.drop_first())
    }
}

/// Any two strings are ordered one way or the other.
pub proof fn lemma_lex_total(a: Seq<char>, b: Seq<char>)
    ensures
        lex_le(a, b) || lex_le(b, a),
    decreases a.len(),
{
    if a.len() > 0 && b.len() > 0 && a[0] == b[0] {
        lemma_lex_total(a.drop_first(), b.drop_first());
    }
}

/// The order is transitive.
pub proof fn lemma_lex_trans(a: Seq<char>, b: Seq<char>, c: Seq<char>)
    requires
        lex_le(a, b),
        lex_le(b, c),
    ensures
        lex_le(a, c),
    decreases a.len(),
{
    if a.len() > 0 && b.len() > 0 && c.len() > 0 && a[0] == b[0] && b[0] == c[0] {
        lemma_lex_trans(a.drop_first(), b.drop_first(), c.drop_first());
    }
}

/// Two strings each before the other are equal.
pub proof fn lemma_lex_antisym(a: Seq<char>, b: Seq<char>)
    requires
        lex_le(a, b),
        lex_le(b, a),
    ensures
        a == b,
    decreases a.len(),
{
    if a.len() > 0 {
        lemma_lex_antisym(a.drop_first(), b.drop_first());
        assert(a =~= seq![a[0]] + a.drop_first());
        assert(b =~= seq![b[0]] + b.drop_first());
    }
}

/// Whether `a` comes before `b` in the order asked for: ascending, or
/// descending with `reverse`.
pub open spec fn in_order(a: Seq<char>, b: Seq<char>, reverse: bool) -> bool {
    if reverse {
        lex_le(b, a)
    } else {
        lex_le(a, b)
    }
}

/// Whether `s` is sorted in the order asked for.
pub open spec fn sorted_by(s: Seq<Seq<char>>, reverse: bool) -> bool {
    forall|i: int, j: int| 0 <= i < j < s.len() ==> #[trigger] in_order(s[i], s[j], reverse)
}

/// Sorting has one result: two arrangements of the same strings, each as
/// often, that are both sorted the same way, are equal.
pub proof fn lemma_sorted_unique(a: Seq<Seq<char>>, b: Seq<Seq<char>>, reverse: bool)
    requires
        a.to_multiset() == b.to_multiset(),
        sorted_by(a, reverse),
        sorted_by(b, reverse),
    ensures
        a == b,
    decreases a.len(),
{
    broadcast use group_to_multiset_ensures;
    if a.len() == 0 {
        assert(b.to_multiset().len() == 0);
        assert(b =~= a);
    } else {
        to_multiset_len(a);
        to_multiset_len(b);
        assert(b.len() == a.len());
        assert(a.contains(a[0]));
        assert(b.to_multiset().count(a[0]) > 0);
        assert(b.contains(a[0]));
        let i = choose|i: int| 0 <= i < b.len() && b[i] == a[0];
        assert(b.contains(b[0]));
        assert(a.to_multiset().count(b[0]) > 0);
        assert(a.contains(b[0]));
        let j = choose|j: int| 0 <= j < a.len() && a[j] == b[0];
        // each first element comes before or equals the other
        if a[0] != b[0] {
            assert(in_order(b[0], b[i], reverse));
            assert(in_order(a[0], a[j], reverse));
            lemma_lex_antisym(a[0], b[0]);
        }
        to_multiset_remove(a, 0);
        to_multiset_remove(b, 0);
        assert(a.remove(0) =~= a.drop_first());
        assert(b.remove(0) =~= b.drop_first());
        assert(sorted_by(a.drop_first(), reverse)) by {
            assert forall|x: int, y: int| 0 <= x < y < a.drop_first().len() implies #[trigger] in_order(
                a.drop_first()[x],
                a.drop_first()[y],
                reverse,
            ) by {
                assert(in_order(a[x + 1], a[y + 1], reverse));
            }
        }
        assert(sorted_by(b.drop_first(), reverse)) by {
            assert forall|x: int, y: int| 0 <= x < y < b.drop_first().len() implies #[trigger] in_order(
                b.drop_first()[x],
                b.drop_first()[y],
                reverse,
            ) by {
                assert(in_order(b[x + 1], b[y + 1], reverse));
            }
        }
        lemma_sorted_unique(a.drop_first(), b.drop_first(), reverse);
        assert(a =~= seq![a[0]] + a.drop_first());
        assert(b =~= seq![b[0]] + b.drop_first());
    }
}

/// The chars of each vector.
pub open spec fn views(v: Seq<Vec<char>>) -> Seq<Seq<char>> {
    v.map_values(|x: Vec<char>| x@)
}

/// Whether `a` comes before `b` or equals it.
pub(crate) fn lex_le_exec(a: &Vec<char>, b: &Vec<char>) -> (r: bool)
    ensures
        r == lex_le(a@, b@),
{
    let mut i: usize = 0;
    proof {
        assert(a@.skip(0) =~= a@);
        assert(b@.skip(0) =~= b@);
    }
    while i < a.len() && i < b.len() && a[i] == b[i]
        invariant
            0 <= i <= a@.len(),
            i <= b@.len(),
            lex_le(a@, b@) == lex_le(a@.skip(i as int), b@.skip(i as int)),
        decreases a.len() - i,
    {
        proof {
            assert(a@.skip(i as int).drop_first() =~= a@.skip(i + 1));
            assert(b@.skip(i as int).drop_first() =~= b@.skip(i + 1));
        }
        i = i + 1;
    }
    if i == a.len() {
        true
    } else if i == b.len() {
        false
    } else {
        a[i] < b[i]
    }
}

/// Whether `a` comes before `b` in the order asked for.
fn in_order_exec(a: &Vec<char>, b: &Vec<char>, reverse: bool) -> (r: bool)
    ensures
        r == in_order(a@, b@, reverse),
{
    if reverse {
        lex_le_exec(b, a)
    } else {
        lex_le_exec(a, b)
    }
}

/// The fragments sorted, ascending or, with `reverse`, descending: the same
/// fragments, each as often, in order.
pub fn sort_fragments(fragments: Vec<Vec<char>>, reverse: bool) -> (r: Vec<Vec<char>>)
    ensures
        views(r@).to_multiset() == views(fragments@).to_multiset(),
        sorted_by(views(r@), reverse),
{
    let mut out: Vec<Vec<char>> = Vec::new();
    let mut rest = fragments;
    let ghost all = views(rest@);
    let mut k: usize = 0;
    let total = rest.len();
    proof {
        assert(views(out@) =~= Seq::<Seq<char>>::empty());
        assert(all.take(0) =~= Seq::<Seq<char>>::empty());
    }
    while rest.len() > 0
        invariant
            all.len() == k + rest@.len(),
            all.len() == total,
            views(rest@) == all.skip(k as int),
            views(out@).to_multiset() == all.take(k as int).to_multiset(),
            sorted_by(views(out@), reverse),
        decreases rest.len(),
    {
        let ghost old_rest = rest@;
        let x = rest.remove(0);
        let ghost xv = x@;
        proof {
            assert(old_rest[0] == x);
            assert(views(old_rest)[0] == xv);
            assert(all.skip(k as int)[0] == all[k as int]);
            assert(all[k as int] == xv);
            assert(rest@ =~= old_rest.drop_first());
            assert(views(rest@) =~= views(old_rest).drop_first());
            assert(views(rest@) =~= all.skip(k + 1));
        }
        // The place of `x`: after every fragment that comes before it or equals it.
        let mut p: usize = 0;
        while p < out.len() && in_order_exec(&out[p], &x, reverse)
            invariant
                0 <= p <= out@.len(),
                forall|j: int| 0 <= j < p ==> #[trigger] in_order(out@[j]@, xv, reverse),
                x@ == xv,
            decreases out.len() - p,
        {
            p = p + 1;
        }
        let ghost old_out = views(out@);
        proof {
            assert forall|j: int| p <= j < old_out.len() implies #[trigger] in_order(xv, old_out[j], reverse) by {
                assert(!in_order(old_out[p as int], xv, reverse));
                if reverse {
                    lemma_lex_total(xv, old_out[p as int]);
                } else {
                    lemma_lex_total(old_out[p as int], xv);
                }
                if j > p {
                    assert(in_order(old_out[p as int], old_out[j], reverse));
                    if reverse {
                        lemma_lex_trans(old_out[j], old_out[p as int], xv);
                    } else {
                        lemma_lex_trans(xv, old_out[p as int], old_out[j]);
                    }
                }
            }
        }
        out.insert(p, x);
        proof {
            let nv = views(out@);
            assert(nv =~= old_out.insert(p as int, xv));
            to_multiset_insert(old_out, p as int, xv);
            assert(all.take(k + 1) =~= all.take(k as int).push(xv));
            to_multiset_build(all.take(k as int), xv);
            assert forall|i: int, j: int| 0 <= i < j < nv.len() implies #[trigger] in_order(nv[i], nv[j], reverse) by {
                if j < p {
                    assert(in_order(old_out[i], old_out[j], reverse));
                } else if j == p {
                    assert(in_order(old_out[i], xv, reverse));
                } else if i < p {
                    assert(in_order(old_out[i], xv, reverse));
                    assert(in_order(xv, old_out[j - 1], reverse));
                    if reverse {
                        lemma_lex_trans(old_out[j - 1], xv, old_out[i]);
                    } else {
                        lemma_lex_trans(old_out[i], xv, old_out[j - 1]);
                    }
                } else if i == p {
                    assert(in_order(xv, old_out[j - 1], reverse));
                } else {
                    assert(in_order(old_out[i - 1], old_out[j - 1], reverse));
                }
            }
        }
        k = k + 1;
    }
    proof {
        assert(all.take(k as int) =~= all);
    }
    out
}

/// Start of `r`: the smaller of anchor and head.
pub open spec fn range_from(r: Range) -> int {
    if r.anchor <= r.head { r.anchor as int } else { r.head as int }
}

/// End of `r`: the larger of anchor and head.
pub open spec fn range_to(r: Range) -> int {
    if r.anchor <= r.head { r.head as int } else { r.anchor as int }
}

/// The text each range of `ranges` covers, in their order.
pub open spec fn fragments_of(t: Seq<char>, ranges: Seq<Range>) -> Seq<Seq<char>> {
    Seq::new(ranges.len(), |i: int| t.subrange(range_from(ranges[i]), range_to(ranges[i])))
}

/// The chars `text[from..to]`.
fn slice_chars(text: &[char], from: usize, to: usize) -> (v: Vec<char>)
    requires
        from <= to <= text@.len(),
    ensures
        v@ == text@.subrange(from as int, to as int),
{
    let mut v: Vec<char> = Vec::new();
    let mut i: usize = from;
    while i < to
        invariant
            from <= i <= to <= text@.len(),
            v@ == text@.subrange(from as int, i as int),
        decreases to - i,
    {
        v.push(text[i]);
        i = i + 1;
        proof {
            assert(v@ =~= text@.subrange(from as int, i as int));
        }
    }
    v
}

/// The changes that sort the selected fragments: range `i` of the selection
/// is replaced by fragment `i` of the fragments sorted ascending (descending
/// with `reverse`), so the same fragments stand in sorted order.
pub fn sort_changes(text: &[char], selection: &Selection, reverse: bool) -> (r: Vec<(usize, usize, Vec<char>)>)
    requires
        forall|i: int| 0 <= i < selection.ranges@.len() ==> range_in(#[trigger] selection.ranges@[i], text@.len() as int),
    ensures
        r@.len() == selection.ranges@.len(),
        forall|i: int| 0 <= i < r@.len() ==> {
            &&& (#[trigger] r@[i]).0 == range_from(selection.ranges@[i])
            &&& r@[i].1 == range_to(selection.ranges@[i])
        },
        Seq::new(r@.len(), |i: int| r@[i].2@).to_multiset() == fragments_of(text@, selection.ranges@).to_multiset(),
        sorted_by(Seq::new(r@.len(), |i: int| r@[i].2@), reverse),
{
    let n = selection.ranges.len();
    let mut fragments: Vec<Vec<char>> = Vec::new();
    let mut i: usize = 0;
    while i < n
        invariant
            n == selection.ranges@.len(),
            0 <= i <= n,
            forall|j: int| 0 <= j < n ==> range_in(#[trigger] selection.ranges@[j], text@.len() as int),
            views(fragments@) == fragments_of(text@, selection.ranges@).take(i as int),
        decreases n - i,
    {
        let range = selection.ranges[i];
        let f = slice_chars(text, range.from(), range.to());
        let ghost fv = f@;
        let ghost before = fragments@;
        fragments.push(f);
        i = i + 1;
        proof {
            assert(fv == fragments_of(text@, selection.ranges@)[i - 1]);
            assert(fragments@ == before.push(f));
            assert(views(fragments@) =~= views(before).push(fv));
            assert(views(fragments@) =~= fragments_of(text@, selection.ranges@).take(i as int));
        }
    }
    proof {
        assert(views(fragments@) =~= fragments_of(text@, selection.ranges@));
    }
    let sorted = sort_fragments(fragments, reverse);
    proof {
        to_multiset_len(views(sorted@));
        to_multiset_len(fragments_of(text@, selection.ranges@));
    }
    let mut r: Vec<(usize, usize, Vec<char>)> = Vec::new();
    let mut sorted = sorted;
    let ghost sv = views(sorted@);
    let mut j: usize = 0;
    while j < n
        invariant
            n == selection.ranges@.len(),
            sv.len() == n,
            0 <= j <= n,
            views(sorted@) == sv.skip(j as int),
            r@.len() == j,
            forall|m: int| 0 <= m < j ==> {
                &&& (#[trigger] r@[m]).0 == range_from(selection.ranges@[m])
                &&& r@[m].1 == range_to(selection.ranges@[m])
                &&& r@[m].2@ == sv[m]
            },
        decreases n - j,
    {
        let range = selection.ranges[j];
        let ghost before = sorted@;
        proof {
            assert(views(before).len() == before.len());
        }
        let f = sorted.remove(0);
        proof {
            assert(views(before)[0] == f@);
            assert(sv.skip(j as int)[0] == sv[j as int]);
            assert(views(sorted@) =~= views(before).drop_first());
            assert(views(sorted@) =~= sv.skip(j + 1));
        }
        r.push((range.from(), range.to(), f));
        j = j + 1;
    }
    proof {
        assert(Seq::new(r@.len(), |i: int| r@[i].2@) =~= sv);
    }
    r
}

/// How a buffer indents: with tabs, or with a number of spaces.
#[derive(Debug, Clone, Copy, PartialEq, Eq, Structural)]
pub enum IndentStyle {
    Tabs,
    Spaces(u8),
}

/// Whether `tabs` begins with the lowercase of `a`. Only `A` to `Z` lower to
/// the ASCII letters of `tabs`, so each char of `a` is the letter of `tabs`
/// at its place, in either case.
pub open spec fn names_tabs(a: Seq<char>) -> bool {
    a.len() <= 4 && forall|i: int|
        0 <= i < a.len() ==> (#[trigger] a[i] == seq!['t', 'a', 'b', 's'][i] || a[i] == seq!['T', 'A', 'B', 'S'][i])
}

/// The indent style an argument names: tabs for a beginning of `tabs` (in
/// any case) or for `0`; else a number of spaces from 1 to 8.
pub open spec fn indent_style_of(a: Seq<char>) -> Option<IndentStyle> {
    if names_tabs(a) || a == seq!['0'] {
        Some(IndentStyle::Tabs)
    } else {
        match parse_usize_spec(a) {
            Some(n) => if 1 <= n <= 8 { Some(IndentStyle::Spaces(n as u8)) } else { None },
            None => None,
        }
    }
}

/// Whether a buffer may hold the style: tabs, or 1 to 8 spaces.
pub open spec fn valid_indent_style(s: IndentStyle) -> bool {
    match s {
        IndentStyle::Tabs => true,
        IndentStyle::Spaces(n) => 1 <= n <= 8,
    }
}

/// How the style is reported: `tabs`, `1 space`, or `n spaces`.
pub open spec fn indent_style_name(s: IndentStyle) -> Seq<char> {
    match s {
        IndentStyle::Tabs => seq!['t', 'a', 'b', 's'],
        IndentStyle::Spaces(n) => if n == 1 {
            seq!['1', ' ', 's', 'p', 'a', 'c', 'e']
        } else {
            seq![(48 + n) as char, ' ', 's', 'p', 'a', 'c', 'e', 's']
        },
    }
}

/// The indent style that the argument of `:indent-style` names, if it names one.
pub fn parse_indent_style(arg: &str) -> (r: Option<IndentStyle>)
    ensures
        r == indent_style_of(arg@),
{
    let a = chars_of(arg);
    let lower = ['t', 'a', 'b', 's'];
    let upper = ['T', 'A', 'B', 'S'];
    if a.len() <= 4 {
        let mut i: usize = 0;
        while i < a.len() && (a[i] == lower[i] || a[i] == upper[i])
            invariant
                a@ == arg@,
                a@.len() <= 4,
                0 <= i <= a@.len(),
                lower@ == seq!['t', 'a', 'b', 's'],
                upper@ == seq!['T', 'A', 'B', 'S'],
                forall|j: int|
                    0 <= j < i ==> (#[trigger] a@[j] == seq!['t', 'a', 'b', 's'][j] || a@[j] == seq!['T', 'A', 'B', 'S'][j]),
            decreases a.len() - i,
        {
            i = i + 1;
        }
        if i == a.len() {
            return Some(IndentStyle::Tabs);
        }
        proof {
            assert(!(a@[i as int] == seq!['t', 'a', 'b', 's'][i as int] || a@[i as int] == seq!['T', 'A', 'B', 'S'][i as int]));
        }
    }
    if a.len() == 1 && a[0] == '0' {
        proof {
            assert(a@ =~= seq!['0']);
        }
        return Some(IndentStyle::Tabs);
    }
    proof {
        assert(a@ != seq!['0']);
    }
    match parse_usize(&a) {
        Some(n) => if 1 <= n && n <= 8 {
            Some(IndentStyle::Spaces(n as u8))
        } else {
            None
        },
        None => None,
    }
}

/// How `:indent-style` without an argument reports the buffer's style.
pub fn indent_style_status(style: IndentStyle) -> (s: String)
    requires
        valid_indent_style(style),
    ensures
        s@ == indent_style_name(style),
{
    let mut v: Vec<char> = Vec::new();
    match style {
        IndentStyle::Tabs => {
            push_str(&mut v, "tabs");
            proof {
                reveal_strlit("tabs");
            }
        },
        IndentStyle::Spaces(n) => {
            if n == 1 {
                push_str(&mut v, "1 space");
                proof {
                    reveal_strlit("1 space");
                }
            } else {
                v.push((48 + n) as char);
                push_str(&mut v, " spaces");
                proof {
                    reveal_strlit(" spaces");
                }
            }
        },
    }
    proof {
        assert(v@ =~= indent_style_name(style));
    }
    string_from_chars(v.as_slice())
}

/// Whether `a` begins with `lower` once its ASCII capitals are lowered:
/// each of its first chars is the char of `lower` there or of `upper`, its
/// capital.
pub open spec fn starts_with_ascii_ci(a: Seq<char>, lower: Seq<char>, upper: Seq<char>) -> bool {
    a.len() >= lower.len() && forall|i: int|
        0 <= i < lower.len() ==> (#[trigger] a[i] == lower[i] || a[i] == upper[i])
}

/// The line ending an argument names: one that begins with `crlf`, else with
/// `lf`, in any case.
pub open spec fn line_ending_of(a: Seq<char>) -> Option<LineEnding> {
    if starts_with_ascii_ci(a, seq!['c', 'r', 'l', 'f'], seq!['C', 'R', 'L', 'F']) {
        Some(LineEnding::CRLF)
    } else if starts_with_ascii_ci(a, seq!['l', 'f'], seq!['L', 'F']) {
        Some(LineEnding::LF)
    } else {
        None
    }
}

/// How a line ending is reported.
pub open spec fn line_ending_name(e: LineEnding) -> Seq<char> {
    match e {
        LineEnding::CRLF => seq!['c', 'r', 'l', 'f'],
        LineEnding::LF => seq!['l', 'i', 'n', 'e', ' ', 'f', 'e', 'e', 'd'],
    }
}

/// Whether `a` begins with `lower` in any ASCII case (see `starts_with_ascii_ci`).
fn starts_with_ci(a: &Vec<char>, lower: &[char], upper: &[char]) -> (b: bool)
    requires
        lower@.len() == upper@.len(),
    ensures
        b == starts_with_ascii_ci(a@, lower@, upper@),
{
    if a.len() < lower.len() {
        return false;
    }
    let mut i: usize = 0;
    while i < lower.len()
        invariant
            lower@.len() == upper@.len(),
            a@.len() >= lower@.len(),
            0 <= i <= lower@.len(),
            forall|j: int| 0 <= j < i ==> (#[trigger] a@[j] == lower@[j] || a@[j] == upper@[j]),
        decreases lower.len() - i,
    {
        if a[i] != lower[i] && a[i] != upper[i] {
            return false;
        }
        i = i + 1;
    }
    true
}

/// The line ending that the argument of `:line-ending` names, if it names one.
pub fn parse_line_ending(arg: &str) -> (r: Option<LineEnding>)
    ensures
        r == line_ending_of(arg@),
{
    let a = chars_of(arg);
    let crlf_lower = ['c', 'r', 'l', 'f'];
    let crlf_upper = ['C', 'R', 'L', 'F'];
    let lf_lower = ['l', 'f'];
    let lf_upper = ['L', 'F'];
    proof {
        assert(crlf_lower@ == seq!['c', 'r', 'l', 'f']);
        assert(crlf_upper@ == seq!['C', 'R', 'L', 'F']);
        assert(lf_lower@ == seq!['l', 'f']);
        assert(lf_upper@ == seq!['L', 'F']);
    }
    if starts_with_ci(&a, crlf_lower.as_slice(), crlf_upper.as_slice()) {
        Some(LineEnding::CRLF)
    } else if starts_with_ci(&a, lf_lower.as_slice(), lf_upper.as_slice()) {
        Some(LineEnding::LF)
    } else {
        None
    }
}

/// How `:line-ending` without an argument reports the buffer's line ending.
pub fn line_ending_status(e: LineEnding) -> (s: String)
    ensures
        s@ == line_ending_name(e),
{
    let mut v: Vec<char> = Vec::new();
    match e {
        LineEnding::CRLF => {
            push_str(&mut v, "crlf");
            proof {
                reveal_strlit("crlf");
            }
        },
        LineEnding::LF => {
            push_str(&mut v, "line feed");
            proof {
                reveal_strlit("line feed");
            }
        },
    }
    proof {
        assert(v@ =~= line_ending_name(e));
    }
    string_from_chars(v.as_slice())
}

/// The line ending that ends with the line feed at `i`: CRLF where a carriage
/// return stands before it.
pub open spec fn ending_at(t: Seq<char>, i: int) -> LineEnding {
    if i > 0 && t[i - 1] == '\r' {
        LineEnding::CRLF
    } else {
        LineEnding::LF
    }
}

/// The spans of the line endings of `t` that are not `target`, in order.
pub open spec fn ending_changes(t: Seq<char>, target: LineEnding) -> Seq<(int, int)>
    decreases t.len(),
{
    if t.len() == 0 {
        Seq::empty()
    } else {
        let i = t.len() - 1;
        let rest = ending_changes(t.drop_last(), target);
        if t[i] == '\n' && ending_at(t, i) != target {
            rest.push((if ending_at(t, i) == LineEnding::CRLF { i - 1 } else { i }, i + 1))
        } else {
            rest
        }
    }
}

/// The spans as integers.
pub open spec fn spans(v: Seq<(usize, usize)>) -> Seq<(int, int)> {
    v.map_values(|p: (usize, usize)| (p.0 as int, p.1 as int))
}

/// The spans of `text` that `:line-ending` replaces by the new line ending:
/// each line ending of another kind.
pub fn line_ending_changes(text: &[char], target: LineEnding) -> (r: Vec<(usize, usize)>)
    ensures
        spans(r@) == ending_changes(text@, target),
{
    let mut r: Vec<(usize, usize)> = Vec::new();
    let mut i: usize = 0;
    proof {
        assert(text@.take(0) =~= Seq::<char>::empty());
    }
    while i < text.len()
        invariant
            0 <= i <= text@.len(),
            spans(r@) == ending_changes(text@.take(i as int), target),
        decreases text.len() - i,
    {
        let t = Ghost(text@.take(i + 1));
        proof {
            assert(t@.drop_last() =~= text@.take(i as int));
            assert(t@[i as int] == text@[i as int]);
            if i > 0 {
                assert(t@[i - 1] == text@[i - 1]);
            }
        }
        if text[i] == '\n' {
            let crlf = i > 0 && text[i - 1] == '\r';
            let kind = if crlf { LineEnding::CRLF } else { LineEnding::LF };
            if kind != target {
                let start = if crlf { i - 1 } else { i };
                r.push((start, i + 1));
            }
        }
        i = i + 1;
        proof {
            assert(spans(r@) =~= ending_changes(text@.take(i as int), target));
        }
    }
    proof {
        assert(text@.take(i as int) =~= text@);
    }
    r
}

/// What happened at the prompt: its input changed, it was entered, or it was left.
#[derive(Debug, Clone, Copy, PartialEq, Eq, Structural)]
pub enum PromptEvent {
    Abort,
    Update,
    Validate,
}

/// Why going to a line failed.
#[derive(Debug, Clone, Copy, PartialEq, Eq, Structural)]
pub enum GotoLineError {
    /// The prompt was entered without a line number.
    LineNumberRequired,
    /// The first argument is no number.
    InvalidNumber,
}

/// What `:goto` does on a prompt event: the line number to remember for
/// going back, the line to go to (and keep in view), and the error, if any.
#[derive(Debug, Clone, Copy, PartialEq, Eq, Structural)]
pub struct GotoLineStep {
    pub last_line_number: Option<usize>,
    pub goto: Option<usize>,
    pub error: Option<GotoLineError>,
}

/// The step for `event` with arguments `args`, the remembered line number
/// `last` and the cursor on line `cursor_line` (counted from 0):
/// - leaving the prompt goes back to the remembered line and forgets it;
/// - emptying the input does the same; other input first remembers the
///   cursor's line (counted from 1) unless a line is remembered already;
/// - entering the prompt needs an argument, and forgets the remembered line;
/// - then the first argument, read as a number, is the line to go to.
pub open spec fn goto_line_step_spec(
    event: PromptEvent,
    args: Seq<Seq<char>>,
    last: Option<usize>,
    cursor_line: usize,
) -> GotoLineStep {
    let go = |l: Option<usize>|
        match parse_usize_spec(args[0]) {
            Some(n) => GotoLineStep { last_line_number: l, goto: Some(n as usize), error: None },
            None => GotoLineStep { last_line_number: l, goto: None, error: Some(GotoLineError::InvalidNumber) },
        };
    match event {
        PromptEvent::Abort => GotoLineStep { last_line_number: None, goto: last, error: None },
        PromptEvent::Validate => if args.len() == 0 {
            GotoLineStep { last_line_number: last, goto: None, error: Some(GotoLineError::LineNumberRequired) }
        } else {
            go(None)
        },
        PromptEvent::Update => if args.len() == 0 {
            GotoLineStep { last_line_number: None, goto: last, error: None }
        } else {
            go(if last.is_some() { last } else { Some((cursor_line + 1) as usize) })
        },
    }
}

/// Typing line numbers into the prompt and then leaving it, or emptying it,
/// goes back to the line the cursor was on before the first number (counted
/// from 1), whatever was typed in between.
pub proof fn lemma_goto_returns(first: Seq<Seq<char>>, then: Seq<Seq<char>>, c1: usize, c2: usize, leave: bool)
    requires
        first.len() > 0,
        then.len() > 0,
        c1 < usize::MAX,
    ensures
        ({
            let s1 = goto_line_step_spec(PromptEvent::Update, first, None, c1);
            let s2 = goto_line_step_spec(PromptEvent::Update, then, s1.last_line_number, c2);
            let back = if leave {
                goto_line_step_spec(PromptEvent::Abort, then, s2.last_line_number, c2)
            } else {
                goto_line_step_spec(PromptEvent::Update, Seq::empty(), s2.last_line_number, c2)
            };
            &&& s2.last_line_number == Some((c1 + 1) as usize)
            &&& back.goto == Some((c1 + 1) as usize)
            &&& back.last_line_number.is_none()
        }),
{
}

/// What `:goto` does on `event` (see `goto_line_step_spec`).
pub fn goto_line_step(event: PromptEvent, args: &[String], last_line_number: Option<usize>, cursor_line: usize) -> (s: GotoLineStep)
    requires
        cursor_line < usize::MAX,
    ensures
        s == goto_line_step_spec(event, args@.map_values(|a: String| a@), last_line_number, cursor_line),
{
    let ghost av = args@.map_values(|a: String| a@);
    let last = match event {
        PromptEvent::Abort => {
            return GotoLineStep { last_line_number: None, goto: last_line_number, error: None };
        },
        PromptEvent::Validate => {
            if args.len() == 0 {
                return GotoLineStep {
                    last_line_number,
                    goto: None,
                    error: Some(GotoLineError::LineNumberRequired),
                };
            }
            None
        },
        PromptEvent::Update => {
            if args.len() == 0 {
                return GotoLineStep { last_line_number: None, goto: last_line_number, error: None };
            }
            match last_line_number {
                Some(n) => Some(n),
                None => Some(cursor_line + 1),
            }
        },
    };
    let a = chars_of(args[0].as_str());
    proof {
        assert(av[0] == a@);
    }
    match parse_usize(&a) {
        Some(n) => GotoLineStep { last_line_number: last, goto: Some(n), error: None },
        None => GotoLineStep { last_line_number: last, goto: None, error: Some(GotoLineError::InvalidNumber) },
    }
}

/// What `:lsp-workspace-command` does.
#[derive(Debug)]
pub enum WorkspaceAction {
    /// Nothing (the prompt was not entered).
    Nothing,
    /// Show this status message.
    Status(String),
    /// Offer these commands in a picker.
    Pick(Vec<String>),
    /// Run this command on the language server.
    Execute(String),
}

/// The action as the contracts see it.
pub enum WorkspaceActionView {
    Nothing,
    Status(Seq<char>),
    Pick(Seq<Seq<char>>),
    Execute(Seq<char>),
}

pub open spec fn workspace_action_view(a: WorkspaceAction) -> WorkspaceActionView {
    match a {
        WorkspaceAction::Nothing => WorkspaceActionView::Nothing,
        WorkspaceAction::Status(m) => WorkspaceActionView::Status(m@),
        WorkspaceAction::Pick(cs) => WorkspaceActionView::Pick(cs@.map_values(|c: String| c@)),
        WorkspaceAction::Execute(c) => WorkspaceActionView::Execute(c@),
    }
}

/// What `:lsp-workspace-command` does when the prompt is entered with
/// arguments `args`, where `has_server` tells whether the buffer has a
/// language server and `supported` lists the workspace commands it supports
/// (`None` where it supports none): without a server, or without support,
/// it says so; without arguments it offers the supported commands; else it
/// runs the arguments joined by spaces where that is a supported command,
/// and says it is not supported otherwise.
pub open spec fn workspace_action_spec(
    event: PromptEvent,
    has_server: bool,
    supported: Option<Seq<Seq<char>>>,
    args: Seq<Seq<char>>,
) -> WorkspaceActionView {
    if event != PromptEvent::Validate {
        WorkspaceActionView::Nothing
    } else if !has_server {
        WorkspaceActionView::Status("Language server not active for current buffer"@)
    } else {
        match supported {
            None => WorkspaceActionView::Status("Workspace commands are not supported for this language server"@),
            Some(cs) => if args.len() == 0 {
                WorkspaceActionView::Pick(cs)
            } else {
                let command = join_spec(args, " "@);
                if cs.contains(command) {
                    WorkspaceActionView::Execute(command)
                } else {
                    WorkspaceActionView::Status(seq!['`'] + command + "` is not supported for this language server"@)
                }
            },
        }
    }
}

/// What `:lsp-workspace-command` does (see `workspace_action_spec`).
pub fn workspace_command_action(
    event: PromptEvent,
    has_server: bool,
    supported: Option<&Vec<String>>,
    args: &[String],
) -> (a: WorkspaceAction)
    ensures
        workspace_action_view(a) == workspace_action_spec(
            event,
            has_server,
            match supported {
                Some(v) => Some(v@.map_values(|c: String| c@)),
                None => None,
            },
            args@.map_values(|x: String| x@),
        ),
{
    if event != PromptEvent::Validate {
        return WorkspaceAction::Nothing;
    }
    if !has_server {
        return WorkspaceAction::Status(String::from_str("Language server not active for current buffer"));
    }
    let cs = match supported {
        Some(cs) => cs,
        None => {
            return WorkspaceAction::Status(
                String::from_str("Workspace commands are not supported for this language server"),
            );
        },
    };
    let ghost cv = cs@.map_values(|c: String| c@);
    if args.len() == 0 {
        let mut list: Vec<String> = Vec::new();
        let mut i: usize = 0;
        while i < cs.len()
            invariant
                cv == cs@.map_values(|c: String| c@),
                0 <= i <= cs@.len(),
                list@.len() == i,
                forall|j: int| 0 <= j < i ==> #[trigger] list@[j]@ == cv[j],
            decreases cs.len() - i,
        {
            list.push(cs[i].clone());
            i = i + 1;
        }
        proof {
            assert(list@.map_values(|c: String| c@) =~= cv);
        }
        return WorkspaceAction::Pick(list);
    }
    let parts = chars_of_all(args);
    let mut joined: Vec<char> = Vec::new();
    push_joined(&mut joined, &parts, " ");
    proof {
        assert(joined@ =~= join_spec(args@.map_values(|x: String| x@), " "@));
    }
    let command = string_from_chars(joined.as_slice());
    let mut i: usize = 0;
    while i < cs.len()
        invariant
            cv == cs@.map_values(|c: String| c@),
            0 <= i <= cs@.len(),
            forall|j: int| 0 <= j < i ==> cv[j] != command@,
            command@ == join_spec(args@.map_values(|x: String| x@), " "@),
            supported == Some(cs),
            args@.len() > 0,
            event == PromptEvent::Validate,
            has_server,
        decreases cs.len() - i,
    {
        if cs[i] == command {
            proof {
                assert(cv[i as int] == command@);
                assert(cv.contains(command@));
                assert(command@ == join_spec(args@.map_values(|x: String| x@), " "@));
            }
            return WorkspaceAction::Execute(command);
        }
        i = i + 1;
    }
    let mut msg: Vec<char> = Vec::new();
    msg.push('`');
    push_str(&mut msg, command.as_str());
    push_str(&mut msg, "` is not supported for this language server");
    proof {
        assert(msg@ =~= seq!['`'] + command@ + "` is not supported for this language server"@);
    }
    WorkspaceAction::Status(string_from_chars(msg.as_slice()))
}

} // verus!
