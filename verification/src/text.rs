//! The line model of a text.
//!
//! A text is a sequence of `char`s. A line ends after each line feed
//! (`'\n'`); a carriage return before the line feed belongs to the same line
//! ending. The last line is the one after the last line feed, and may be empty.

use vstd::prelude::*;

verus! {

/// Char indices at which the lines of `t` start: `0`, then one past each line feed.
pub open spec fn line_starts(t: Seq<char>) -> Seq<int>
    decreases t.len(),
{
    if t.len() == 0 {
        seq![0int]
    } else {
        let s = line_starts(t.drop_last());
        if t.last() == '\n' {
            s.push(t.len() as int)
        } else {
            s
        }
    }
}

/// Number of lines of `t`: one more than its number of line feeds.
pub open spec fn len_lines(t: Seq<char>) -> nat {
    line_starts(t).len()
}

/// Index of the line that holds char index `pos`.
pub open spec fn line_of(t: Seq<char>, pos: int) -> int {
    line_starts(t.take(pos)).len() - 1
}

/// Char index at which line `l` starts; the end of the text for `l == len_lines(t)`.
pub open spec fn line_start(t: Seq<char>, l: int) -> int {
    if l < len_lines(t) {
        line_starts(t)[l]
    } else {
        t.len() as int
    }
}

/// Char index one past the last char of line `l` (its line ending included).
pub open spec fn line_end(t: Seq<char>, l: int) -> int {
    line_start(t, l + 1)
}

/// The chars of line `l`, its line ending included.
pub open spec fn line_content(t: Seq<char>, l: int) -> Seq<char> {
    t.subrange(line_start(t, l), line_end(t, l))
}

/// Whether `s` is exactly one line ending.
pub open spec fn is_line_ending_str(s: Seq<char>) -> bool {
    s == seq!['\n'] || s == seq!['\r', '\n']
}

/// Whether line `l` holds nothing but its line ending (the last line, which
/// has none, is blank where it is empty).
pub open spec fn line_is_blank(t: Seq<char>, l: int) -> bool {
    line_content(t, l).len() == 0 || is_line_ending_str(line_content(t, l))
}

/// Char index at which the line ending of line `l` starts (the end of the
/// text for the last line).
pub open spec fn line_end_char_index(t: Seq<char>, l: int) -> int {
    let e = line_end(t, l);
    let s = line_start(t, l);
    if e > s && t[e - 1] == '\n' {
        if e - 1 > s && t[e - 2] == '\r' {
            e - 2
        } else {
            e - 1
        }
    } else {
        e
    }
}

pub proof fn lemma_line_starts_basic(t: Seq<char>)
    ensures
        line_starts(t).len() >= 1,
        line_starts(t)[0] == 0,
        line_starts(t).last() <= t.len(),
        forall|i: int, j: int|
            0 <= i < j < line_starts(t).len() ==> line_starts(t)[i] < line_starts(t)[j],
        forall|i: int| 0 <= i < line_starts(t).len() ==> 0 <= #[trigger] line_starts(t)[i] <= t.len(),
        forall|i: int|
            0 < i < line_starts(t).len() ==> t[#[trigger] line_starts(t)[i] - 1] == '\n',
    decreases t.len(),
{
    if t.len() > 0 {
        lemma_line_starts_basic(t.drop_last());
    }
}

/// Line `i` starts at char index `i` or later.
pub proof fn lemma_line_start_ge(t: Seq<char>, i: int)
    requires
        0 <= i < len_lines(t),
    ensures
        line_starts(t)[i] >= i,
    decreases i,
{
    lemma_line_starts_basic(t);
    if i > 0 {
        lemma_line_start_ge(t, i - 1);
    }
}

/// The line starts of a prefix are a prefix of the line starts.
pub proof fn lemma_line_starts_prefix(t: Seq<char>, p: int)
    requires
        0 <= p <= t.len(),
    ensures
        line_starts(t.take(p)).len() <= line_starts(t).len(),
        line_starts(t.take(p)) == line_starts(t).take(line_starts(t.take(p)).len() as int),
        forall|i: int|
            line_starts(t.take(p)).len() <= i < line_starts(t).len() ==> line_starts(t)[i] > p,
    decreases t.len() - p,
{
    if p == t.len() {
        assert(t.take(p) == t);
    } else {
        lemma_line_starts_prefix(t, p + 1);
        let tp = t.take(p);
        let tp1 = t.take(p + 1);
        assert(tp1.drop_last() == tp);
        lemma_line_starts_basic(t);
        lemma_line_starts_basic(tp);
        lemma_line_starts_basic(tp1);
    }
}


proof fn lemma_take_step(t: Seq<char>, i: int)
    requires
        0 <= i < t.len(),
    ensures
        t.take(i + 1).drop_last() == t.take(i),
        t.take(i + 1).last() == t[i],
        t.take(i + 1).len() == i + 1,
{
    assert(t.take(i + 1).drop_last() =~= t.take(i));
}

/// No line feed among the chars at indices `a..b`.
pub open spec fn no_newline_in(t: Seq<char>, a: int, b: int) -> bool {
    forall|k: int| a <= k < b ==> #[trigger] t[k] != '\n'
}

proof fn lemma_no_newline_drop_last(t: Seq<char>, a: int, b: int)
    requires
        t.len() > 0,
        0 <= a,
        b <= t.len() - 1,
        no_newline_in(t.drop_last(), a, b),
    ensures
        no_newline_in(t, a, b),
{
    let u = t.drop_last();
    assert forall|k: int| a <= k < b implies #[trigger] t[k] != '\n' by {
        assert(t[k] == u[k]);
    }
}

/// After the last line start there is no line feed.
pub proof fn lemma_no_newline_after_last(t: Seq<char>)
    ensures
        no_newline_in(t, line_starts(t).last(), t.len() as int),
    decreases t.len(),
{
    lemma_line_starts_basic(t);
    if t.len() > 0 {
        let u = t.drop_last();
        lemma_no_newline_after_last(u);
        lemma_line_starts_basic(u);
        if t.last() != '\n' {
            assert(line_starts(t) == line_starts(u));
            lemma_no_newline_drop_last(t, line_starts(u).last(), u.len() as int);
            assert forall|k: int| line_starts(t).last() <= k < t.len() implies #[trigger] t[k]
                != '\n' by {
                if k == u.len() {
                    assert(t[k] == t.last());
                }
            }
        }
    }
}

/// Inside line `i`, before its line ending, there is no line feed.
pub proof fn lemma_no_newline_line(t: Seq<char>, i: int)
    requires
        0 <= i < line_starts(t).len() - 1,
    ensures
        no_newline_in(t, line_starts(t)[i], line_starts(t)[i + 1] - 1),
    decreases t.len(),
{
    lemma_line_starts_basic(t);
    let u = t.drop_last();
    let st = line_starts(t);
    let su = line_starts(u);
    lemma_line_starts_basic(u);
    if t.last() == '\n' {
        assert(st == su.push(t.len() as int));
        if i < su.len() - 1 {
            lemma_no_newline_line(u, i);
            lemma_no_newline_drop_last(t, su[i], su[i + 1] - 1);
        } else {
            lemma_no_newline_after_last(u);
            lemma_no_newline_drop_last(t, su.last(), u.len() as int);
        }
    } else {
        assert(st == su);
        lemma_no_newline_line(u, i);
        lemma_no_newline_drop_last(t, su[i], su[i + 1] - 1);
    }
}

/// Scanning back from line `l`: the first line of the run of lines before `l`
/// whose blankness is `blank` (`l` itself when the line before it differs).
pub open spec fn scan_back(t: Seq<char>, l: int, blank: bool) -> int
    decreases l,
{
    if l <= 0 {
        l
    } else if line_is_blank(t, l - 1) == blank {
        scan_back(t, l - 1, blank)
    } else {
        l
    }
}

/// Scanning forward from line `l`: the first line at or after `l` whose
/// blankness is not `blank` (the number of lines if there is none).
pub open spec fn scan_fwd(t: Seq<char>, l: int, blank: bool) -> int
    decreases len_lines(t) - l,
{
    if l >= len_lines(t) {
        l
    } else if line_is_blank(t, l) == blank {
        scan_fwd(t, l + 1, blank)
    } else {
        l
    }
}

proof fn lemma_scan_back_range(t: Seq<char>, l: int, blank: bool)
    requires
        0 <= l,
    ensures
        0 <= scan_back(t, l, blank) <= l,
    decreases l,
{
    if l > 0 && line_is_blank(t, l - 1) == blank {
        lemma_scan_back_range(t, l - 1, blank);
    }
}

proof fn lemma_scan_fwd_range(t: Seq<char>, l: int, blank: bool)
    requires
        0 <= l <= len_lines(t),
    ensures
        l <= scan_fwd(t, l, blank) <= len_lines(t),
    decreases len_lines(t) - l,
{
    if l < len_lines(t) && line_is_blank(t, l) == blank {
        lemma_scan_fwd_range(t, l + 1, blank);
    }
}

/// Steps back from line `l` over the lines before it whose blankness is `blank`.
pub fn scan_lines_back(text: &[char], l: usize, blank: bool) -> (r: usize)
    requires
        l <= len_lines(text@),
    ensures
        r == scan_back(text@, l as int, blank),
        r <= l,
{
    let mut k = l;
    proof {
        lemma_scan_back_range(text@, l as int, blank);
    }
    while k > 0
        invariant
            k <= l <= len_lines(text@),
            scan_back(text@, l as int, blank) == scan_back(text@, k as int, blank),
        decreases k,
    {
        if is_line_blank(text, k - 1) != blank {
            return k;
        }
        k = k - 1;
    }
    k
}

/// The start of the first line at or after line `l` whose blankness is not
/// `blank` (the end of the text if there is none).
pub fn scan_lines_fwd_start(text: &[char], l: usize, blank: bool) -> (p: usize)
    requires
        l < len_lines(text@),
    ensures
        p == line_start(text@, scan_fwd(text@, l as int, blank)),
        p <= text@.len(),
{
    let last = last_line_idx(text);
    let mut k = l;
    proof {
        lemma_scan_fwd_range(text@, l as int, blank);
    }
    loop
        invariant
            k <= last,
            last + 1 == len_lines(text@),
            scan_fwd(text@, l as int, blank) == scan_fwd(text@, k as int, blank),
        decreases last - k,
    {
        if is_line_blank(text, k) != blank {
            return line_to_char(text, k);
        }
        if k == last {
            proof {
                assert(scan_fwd(text@, (k + 1) as int, blank) == k + 1);
                lemma_line_starts_basic(text@);
            }
            return text.len();
        }
        k = k + 1;
    }
}

/// Index of the last line of `text` (its number of line feeds).
pub fn last_line_idx(text: &[char]) -> (n: usize)
    ensures
        n + 1 == len_lines(text@),
{
    let mut n: usize = 0;
    let mut i: usize = 0;
    proof {
        assert(text@.take(0) =~= Seq::<char>::empty());
    }
    while i < text.len()
        invariant
            0 <= i <= text@.len(),
            n + 1 == line_starts(text@.take(i as int)).len(),
            n <= i,
        decreases text.len() - i,
    {
        proof {
            lemma_take_step(text@, i as int);
        }
        if text[i] == '\n' {
            n = n + 1;
        }
        i = i + 1;
    }
    proof {
        assert(text@.take(i as int) =~= text@);
    }
    n
}

/// Index of the line that holds char index `pos`.
pub fn char_to_line(text: &[char], pos: usize) -> (l: usize)
    requires
        pos <= text@.len(),
    ensures
        l == line_of(text@, pos as int),
        l < len_lines(text@),
        line_start(text@, l as int) <= pos,
        pos < line_end(text@, l as int) || (pos == text@.len() && l + 1 == len_lines(text@)),
{
    let mut n: usize = 0;
    let mut i: usize = 0;
    proof {
        assert(text@.take(0) =~= Seq::<char>::empty());
    }
    while i < pos
        invariant
            0 <= i <= pos <= text@.len(),
            n + 1 == line_starts(text@.take(i as int)).len(),
            n <= i,
        decreases pos - i,
    {
        proof {
            lemma_take_step(text@, i as int);
        }
        if text[i] == '\n' {
            n = n + 1;
        }
        i = i + 1;
    }
    proof {
        lemma_line_starts_prefix(text@, pos as int);
        lemma_line_starts_basic(text@);
        lemma_line_starts_basic(text@.take(pos as int));
    }
    n
}

/// Char index at which line `l` starts; the end of the text when `l` is the
/// number of lines.
pub fn line_to_char(text: &[char], l: usize) -> (p: usize)
    requires
        l <= len_lines(text@),
    ensures
        p == line_start(text@, l as int),
        p <= text@.len(),
{
    proof {
        lemma_line_starts_basic(text@);
    }
    if l == 0 {
        return 0;
    }
    let mut n: usize = 0;
    let mut i: usize = 0;
    proof {
        assert(text@.take(0) =~= Seq::<char>::empty());
    }
    while i < text.len()
        invariant
            0 <= i <= text@.len(),
            0 < l <= len_lines(text@),
            n + 1 == line_starts(text@.take(i as int)).len(),
            n < l,
        decreases text.len() - i,
    {
        proof {
            lemma_take_step(text@, i as int);
        }
        if text[i] == '\n' {
            n = n + 1;
            if n == l {
                proof {
                    let ti = text@.take(i as int);
                    let ti1 = text@.take(i + 1);
                    assert(line_starts(ti1) == line_starts(ti).push(i + 1));
                    lemma_line_starts_prefix(text@, i + 1);
                    lemma_line_starts_basic(text@);
                    assert(line_starts(ti1)[l as int] == i + 1);
                    assert(line_starts(text@)[l as int] == line_starts(ti1)[l as int]);
                }
                return i + 1;
            }
        }
        i = i + 1;
    }
    proof {
        assert(text@.take(i as int) =~= text@);
    }
    text.len()
}

/// Start and end (line ending included) of line `l`.
pub fn line_bounds(text: &[char], l: usize) -> (r: (usize, usize))
    requires
        l < len_lines(text@),
    ensures
        r.0 == line_start(text@, l as int),
        r.1 == line_end(text@, l as int),
        r.0 < r.1 || (r.0 == r.1 && r.1 == text@.len() && l + 1 == len_lines(text@)),
        r.1 <= text@.len(),
{
    proof {
        lemma_line_starts_basic(text@);
    }
    let s = line_to_char(text, l);
    let ghost t = text@;
    let ghost nx: int = if l + 1 < len_lines(t) {
        line_starts(t)[l + 1]
    } else {
        t.len() as int + 1
    };
    proof {
        if l + 1 < len_lines(t) {
            lemma_no_newline_line(t, l as int);
        } else {
            lemma_no_newline_after_last(t);
        }
    }
    let mut j = s;
    while j < text.len()
        invariant
            s <= j <= text@.len(),
            t == text@,
            l < len_lines(t),
            s == line_start(t, l as int),
            nx <= t.len() ==> nx == line_end(t, l as int),
            nx > t.len() ==> line_end(t, l as int) == t.len() && l + 1 == len_lines(t),
            no_newline_in(t, s as int, nx - 1),
            nx <= t.len() ==> t[nx - 1] == '\n' && s < nx,
            no_newline_in(t, s as int, j as int),
        decreases text.len() - j,
    {
        if text[j] == '\n' {
            proof {
                assert(j >= nx - 1);
                if nx <= t.len() && nx - 1 > j {
                    assert(t[j as int] != '\n');
                }
            }
            return (s, j + 1);
        }
        j = j + 1;
    }
    proof {
        if nx <= t.len() {
            assert(t[nx - 1] != '\n');
        }
    }
    (s, text.len())
}

/// Whether line `l` holds nothing but its line ending.
pub fn is_line_blank(text: &[char], l: usize) -> (b: bool)
    requires
        l < len_lines(text@),
    ensures
        b == line_is_blank(text@, l as int),
{
    let (s, e) = line_bounds(text, l);
    let ghost c = line_content(text@, l as int);
    if e <= s {
        true
    } else if e - s == 1 {
        proof {
            assert(c.len() == 1 && c[0] == text@[s as int]);
            if text@[s as int] == '\n' {
                assert(c =~= seq!['\n']);
            }
        }
        text[s] == '\n'
    } else if e - s == 2 {
        proof {
            assert(c.len() == 2 && c[0] == text@[s as int] && c[1] == text@[s + 1]);
            if text@[s as int] == '\r' && text@[s + 1] == '\n' {
                assert(c =~= seq!['\r', '\n']);
            }
        }
        text[s] == '\r' && text[s + 1] == '\n'
    } else {
        false
    }
}

/// Char index at which the line ending of line `l` starts.
pub fn line_end_char_idx(text: &[char], l: usize) -> (p: usize)
    requires
        l < len_lines(text@),
    ensures
        p == line_end_char_index(text@, l as int),
        line_start(text@, l as int) <= p <= line_end(text@, l as int),
        p <= text@.len(),
{
    let (s, e) = line_bounds(text, l);
    if e > s && text[e - 1] == '\n' {
        if e - 1 > s && text[e - 2] == '\r' {
            e - 2
        } else {
            e - 1
        }
    } else {
        e
    }
}

} // verus!
