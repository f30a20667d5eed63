//! The cells of the health report's table: each item cut to the column's
//! width, measured in UTF-8 bytes as string slicing measures it, and padded
//! with spaces to the width, measured in chars as formatting measures it.

use crate::strings::string_from_chars;
use vstd::prelude::*;
use vstd::string::StrSliceExecFns;

verus! {

/// Bytes of `c` in UTF-8.
pub open spec fn utf8_len(c: char) -> nat {
    if (c as int) < 0x80 {
        1
    } else if (c as int) < 0x800 {
        2
    } else if (c as int) < 0x10000 {
        3
    } else {
        4
    }
}

/// Bytes of `s` in UTF-8.
pub open spec fn byte_len(s: Seq<char>) -> nat
    decreases s.len(),
{
    if s.len() == 0 {
        0
    } else {
        byte_len(s.drop_last()) + utf8_len(s.last())
    }
}

/// Whether the first `k` chars of `s` fill exactly its first `n` bytes.
pub open spec fn fills(s: Seq<char>, k: int, n: int) -> bool {
    0 <= k <= s.len() && byte_len(s.take(k)) == n
}

/// The chars of the first `n` bytes of `s`, where `n` falls on a char
/// boundary within `s` (as `str::get(..n)` gives them).
pub open spec fn byte_prefix(s: Seq<char>, n: int) -> Option<Seq<char>> {
    if exists|k: int| fills(s, k, n) {
        Some(s.take(choose|k: int| fills(s, k, n)))
    } else {
        None
    }
}

/// `s` padded with spaces to `width` chars.
pub open spec fn pad_to(s: Seq<char>, width: int) -> Seq<char> {
    if s.len() < width {
        s + Seq::new((width - s.len()) as nat, |i: int| ' ')
    } else {
        s
    }
}

/// A cell of the table: where `item` reaches `width - 2` bytes at a char
/// boundary, those bytes and an ellipsis; else the whole item; then padded to
/// `width` chars.
pub open spec fn column_spec(item: Seq<char>, width: int) -> Seq<char> {
    let shown = match byte_prefix(item, width - 2) {
        Some(p) => p.push('…'),
        None => item,
    };
    pad_to(shown, width)
}

proof fn lemma_byte_len_grows(s: Seq<char>, a: int, b: int)
    requires
        0 <= a < b <= s.len(),
    ensures
        byte_len(s.take(a)) < byte_len(s.take(b)),
    decreases b - a,
{
    assert(s.take(b).drop_last() =~= s.take(b - 1));
    if a < b - 1 {
        lemma_byte_len_grows(s, a, b - 1);
    }
}

/// Bytes of `c` in UTF-8.
fn char_bytes(c: char) -> (n: usize)
    ensures
        n == utf8_len(c),
{
    let v = c as u32;
    if v < 0x80 {
        1
    } else if v < 0x800 {
        2
    } else if v < 0x10000 {
        3
    } else {
        4
    }
}

/// The cell of the health table that shows `item` in a column `column_width`
/// wide (see `column_spec`).
pub fn health_column(item: &str, column_width: usize) -> (cell: String)
    requires
        column_width >= 2,
    ensures
        cell@ == column_spec(item@, column_width as int),
{
    let n = item.unicode_len();
    let limit = column_width - 2;
    // Walk the chars while their bytes stay within the limit.
    let mut k: usize = 0;
    let mut bytes: usize = 0;
    proof {
        assert(item@.take(0) =~= Seq::<char>::empty());
    }
    while k < n && bytes < limit
        invariant
            n == item@.len(),
            0 <= k <= n,
            bytes == byte_len(item@.take(k as int)),
            bytes <= limit,
            forall|j: int| 0 <= j < k ==> byte_len(#[trigger] item@.take(j)) < limit,
        ensures
            n == item@.len(),
            0 <= k <= n,
            bytes == byte_len(item@.take(k as int)),
            bytes <= limit,
            forall|j: int| 0 <= j < k ==> byte_len(#[trigger] item@.take(j)) < limit,
            bytes == limit || k == n || byte_len(item@.take(k + 1)) > limit,
        decreases n - k,
    {
        let c = item.get_char(k);
        let b = char_bytes(c);
        proof {
            assert(item@.take(k + 1).drop_last() =~= item@.take(k as int));
        }
        if b > limit - bytes {
            break;
        }
        bytes = bytes + b;
        k = k + 1;
    }
    let ghost at_boundary = exists|j: int| fills(item@, j, limit as int);
    let mut shown: Vec<char> = Vec::new();
    let mut i: usize = 0;
    let cut = bytes == limit;
    proof {
        if cut {
            assert(fills(item@, k as int, limit as int));
        } else {
            assert forall|j: int| !fills(item@, j, limit as int) by {
                if fills(item@, j, limit as int) {
                    if j < k {
                        assert(byte_len(item@.take(j)) < limit);
                    } else if j > k {
                        if k + 1 < j {
                            lemma_byte_len_grows(item@, k + 1, j);
                        }
                    }
                }
            }
        }
    }
    let end = if cut { k } else { n };
    while i < end
        invariant
            end <= n == item@.len(),
            0 <= i <= end,
            shown@ == item@.take(i as int),
        decreases end - i,
    {
        shown.push(item.get_char(i));
        i = i + 1;
        proof {
            assert(shown@ =~= item@.take(i as int));
        }
    }
    if cut {
        shown.push('…');
    }
    let ghost unpadded = shown@;
    proof {
        assert(shown@ =~= unpadded + Seq::new(0nat, |x: int| ' '));
        if cut {
            let j = choose|j: int| fills(item@, j, limit as int);
            if j != k {
                if j < k {
                    lemma_byte_len_grows(item@, j, k as int);
                } else {
                    lemma_byte_len_grows(item@, k as int, j);
                }
            }
            assert(unpadded == item@.take(k as int).push('…'));
        } else {
            assert(item@.take(n as int) =~= item@);
        }
        assert(unpadded == match byte_prefix(item@, limit as int) {
            Some(p) => p.push('…'),
            None => item@,
        });
    }
    while shown.len() < column_width
        invariant
            unpadded.len() <= shown@.len(),
            shown@.len() <= column_width || shown@.len() == unpadded.len(),
            shown@ == unpadded + Seq::new((shown@.len() - unpadded.len()) as nat, |x: int| ' '),
        decreases column_width - shown.len(),
    {
        shown.push(' ');
        proof {
            assert(shown@ =~= unpadded + Seq::new((shown@.len() - unpadded.len()) as nat, |x: int| ' '));
        }
    }
    proof {
        if unpadded.len() >= column_width {
            assert(shown@ =~= unpadded);
        }
        assert(shown@ =~= pad_to(unpadded, column_width as int));
    }
    string_from_chars(shown.as_slice())
}

} // verus!
