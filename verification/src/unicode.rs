//! The Unicode tables that the editor consults: grapheme clusters, display
//! widths, the White_Space and Alphanumeric properties and the general category
//! of a char. White_Space is a short list, stated and checked here; the others
//! are computed by the outside crates or by `char`'s methods, and the
//! contracts here say what those results are named and the few facts that
//! their documentation gives.

use unicode_general_category::get_general_category;
use unicode_segmentation::UnicodeSegmentation;
use unicode_width::UnicodeWidthStr;
use vstd::prelude::*;

verus! {

/// Sum of a sequence of lengths.
pub open spec fn seq_sum(s: Seq<usize>) -> int
    decreases s.len(),
{
    if s.len() == 0 {
        0
    } else {
        seq_sum(s.drop_last()) + s.last()
    }
}

/// The lengths, in chars, of the extended grapheme clusters of `text`, in order.
pub uninterp spec fn grapheme_cluster_lengths(text: Seq<char>) -> Seq<usize>;

/// The display width of `s` according to the Unicode width tables.
pub uninterp spec fn unicode_str_width(s: Seq<char>) -> usize;

/// Whether `c` has the Unicode White_Space property: tab, line feed, line
/// tabulation, form feed, carriage return, space, next line, no-break space,
/// ogham space mark, the spaces from en quad to hair space, line separator,
/// paragraph separator, narrow no-break space, medium mathematical space and
/// ideographic space.
pub open spec fn unicode_white_space(c: char) -> bool {
    let v = c as int;
    ||| 0x09 <= v <= 0x0D
    ||| v == 0x20
    ||| v == 0x85
    ||| v == 0xA0
    ||| v == 0x1680
    ||| 0x2000 <= v <= 0x200A
    ||| v == 0x2028
    ||| v == 0x2029
    ||| v == 0x202F
    ||| v == 0x205F
    ||| v == 0x3000
}

/// Whether `c` is alphabetic or numeric in the Unicode sense.
pub uninterp spec fn unicode_alphanumeric(c: char) -> bool;

/// The general category of `c`, as its position in the declaration of
/// `unicode_general_category::GeneralCategory` (`ClosePunctuation` is 0,
/// `UppercaseLetter` is 29).
pub uninterp spec fn general_category_code(c: char) -> u8;

/// Splits `text` with `UnicodeSegmentation::graphemes(_, true)` and returns the
/// char length of each extended grapheme cluster. The clusters partition the
/// text and none is empty, so the lengths are positive and add up to the
/// length of the text.
#[verifier::external_body]
pub(crate) fn grapheme_lengths(text: &[char]) -> (r: Vec<usize>)
    ensures
        r@ == grapheme_cluster_lengths(text@),
        forall|i: int| 0 <= i < r@.len() ==> r@[i] >= 1,
        seq_sum(r@) == text@.len(),
{
    let s: String = text.iter().collect();
    s.graphemes(true).map(|g| g.chars().count()).collect()
}

/// Display width of the chars of `s`, from `UnicodeWidthStr::width`.
#[verifier::external_body]
pub(crate) fn str_width(s: &[char]) -> (w: usize)
    ensures
        w == unicode_str_width(s@),
{
    let s: String = s.iter().collect();
    UnicodeWidthStr::width(s.as_str())
}

/// Whether `c` has the White_Space property (as `char::is_whitespace`).
pub fn is_unicode_whitespace(c: char) -> (b: bool)
    ensures
        b == unicode_white_space(c),
{
    let v = c as u32;
    (0x09 <= v && v <= 0x0D) || v == 0x20 || v == 0x85 || v == 0xA0 || v == 0x1680 || (0x2000 <= v && v
        <= 0x200A) || v == 0x2028 || v == 0x2029 || v == 0x202F || v == 0x205F || v == 0x3000
}

/// `char::is_alphanumeric`: whether `c` is alphabetic or numeric.
#[verifier::external_body]
pub(crate) fn is_unicode_alphanumeric(c: char) -> (b: bool)
    ensures
        b == unicode_alphanumeric(c),
{
    c.is_alphanumeric()
}

/// `unicode_general_category::get_general_category`, as the variant's position
/// in the enum's declaration; the enum has 30 variants.
#[verifier::external_body]
pub(crate) fn general_category(c: char) -> (code: u8)
    ensures
        code == general_category_code(c),
        code < 30,
{
    get_general_category(c) as u8
}

} // verus!
