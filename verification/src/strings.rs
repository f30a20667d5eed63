//! Building strings char by char.

use vstd::prelude::*;
use vstd::string::StrSliceExecFns;

verus! {

/// The string of the chars `v`.
///
/// Trusted: calls std's `FromIterator<char>` for `String` (`collect`), whose
/// documentation says it builds the string of the chars in order; the
/// contract says the result's chars are `v`.
#[verifier::external_body]
pub(crate) fn string_from_chars(v: &[char]) -> (s: String)
    ensures
        s@ == v@,
{
    v.iter().collect()
}

/// The lowercase of `s`, as `str::to_lowercase` gives it.
pub uninterp spec fn lowercase(s: Seq<char>) -> Seq<char>;

/// `str::to_lowercase`: the lowercase of the text `v` by the Unicode tables
/// (a capital sigma's lowercase depends on the chars around it). The result
/// depends on the text alone; the contract names it.
#[verifier::external_body]
pub(crate) fn to_lowercase(v: &[char]) -> (r: Vec<char>)
    ensures
        r@ == lowercase(v@),
{
    let s: String = v.iter().collect();
    s.to_lowercase().chars().collect()
}

/// The text that `{:?}` gives for a list of strings (the list of `names`).
pub uninterp spec fn debug_list(names: Seq<Seq<char>>) -> Seq<char>;

/// `format!("{:?}", names)`: std's `Debug` text of a `Vec<String>`. The text
/// depends on the strings alone; the contract names it.
#[verifier::external_body]
pub(crate) fn debug_strings(names: &Vec<String>) -> (r: String)
    ensures
        r@ == debug_list(names@.map_values(|n: String| n@)),
{
    format!("{:?}", names)
}

/// Appends the chars of `s` to `v`.
pub(crate) fn push_str(v: &mut Vec<char>, s: &str)
    ensures
        final(v)@ == old(v)@ + s@,
{
    let n = s.unicode_len();
    let mut i: usize = 0;
    while i < n
        invariant
            n == s@.len(),
            0 <= i <= n,
            v@ == old(v)@ + s@.take(i as int),
        decreases n - i,
    {
        v.push(s.get_char(i));
        i = i + 1;
        proof {
            assert(v@ =~= old(v)@ + s@.take(i as int));
        }
    }
    proof {
        assert(s@.take(i as int) =~= s@);
    }
}

} // verus!
