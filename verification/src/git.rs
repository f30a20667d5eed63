//! The git diff provider: what is done to a file's committed contents
//! before they serve as the base of a diff.

use vstd::prelude::*;

verus! {

/// Reads diff bases from git repositories.
pub struct Git;

/// `data` with a carriage return put before each line feed that has none.
pub open spec fn crlf_spec(data: Seq<u8>) -> Seq<u8>
    decreases data.len(),
{
    if data.len() == 0 {
        data
    } else {
        let prev = crlf_spec(data.drop_last());
        let b = data.last();
        let at_cr = data.len() >= 2 && data[data.len() - 2] == 13u8;
        if b == 10u8 && !at_cr {
            prev.push(13u8).push(10u8)
        } else {
            prev.push(b)
        }
    }
}

/// Every line feed of `data` comes right after a carriage return.
pub open spec fn all_lf_after_cr(data: Seq<u8>) -> bool {
    forall|i: int| 0 <= i < data.len() && #[trigger] data[i] == 10u8 ==> i > 0 && data[i - 1] == 13u8
}

proof fn lemma_crlf_len(data: Seq<u8>)
    ensures
        crlf_spec(data).len() <= 2 * data.len(),
        data.len() > 0 ==> crlf_spec(data).len() > 0 && crlf_spec(data).last() == data.last(),
    decreases data.len(),
{
    if data.len() > 0 {
        lemma_crlf_len(data.drop_last());
    }
}

impl Git {
    /// The committed contents `data` of a file, as the diff base: with
    /// `autocrlf` set, line feeds become CRLF so that lines do not all show
    /// as changed against a checkout with Windows line endings.
    pub fn normalize_diff_base(data: Vec<u8>, autocrlf: bool) -> (r: Vec<u8>)
        requires
            2 * data@.len() <= usize::MAX,
        ensures
            autocrlf ==> r@ == crlf_spec(data@) && all_lf_after_cr(r@),
            !autocrlf ==> r@ == data@,
    {
        if !autocrlf {
            return data;
        }
        let mut normalized_file: Vec<u8> = Vec::new();
        let mut at_cr = false;
        let mut i: usize = 0;
        while i < data.len()
            invariant
                0 <= i <= data@.len(),
                2 * data@.len() <= usize::MAX,
                normalized_file@ == crlf_spec(data@.take(i as int)),
                at_cr == (i > 0 && data@[i - 1] == 13u8),
                all_lf_after_cr(normalized_file@),
                normalized_file@.len() <= 2 * i,
            decreases data.len() - i,
        {
            let byte = data[i];
            proof {
                assert(data@.take(i + 1).drop_last() =~= data@.take(i as int));
                lemma_crlf_len(data@.take(i as int));
            }
            let ghost before = normalized_file@;
            if byte == 10u8 {
                if !at_cr {
                    normalized_file.push(13u8);
                }
            }
            normalized_file.push(byte);
            proof {
                assert forall|j: int| 0 <= j < normalized_file@.len() && #[trigger] normalized_file@[j] == 10u8 implies j > 0
                    && normalized_file@[j - 1] == 13u8 by {
                    if j < before.len() {
                        assert(normalized_file@[j] == before[j]);
                        assert(before[j] == 10u8);
                        assert(j > 0 && before[j - 1] == 13u8);
                        assert(before[j - 1] == normalized_file@[j - 1]);
                    } else if byte == 10u8 && at_cr {
                        assert(j == before.len());
                        assert(data@.take(i as int).last() == data@[i - 1]);
                        assert(before.last() == 13u8);
                        assert(normalized_file@[j - 1] == before[before.len() - 1]);
                    } else if byte == 10u8 {
                        assert(normalized_file@[before.len() as int] == 13u8);
                    }
                }
            }
            at_cr = byte == 13u8;
            i = i + 1;
        }
        proof {
            assert(data@.take(i as int) =~= data@);
        }
        normalized_file
    }
}

} // verus!
