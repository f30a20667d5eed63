//! The language configuration: the built-in `languages.toml` and the user's
//! files, each parsed as a TOML document, with the user's documents merged
//! onto the built-in one.

use crate::toml_merge::{merge_spec, merge_toml_values, tree, TomlTree, TomlValue};
use vstd::prelude::*;

verus! {

#[verifier::external_type_specification]
#[verifier::external_body]
pub struct ExTomlDocument(toml::Value);

/// The document that the bytes `bytes` hold as TOML, as the `toml` crate
/// reads it (`None` where they are no TOML document).
pub uninterp spec fn toml_document(bytes: Seq<u8>) -> Option<TomlTree>;

/// The message of the `toml` crate's error for bytes that are no TOML document.
pub uninterp spec fn toml_error(bytes: Seq<u8>) -> Seq<char>;

/// A value of the `toml` crate as a `TomlValue`: each variant to its own,
/// a float to its bits, a date-time to its text.
#[verifier::external_body]
fn toml_value(v: toml::Value) -> (r: TomlValue) {
    match v {
        toml::Value::String(s) => TomlValue::String(s),
        toml::Value::Integer(i) => TomlValue::Integer(i),
        toml::Value::Float(f) => TomlValue::Float(f.to_bits()),
        toml::Value::Boolean(b) => TomlValue::Boolean(b),
        toml::Value::Datetime(d) => TomlValue::Datetime(d.to_string()),
        toml::Value::Array(items) => TomlValue::Array(items.into_iter().map(toml_value).collect()),
        toml::Value::Table(map) => TomlValue::Table(map.into_iter().map(|(k, v)| (k, toml_value(v))).collect()),
    }
}

/// `toml::from_slice::<toml::Value>`: the TOML document that `bytes` hold,
/// or the message of the error that the crate gives. What the document is
/// and what the message says are named, not stated: they are the crate's.
#[verifier::external_body]
pub(crate) fn parse_toml(bytes: &[u8]) -> (r: Result<TomlValue, String>)
    ensures
        r is Ok <==> toml_document(bytes@) is Some,
        r matches Ok(v) ==> toml_document(bytes@) == Some(tree(v)),
        r matches Err(e) ==> e@ == toml_error(bytes@),
{
    match toml::from_slice::<toml::Value>(bytes) {
        Ok(v) => Ok(toml_value(v)),
        Err(e) => Err(e.to_string()),
    }
}

/// The built-in language configuration, read from the bytes of the built-in
/// `languages.toml` (which must be a TOML document).
pub fn default_lang_config(builtin: &[u8]) -> (r: TomlValue)
    requires
        toml_document(builtin@) is Some,
    ensures
        toml_document(builtin@) == Some(tree(r)),
{
    match parse_toml(builtin) {
        Ok(v) => v,
        Err(_) => {
            proof {
                assert(false);
            }
            TomlValue::Table(Vec::new())
        },
    }
}

/// Whether each file holds a TOML document.
pub open spec fn all_documents(files: Seq<Seq<u8>>) -> bool {
    forall|i: int| 0 <= i < files.len() ==> (#[trigger] toml_document(files[i])) is Some
}

/// Index of the first file that holds no TOML document (their number where all do).
pub open spec fn first_bad(files: Seq<Seq<u8>>) -> int
    decreases files.len(),
{
    if files.len() == 0 {
        0
    } else if toml_document(files[0]) is None {
        0
    } else {
        1 + first_bad(files.drop_first())
    }
}

/// The documents folded from the first on: each is merged onto by what the
/// ones before it gave, three levels down, starting from an empty table.
pub open spec fn fold_configs(docs: Seq<TomlTree>) -> TomlTree
    decreases docs.len(),
{
    if docs.len() == 0 {
        TomlTree::Tab(Seq::empty())
    } else {
        merge_spec(docs.last(), fold_configs(docs.drop_last()), 3)
    }
}

/// The documents of the files (all of which hold one), then the built-in one.
pub open spec fn config_documents(files: Seq<Seq<u8>>, builtin: Seq<u8>) -> Seq<TomlTree> {
    Seq::new(files.len(), |i: int| toml_document(files[i]).unwrap()).push(toml_document(builtin).unwrap())
}

proof fn lemma_first_bad(files: Seq<Seq<u8>>)
    ensures
        0 <= first_bad(files) <= files.len(),
        first_bad(files) < files.len() ==> toml_document(files[first_bad(files)]) is None,
        forall|j: int| 0 <= j < first_bad(files) ==> (#[trigger] toml_document(files[j])) is Some,
        all_documents(files) <==> first_bad(files) == files.len(),
    decreases files.len(),
{
    if files.len() > 0 && toml_document(files[0]) is Some {
        lemma_first_bad(files.drop_first());
        assert forall|j: int| 0 <= j < first_bad(files) implies (#[trigger] toml_document(files[j])) is Some by {
            if j > 0 {
                assert(files[j] == files.drop_first()[j - 1]);
            }
        }
        if all_documents(files) {
            assert forall|j: int| 0 <= j < files.drop_first().len() implies (#[trigger] toml_document(
                files.drop_first()[j],
            )) is Some by {
                assert(files.drop_first()[j] == files[j + 1]);
            }
        }
        if first_bad(files) == files.len() {
            assert forall|j: int| 0 <= j < files.len() implies (#[trigger] toml_document(files[j])) is Some by {}
        }
    }
}

/// The merged language configuration: the user's files (`user_files`, most
/// local first) and then the built-in file (`builtin`), folded by
/// `fold_configs`, so that a file earlier in the list wins over a later one.
/// Where a user file holds no TOML document, the error of the first such
/// file; the built-in file must hold one where the user files all do.
pub fn merged_lang_config(user_files: &Vec<Vec<u8>>, builtin: &[u8]) -> (r: Result<TomlValue, String>)
    requires
        all_documents(user_files@.map_values(|f: Vec<u8>| f@)) ==> toml_document(builtin@) is Some,
    ensures
        ({
            let files = user_files@.map_values(|f: Vec<u8>| f@);
            if all_documents(files) {
                r matches Ok(v) && tree(v) == fold_configs(config_documents(files, builtin@))
            } else {
                r matches Err(e) && e@ == toml_error(files[first_bad(files)])
            }
        }),
{
    let ghost files = user_files@.map_values(|f: Vec<u8>| f@);
    proof {
        lemma_first_bad(files);
    }
    let mut docs: Vec<TomlValue> = Vec::new();
    let mut i: usize = 0;
    while i < user_files.len()
        invariant
            files == user_files@.map_values(|f: Vec<u8>| f@),
            0 <= i <= files.len(),
            0 <= first_bad(files) <= files.len(),
            first_bad(files) < files.len() ==> toml_document(files[first_bad(files)]) is None,
            forall|j: int| 0 <= j < first_bad(files) ==> (#[trigger] toml_document(files[j])) is Some,
            i <= first_bad(files),
            docs@.len() == i,
            forall|j: int| 0 <= j < i ==> toml_document(files[j]) == Some(tree(#[trigger] docs@[j])),
        decreases user_files.len() - i,
    {
        match parse_toml(user_files[i].as_slice()) {
            Ok(v) => {
                docs.push(v);
            },
            Err(e) => {
                proof {
                    assert(files[i as int] == user_files@[i as int]@);
                    assert(i == first_bad(files));
                }
                return Err(e);
            },
        }
        i = i + 1;
    }
    proof {
        assert(first_bad(files) == files.len());
    }
    docs.push(default_lang_config(builtin));
    let ghost all = config_documents(files, builtin@);
    proof {
        assert forall|j: int| 0 <= j < docs@.len() implies tree(#[trigger] docs@[j]) == all[j] by {}
    }
    // Fold: each document is merged onto by what the ones before it gave.
    let mut acc = TomlValue::Table(Vec::new());
    let mut rest = docs;
    let mut k: usize = 0;
    let n = rest.len();
    proof {
        assert(tree(acc) == fold_configs(all.take(0)));
    }
    while rest.len() > 0
        invariant
            all.len() == n,
            k + rest@.len() == n,
            forall|j: int| 0 <= j < rest@.len() ==> tree(#[trigger] rest@[j]) == all[k + j],
            tree(acc) == fold_configs(all.take(k as int)),
        decreases rest.len(),
    {
        let ghost before = rest@;
        let b = rest.remove(0);
        proof {
            assert(tree(b) == all[k as int]);
            assert forall|j: int| 0 <= j < rest@.len() implies tree(#[trigger] rest@[j]) == all[k + 1 + j] by {
                assert(rest@[j] == before[j + 1]);
            }
            assert(all.take(k + 1).drop_last() =~= all.take(k as int));
            assert(all.take(k + 1).last() == all[k as int]);
        }
        acc = merge_toml_values(b, acc, 3);
        k = k + 1;
    }
    proof {
        assert(all.take(k as int) =~= all);
    }
    Ok(acc)
}

/// The merged language configuration where the built-in file can be read:
/// `None` where the user files all hold TOML documents and the built-in
/// file does not (the configuration cannot be built); else what
/// `merged_lang_config` gives.
pub fn lang_config_checked(user_files: &Vec<Vec<u8>>, builtin: &[u8]) -> (r: Option<Result<TomlValue, String>>)
    ensures
        ({
            let files = user_files@.map_values(|f: Vec<u8>| f@);
            match r {
                None => all_documents(files) && toml_document(builtin@) is None,
                Some(res) => (all_documents(files) ==> toml_document(builtin@) is Some) && (if all_documents(files) {
                    res matches Ok(v) && tree(v) == fold_configs(config_documents(files, builtin@))
                } else {
                    res matches Err(e) && e@ == toml_error(files[first_bad(files)])
                }),
            }
        }),
{
    let ghost files = user_files@.map_values(|f: Vec<u8>| f@);
    proof {
        lemma_first_bad(files);
    }
    let mut i: usize = 0;
    while i < user_files.len()
        invariant
            files == user_files@.map_values(|f: Vec<u8>| f@),
            0 <= i <= files.len(),
            forall|j: int| 0 <= j < i ==> (#[trigger] toml_document(files[j])) is Some,
        decreases user_files.len() - i,
    {
        let ok = parse_toml(user_files[i].as_slice()).is_ok();
        proof {
            assert(files[i as int] == user_files@[i as int]@);
        }
        if !ok {
            return Some(merged_lang_config(user_files, builtin));
        }
        i = i + 1;
    }
    if parse_toml(builtin).is_err() {
        return None;
    }
    Some(merged_lang_config(user_files, builtin))
}

} // verus!
