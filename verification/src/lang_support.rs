//! The language-support table of the documentation: one row per configured
//! language, in sorted order, telling which syntax-tree features it has and
//! its default language server.

use crate::command::{chars_of, heading_spec, mono_spec, push_heading, push_row, row_spec};
use crate::strings::{push_str, string_from_chars};
use crate::ts_feature::TsFeature;
use crate::typed::{lemma_sorted_unique, sort_fragments, sorted_by, views};
use vstd::prelude::*;

verus! {

/// What the documentation reads of a configured language: its id, the
/// command of its language server and its syntax-tree grammar, where it has
/// them.
#[derive(Debug)]
pub struct LanguageSummary {
    pub language_id: String,
    pub language_server: Option<String>,
    pub grammar: Option<String>,
}

/// The column titles: the language, each feature's long title, the server.
pub open spec fn lang_columns() -> Seq<Seq<char>> {
    seq![
        "Language"@,
        "Syntax Highlighting"@,
        "Treesitter Textobjects"@,
        "Auto Indent"@,
        "Default LSP"@,
    ]
}

/// The ids of the languages.
pub open spec fn language_ids(cs: Seq<LanguageSummary>) -> Seq<Seq<char>> {
    cs.map_values(|c: LanguageSummary| c.language_id@)
}

/// Index of the first language with id `id` (their number where there is none).
pub open spec fn first_with_id(cs: Seq<LanguageSummary>, id: Seq<char>) -> int
    decreases cs.len(),
{
    if cs.len() == 0 {
        0
    } else if cs[0].language_id@ == id {
        0
    } else {
        1 + first_with_id(cs.drop_first(), id)
    }
}

/// The cells of the row of language `id`: the id of the first language so
/// named, a check mark for each feature list that holds it, and its server's
/// command as code.
pub open spec fn lang_row(cs: Seq<LanguageSummary>, support: Seq<Seq<Seq<char>>>, id: Seq<char>) -> Seq<Seq<char>> {
    let c = cs[first_with_id(cs, id)];
    seq![c.language_id@] + Seq::new(
        support.len(),
        |f: int| if support[f].contains(id) { "✓"@ } else { Seq::empty() },
    ) + seq![
        match c.language_server {
            Some(cmd) => mono_spec(cmd@),
            None => Seq::empty(),
        },
    ]
}

/// The rows of the languages `ids`, in their order.
pub open spec fn lang_rows(cs: Seq<LanguageSummary>, support: Seq<Seq<Seq<char>>>, ids: Seq<Seq<char>>) -> Seq<char>
    decreases ids.len(),
{
    if ids.len() == 0 {
        Seq::empty()
    } else {
        lang_rows(cs, support, ids.drop_last()) + row_spec(lang_row(cs, support, ids.last()))
    }
}

/// The feature lists as strings.
pub open spec fn support_views(support: Seq<Vec<String>>) -> Seq<Seq<Seq<char>>> {
    support.map_values(|l: Vec<String>| l@.map_values(|s: String| s@))
}

proof fn lemma_first_with_id(cs: Seq<LanguageSummary>, id: Seq<char>)
    ensures
        0 <= first_with_id(cs, id) <= cs.len(),
        first_with_id(cs, id) < cs.len() ==> cs[first_with_id(cs, id)].language_id@ == id,
        forall|j: int| 0 <= j < first_with_id(cs, id) ==> (#[trigger] cs[j]).language_id@ != id,
        language_ids(cs).contains(id) ==> first_with_id(cs, id) < cs.len(),
    decreases cs.len(),
{
    if cs.len() > 0 && cs[0].language_id@ != id {
        lemma_first_with_id(cs.drop_first(), id);
        assert forall|j: int| 0 <= j < first_with_id(cs, id) implies (#[trigger] cs[j]).language_id@ != id by {
            if j > 0 {
                assert(cs[j] == cs.drop_first()[j - 1]);
            }
        }
        if language_ids(cs).contains(id) {
            let k = choose|k: int| 0 <= k < language_ids(cs).len() && language_ids(cs)[k] == id;
            assert(k > 0);
            assert(language_ids(cs.drop_first())[k - 1] == id);
        }
    }
}

/// Whether `a` and `b` hold the same chars.
fn same_chars(a: &Vec<char>, b: &Vec<char>) -> (r: bool)
    ensures
        r == (a@ == b@),
{
    if a.len() != b.len() {
        return false;
    }
    let mut i: usize = 0;
    while i < a.len()
        invariant
            a@.len() == b@.len(),
            0 <= i <= a@.len(),
            forall|j: int| 0 <= j < i ==> a@[j] == b@[j],
        decreases a.len() - i,
    {
        if a[i] != b[i] {
            return false;
        }
        i = i + 1;
    }
    proof {
        assert(a@ =~= b@);
    }
    true
}

/// Whether `list` holds `id`.
fn holds(list: &Vec<String>, id: &Vec<char>) -> (r: bool)
    ensures
        r == list@.map_values(|s: String| s@).contains(id@),
{
    let ghost lv = list@.map_values(|s: String| s@);
    let mut i: usize = 0;
    while i < list.len()
        invariant
            lv == list@.map_values(|s: String| s@),
            0 <= i <= list@.len(),
            forall|j: int| 0 <= j < i ==> lv[j] != id@,
        decreases list.len() - i,
    {
        let c = chars_of(list[i].as_str());
        if same_chars(&c, id) {
            proof {
                assert(lv[i as int] == id@);
            }
            return true;
        }
        i = i + 1;
    }
    false
}

/// The ids of the languages, as chars.
fn ids_of(configs: &[LanguageSummary]) -> (v: Vec<Vec<char>>)
    ensures
        views(v@) == language_ids(configs@),
{
    let mut v: Vec<Vec<char>> = Vec::new();
    let mut i: usize = 0;
    while i < configs.len()
        invariant
            0 <= i <= configs@.len(),
            v@.len() == i,
            forall|j: int| 0 <= j < i ==> #[trigger] v@[j]@ == configs@[j].language_id@,
        decreases configs.len() - i,
    {
        v.push(chars_of(configs[i].language_id.as_str()));
        i = i + 1;
    }
    proof {
        assert(views(v@) =~= language_ids(configs@));
    }
    v
}

/// Whether some language of `cs` with id `id` names a grammar.
pub open spec fn has_grammar(cs: Seq<LanguageSummary>, id: Seq<char>) -> bool {
    exists|i: int| 0 <= i < cs.len() && #[trigger] cs[i].language_id@ == id && cs[i].grammar is Some
}

/// The ids of the languages that name a syntax-tree grammar, each once, in
/// no promised order.
pub fn default_langs_with_treesitter_support(configs: &[LanguageSummary]) -> (r: Vec<String>)
    ensures
        forall|a: int, b: int| 0 <= a < b < r@.len() ==> r@[a]@ != r@[b]@,
        forall|id: Seq<char>| r@.map_values(|s: String| s@).contains(id) <==> has_grammar(configs@, id),
{
    let mut r: Vec<String> = Vec::new();
    let mut ids: Vec<Vec<char>> = Vec::new();
    let mut i: usize = 0;
    while i < configs.len()
        invariant
            0 <= i <= configs@.len(),
            ids@.len() == r@.len(),
            forall|k: int| 0 <= k < r@.len() ==> #[trigger] ids@[k]@ == r@[k]@,
            forall|a: int, b: int| 0 <= a < b < r@.len() ==> r@[a]@ != r@[b]@,
            forall|id: Seq<char>|
                r@.map_values(|s: String| s@).contains(id) <==> has_grammar(configs@.take(i as int), id),
        decreases configs.len() - i,
    {
        let c = &configs[i];
        let ghost before = r@;
        proof {
            assert forall|id: Seq<char>| has_grammar(configs@.take(i + 1), id) <==> (has_grammar(
                configs@.take(i as int),
                id,
            ) || (c.language_id@ == id && c.grammar is Some)) by {
                if has_grammar(configs@.take(i + 1), id) {
                    let j = choose|j: int| 0 <= j < i + 1 && #[trigger] configs@.take(i + 1)[j].language_id@ == id
                        && configs@.take(i + 1)[j].grammar is Some;
                    if j < i {
                        assert(configs@.take(i as int)[j] == configs@.take(i + 1)[j]);
                    }
                }
                if has_grammar(configs@.take(i as int), id) {
                    let j = choose|j: int| 0 <= j < i && #[trigger] configs@.take(i as int)[j].language_id@ == id
                        && configs@.take(i as int)[j].grammar is Some;
                    assert(configs@.take(i + 1)[j] == configs@.take(i as int)[j]);
                }
                if c.language_id@ == id && c.grammar is Some {
                    assert(configs@.take(i + 1)[i as int] == *c);
                }
            }
        }
        let ghost mut pushed = false;
        if c.grammar.is_some() {
            let id = chars_of(c.language_id.as_str());
            let mut k: usize = 0;
            while k < ids.len() && !same_chars(&ids[k], &id)
                invariant
                    0 <= k <= ids@.len(),
                    forall|m: int| 0 <= m < k ==> ids@[m]@ != id@,
                decreases ids.len() - k,
            {
                k = k + 1;
            }
            if k == ids.len() {
                proof {
                    assert forall|m: int| 0 <= m < r@.len() implies r@[m]@ != id@ by {
                        assert(ids@[m]@ == r@[m]@);
                    }
                    assert(!before.map_values(|s: String| s@).contains(id@));
                }
                ids.push(id);
                r.push(string_from_chars(ids[k].as_slice()));
                proof {
                    assert(r@.map_values(|s: String| s@) =~= before.map_values(|s: String| s@).push(c.language_id@));
                    pushed = true;
                }
            } else {
                proof {
                    assert(before.map_values(|s: String| s@)[k as int] == c.language_id@);
                    assert(before.map_values(|s: String| s@).contains(c.language_id@));
                }
            }
        }
        proof {
            let bv = before.map_values(|s: String| s@);
            let nv = r@.map_values(|s: String| s@);
            assert(pushed ==> nv == bv.push(c.language_id@));
            assert(!pushed ==> nv == bv && (c.grammar is None || bv.contains(c.language_id@)));
            assert forall|id: Seq<char>| nv.contains(id) <==> has_grammar(configs@.take(i + 1), id) by {
                assert(has_grammar(configs@.take(i + 1), id) == (has_grammar(configs@.take(i as int), id) || (
                c.language_id@ == id && c.grammar is Some)));
                assert(bv.contains(id) == has_grammar(configs@.take(i as int), id));
                if nv.contains(id) {
                    let j = choose|j: int| 0 <= j < nv.len() && nv[j] == id;
                    if j < bv.len() {
                        assert(bv[j] == nv[j]);
                    }
                }
                if bv.contains(id) {
                    let j = choose|j: int| 0 <= j < bv.len() && bv[j] == id;
                    assert(nv[j] == bv[j]);
                }
                if c.language_id@ == id && c.grammar is Some && pushed {
                    assert(nv[bv.len() as int] == id);
                }
            }
        }
        i = i + 1;
    }
    proof {
        assert(configs@.take(i as int) =~= configs@);
    }
    r
}

/// The markdown table of the languages `configs`, where `ts_support` lists,
/// for each feature of `TsFeature::all()`, the ids of the languages that have
/// it. Rows come in the sorted order of the ids (sorting has one result, see
/// `lemma_sorted_unique`).
pub fn lang_features(configs: &[LanguageSummary], ts_support: &[Vec<String>]) -> (md: String)
    ensures
        exists|ids: Seq<Seq<char>>| ids.to_multiset() == language_ids(configs@).to_multiset() && sorted_by(ids, false),
        forall|ids: Seq<Seq<char>>|
            ids.to_multiset() == language_ids(configs@).to_multiset() && sorted_by(ids, false) ==> md@
                == heading_spec(lang_columns()) + lang_rows(configs@, support_views(ts_support@), ids),
{
    let mut out: Vec<char> = Vec::new();
    let mut cols: Vec<Vec<char>> = Vec::new();
    cols.push(chars_of("Language"));
    let features = TsFeature::all();
    let mut k: usize = 0;
    while k < features.len()
        invariant
            features@ == seq![TsFeature::Highlight, TsFeature::TextObject, TsFeature::AutoIndent],
            0 <= k <= features@.len(),
            views(cols@) == lang_columns().take(k + 1),
        decreases features.len() - k,
    {
        let title = features[k].long_title();
        let ghost before = cols@;
        cols.push(chars_of(title));
        k = k + 1;
        proof {
            assert(views(cols@) =~= views(before).push(title@));
            assert(views(cols@) =~= lang_columns().take(k + 1));
        }
    }
    let ghost before = cols@;
    cols.push(chars_of("Default LSP"));
    proof {
        assert(views(cols@) =~= views(before).push("Default LSP"@));
        assert(views(cols@) =~= lang_columns());
    }
    push_heading(&mut out, &cols);
    let ghost head = out@;
    let ghost cs = configs@;
    let ghost sup = support_views(ts_support@);
    let ids = ids_of(configs);
    let sorted = sort_fragments(ids, false);
    let ghost sv = views(sorted@);
    let mut i: usize = 0;
    proof {
        assert(sv.take(0) =~= Seq::<Seq<char>>::empty());
    }
    while i < sorted.len()
        invariant
            cs == configs@,
            sup == support_views(ts_support@),
            sv == views(sorted@),
            sv.to_multiset() == language_ids(cs).to_multiset(),
            0 <= i <= sv.len(),
            out@ == head + lang_rows(cs, sup, sv.take(i as int)),
        decreases sorted.len() - i,
    {
        let id = &sorted[i];
        proof {
            assert(sv[i as int] == id@);
            assert(sv.contains(id@));
            broadcast use vstd::seq_lib::group_to_multiset_ensures;
            assert(sv.to_multiset().count(id@) > 0);
            assert(language_ids(cs).contains(id@));
            lemma_first_with_id(cs, id@);
        }
        // the first language with this id
        let nconf = configs.len();
        let mut j: usize = 0;
        let mut found: Vec<char> = chars_of(configs[0].language_id.as_str());
        while !same_chars(&found, id)
            invariant
                cs == configs@,
                cs.len() == nconf,
                0 <= j < cs.len(),
                j <= first_with_id(cs, id@),
                first_with_id(cs, id@) < cs.len(),
                found@ == cs[j as int].language_id@,
                cs[first_with_id(cs, id@)].language_id@ == id@,
                forall|m: int| 0 <= m < first_with_id(cs, id@) ==> (#[trigger] cs[m]).language_id@ != id@,
            decreases cs.len() - j,
        {
            j = j + 1;
            found = chars_of(configs[j].language_id.as_str());
        }
        let c = &configs[j];
        let mut row: Vec<Vec<char>> = Vec::new();
        row.push(chars_of(c.language_id.as_str()));
        let mut f: usize = 0;
        while f < ts_support.len()
            invariant
                sup == support_views(ts_support@),
                0 <= f <= ts_support@.len(),
                row@.len() == f + 1,
                row@[0]@ == c.language_id@,
                forall|m: int| 0 < m <= f ==> #[trigger] row@[m]@ == (if sup[m - 1].contains(id@) { "✓"@ } else { Seq::empty() }),
            decreases ts_support.len() - f,
        {
            let mark = if holds(&ts_support[f], id) {
                chars_of("✓")
            } else {
                Vec::new()
            };
            proof {
                assert(sup[f as int] == ts_support@[f as int]@.map_values(|s: String| s@));
            }
            row.push(mark);
            f = f + 1;
        }
        let mut lsp: Vec<char> = Vec::new();
        match &c.language_server {
            Some(cmd) => {
                lsp.push('`');
                push_str(&mut lsp, cmd.as_str());
                lsp.push('`');
            },
            None => {},
        }
        proof {
            if c.language_server is Some {
                assert(lsp@ =~= mono_spec(c.language_server->0@));
            } else {
                assert(lsp@ =~= Seq::<char>::empty());
            }
        }
        row.push(lsp);
        proof {
            assert(j == first_with_id(cs, id@));
            assert(views(row@) =~= lang_row(cs, sup, id@));
        }
        let ghost before_row = out@;
        push_row(&mut out, &row);
        i = i + 1;
        proof {
            assert(sv.take(i as int).drop_last() =~= sv.take(i - 1));
            assert(sv.take(i as int).last() == id@);
            assert(out@ =~= head + lang_rows(cs, sup, sv.take(i as int)));
        }
    }
    proof {
        assert(sv.take(i as int) =~= sv);
        assert(sv.to_multiset() == language_ids(configs@).to_multiset() && sorted_by(sv, false));
        assert forall|ids: Seq<Seq<char>>|
            ids.to_multiset() == language_ids(configs@).to_multiset() && sorted_by(ids, false) implies out@
                == heading_spec(lang_columns()) + lang_rows(configs@, support_views(ts_support@), ids) by {
            lemma_sorted_unique(ids, sv, false);
        }
    }
    string_from_chars(out.as_slice())
}

} // verus!
