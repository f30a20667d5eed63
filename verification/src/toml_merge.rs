//! TOML documents as values, and how a user's document is merged onto the
//! built-in one.

use vstd::prelude::*;

verus! {

/// A TOML value. A float is held as its IEEE-754 bits and a date-time as its
/// text; a table is a list of (key, value) entries with distinct keys.
#[derive(Debug)]
pub enum TomlValue {
    String(String),
    Integer(i64),
    Float(u64),
    Boolean(bool),
    Datetime(String),
    Array(Vec<TomlValue>),
    Table(Vec<(String, TomlValue)>),
}

/// A TOML value as the contracts see it.
pub enum TomlTree {
    Str(Seq<char>),
    Int(i64),
    Float(u64),
    Bool(bool),
    Date(Seq<char>),
    Arr(Seq<TomlTree>),
    Tab(Seq<(Seq<char>, TomlTree)>),
}

/// The tree of a value.
pub open spec fn tree(v: TomlValue) -> TomlTree
    decreases v, 1nat,
{
    match v {
        TomlValue::String(s) => TomlTree::Str(s@),
        TomlValue::Integer(i) => TomlTree::Int(i),
        TomlValue::Float(f) => TomlTree::Float(f),
        TomlValue::Boolean(b) => TomlTree::Bool(b),
        TomlValue::Datetime(d) => TomlTree::Date(d@),
        TomlValue::Array(items) => TomlTree::Arr(trees(items@)),
        TomlValue::Table(kvs) => TomlTree::Tab(entry_trees(kvs@)),
    }
}

/// The trees of the values `s`.
pub open spec fn trees(s: Seq<TomlValue>) -> Seq<TomlTree>
    decreases s, 0nat,
{
    if s.len() == 0 {
        Seq::empty()
    } else {
        trees(s.drop_last()).push(tree(s.last()))
    }
}

/// The entries `s` with their keys as text and their values as trees.
pub open spec fn entry_trees(s: Seq<(String, TomlValue)>) -> Seq<(Seq<char>, TomlTree)>
    decreases s, 0nat,
{
    if s.len() == 0 {
        Seq::empty()
    } else {
        entry_trees(s.drop_last()).push((s.last().0@, tree(s.last().1)))
    }
}

/// The value under key `k` in entries `kvs` (the first entry for it).
pub open spec fn tree_get(kvs: Seq<(Seq<char>, TomlTree)>, k: Seq<char>) -> Option<TomlTree>
    decreases kvs.len(),
{
    if kvs.len() == 0 {
        None
    } else if kvs[0].0 == k {
        Some(kvs[0].1)
    } else {
        tree_get(kvs.drop_first(), k)
    }
}

/// Index of the first entry for key `k` in `kvs` (its length where there is none).
pub open spec fn key_index(kvs: Seq<(Seq<char>, TomlTree)>, k: Seq<char>) -> int
    decreases kvs.len(),
{
    if kvs.len() == 0 {
        0
    } else if kvs[0].0 == k {
        0
    } else {
        1 + key_index(kvs.drop_first(), k)
    }
}

/// The key `name`.
pub open spec fn name_key() -> Seq<char> {
    seq!['n', 'a', 'm', 'e']
}

/// The `name` of a value: the string under key `name` of a table.
pub open spec fn name_of(v: TomlTree) -> Option<Seq<char>> {
    match v {
        TomlTree::Tab(kvs) => match tree_get(kvs, name_key()) {
            Some(TomlTree::Str(s)) => Some(s),
            _ => None,
        },
        _ => None,
    }
}

/// Index of the first item of `items` named `n` (its length where there is none).
pub open spec fn name_index(items: Seq<TomlTree>, n: Seq<char>) -> int
    decreases items.len(),
{
    if items.len() == 0 {
        0
    } else if name_of(items[0]) == Some(n) {
        0
    } else {
        1 + name_index(items.drop_first(), n)
    }
}

/// `left` merged with `right`, down to `depth` levels: where both are arrays
/// the items of `right` are merged, one by one, onto the first item of
/// `left` with the same name (a nameless item onto the first item of `left`;
/// an item with nothing to merge onto is appended); where both are tables each entry
/// of `right` is merged onto the entry of `left` with its key (or added).
/// At depth zero, and where the two are not both arrays or both tables,
/// `right` is the result.
pub open spec fn merge_spec(left: TomlTree, right: TomlTree, depth: nat) -> TomlTree
    decreases depth, 1nat, 0nat,
{
    match (left, right) {
        (TomlTree::Arr(l), TomlTree::Arr(r)) => if depth > 0 {
            TomlTree::Arr(merge_items(l, r, depth))
        } else {
            right
        },
        (TomlTree::Tab(l), TomlTree::Tab(r)) => if depth > 0 {
            TomlTree::Tab(merge_entries(l, r, depth))
        } else {
            right
        },
        _ => right,
    }
}

/// The items `l` with the items `r` merged onto them in turn: an item with
/// the name of an item of `l` is merged onto it one level down, and the
/// result goes to the end; an item without a name is merged so onto the
/// first item of `l`; other items are appended.
pub open spec fn merge_items(l: Seq<TomlTree>, r: Seq<TomlTree>, depth: nat) -> Seq<TomlTree>
    decreases depth, 0nat, r.len(),
{
    if r.len() == 0 || depth == 0 {
        l
    } else {
        let rv = r[0];
        let next = match name_of(rv) {
            Some(n) => {
                let p = name_index(l, n);
                if p < l.len() {
                    l.remove(p).push(merge_spec(l[p], rv, (depth - 1) as nat))
                } else {
                    l.push(rv)
                }
            },
            None => if l.len() > 0 {
                l.remove(0).push(merge_spec(l[0], rv, (depth - 1) as nat))
            } else {
                l.push(rv)
            },
        };
        merge_items(next, r.drop_first(), depth)
    }
}

/// The entries `l` with the entries `r` merged onto them in turn: a key of
/// `l` gets its value merged one level down (the entry goes to the end);
/// other entries are appended.
pub open spec fn merge_entries(l: Seq<(Seq<char>, TomlTree)>, r: Seq<(Seq<char>, TomlTree)>, depth: nat) -> Seq<(Seq<char>, TomlTree)>
    decreases depth, 0nat, r.len(),
{
    if r.len() == 0 || depth == 0 {
        l
    } else {
        let k = r[0].0;
        let rv = r[0].1;
        let p = key_index(l, k);
        let next = if p < l.len() {
            l.remove(p).push((k, merge_spec(l[p].1, rv, (depth - 1) as nat)))
        } else {
            l.push((k, rv))
        };
        merge_entries(next, r.drop_first(), depth)
    }
}

proof fn lemma_trees(s: Seq<TomlValue>)
    ensures
        trees(s).len() == s.len(),
        forall|i: int| 0 <= i < s.len() ==> #[trigger] trees(s)[i] == tree(s[i]),
    decreases s.len(),
{
    if s.len() > 0 {
        lemma_trees(s.drop_last());
    }
}

proof fn lemma_entry_trees(s: Seq<(String, TomlValue)>)
    ensures
        entry_trees(s).len() == s.len(),
        forall|i: int| 0 <= i < s.len() ==> #[trigger] entry_trees(s)[i] == (s[i].0@, tree(s[i].1)),
    decreases s.len(),
{
    if s.len() > 0 {
        lemma_entry_trees(s.drop_last());
    }
}

proof fn lemma_key_index(kvs: Seq<(Seq<char>, TomlTree)>, k: Seq<char>)
    ensures
        0 <= key_index(kvs, k) <= kvs.len(),
        key_index(kvs, k) < kvs.len() ==> kvs[key_index(kvs, k)].0 == k && tree_get(kvs, k) == Some(
            kvs[key_index(kvs, k)].1,
        ),
        key_index(kvs, k) == kvs.len() ==> tree_get(kvs, k).is_none(),
        forall|j: int| 0 <= j < key_index(kvs, k) ==> kvs[j].0 != k,
    decreases kvs.len(),
{
    if kvs.len() > 0 && kvs[0].0 != k {
        lemma_key_index(kvs.drop_first(), k);
        assert forall|j: int| 0 <= j < key_index(kvs, k) implies kvs[j].0 != k by {
            if j > 0 {
                assert(kvs[j] == kvs.drop_first()[j - 1]);
            }
        }
    }
}

proof fn lemma_name_index(items: Seq<TomlTree>, n: Seq<char>)
    ensures
        0 <= name_index(items, n) <= items.len(),
        name_index(items, n) < items.len() ==> name_of(items[name_index(items, n)]) == Some(n),
        forall|j: int| 0 <= j < name_index(items, n) ==> name_of(items[j]) != Some(n),
    decreases items.len(),
{
    if items.len() > 0 && name_of(items[0]) != Some(n) {
        lemma_name_index(items.drop_first(), n);
        assert forall|j: int| 0 <= j < name_index(items, n) implies name_of(items[j]) != Some(n) by {
            if j > 0 {
                assert(items[j] == items.drop_first()[j - 1]);
            }
        }
    }
}

/// Whether some entry of `kvs` has key `k`.
pub open spec fn has_key(kvs: Seq<(Seq<char>, TomlTree)>, k: Seq<char>) -> bool {
    exists|i: int| 0 <= i < kvs.len() && #[trigger] kvs[i].0 == k
}

/// At depth zero the right document replaces the left one.
pub proof fn lemma_merge_depth_zero(left: TomlTree, right: TomlTree)
    ensures
        merge_spec(left, right, 0) == right,
{
}

/// Where the two documents are not both arrays or both tables, the right one wins.
pub proof fn lemma_merge_mismatch(left: TomlTree, right: TomlTree, depth: nat)
    requires
        !(left is Arr && right is Arr),
        !(left is Tab && right is Tab),
    ensures
        merge_spec(left, right, depth) == right,
{
}

/// Merging an empty table or array onto a value of the same kind leaves it as it is.
pub proof fn lemma_merge_empty_right(left: TomlTree, depth: nat)
    requires
        depth > 0,
        left is Arr || left is Tab,
    ensures
        left is Arr ==> merge_spec(left, TomlTree::Arr(Seq::empty()), depth) == left,
        left is Tab ==> merge_spec(left, TomlTree::Tab(Seq::empty()), depth) == left,
{
}

/// Merging tables keeps every key: the merged table has exactly the keys of
/// the two tables.
pub proof fn lemma_merge_keys(l: Seq<(Seq<char>, TomlTree)>, r: Seq<(Seq<char>, TomlTree)>, depth: nat, k: Seq<char>)
    requires
        depth > 0,
    ensures
        has_key(merge_entries(l, r, depth), k) <==> (has_key(l, k) || has_key(r, k)),
    decreases r.len(),
{
    if r.len() > 0 {
        let k0 = r[0].0;
        let rv = r[0].1;
        let p = key_index(l, k0);
        lemma_key_index(l, k0);
        let next = if p < l.len() {
            l.remove(p).push((k0, merge_spec(l[p].1, rv, (depth - 1) as nat)))
        } else {
            l.push((k0, rv))
        };
        assert(has_key(next, k) <==> (has_key(l, k) || k == k0)) by {
            if has_key(l, k) {
                let i = choose|i: int| 0 <= i < l.len() && #[trigger] l[i].0 == k;
                if p < l.len() {
                    if i == p {
                        assert(next[next.len() - 1].0 == k);
                    } else if i < p {
                        assert(next[i].0 == k);
                    } else {
                        assert(next[i - 1].0 == k);
                    }
                } else {
                    assert(next[i].0 == k);
                }
            }
            if k == k0 {
                assert(next[next.len() - 1].0 == k);
            }
            if has_key(next, k) {
                let j = choose|j: int| 0 <= j < next.len() && #[trigger] next[j].0 == k;
                if j < next.len() - 1 {
                    if p < l.len() {
                        if j < p {
                            assert(l[j].0 == k);
                        } else {
                            assert(l[j + 1].0 == k);
                        }
                    } else {
                        assert(l[j].0 == k);
                    }
                }
            }
        }
        lemma_merge_keys(next, r.drop_first(), depth, k);
        assert(has_key(r, k) <==> (k == k0 || has_key(r.drop_first(), k))) by {
            if has_key(r, k) {
                let i = choose|i: int| 0 <= i < r.len() && #[trigger] r[i].0 == k;
                if i > 0 {
                    assert(r.drop_first()[i - 1].0 == k);
                }
            }
            if has_key(r.drop_first(), k) {
                let i = choose|i: int| 0 <= i < r.drop_first().len() && #[trigger] r.drop_first()[i].0 == k;
                assert(r[i + 1].0 == k);
            }
            if k == k0 {
                assert(r[0].0 == k);
            }
        }
    }
}

/// Index of the first entry for key `k`.
fn find_key(kvs: &Vec<(String, TomlValue)>, k: &String) -> (i: usize)
    ensures
        i == key_index(entry_trees(kvs@), k@),
{
    let ghost e = entry_trees(kvs@);
    proof {
        lemma_key_index(e, k@);
        lemma_entry_trees(kvs@);
    }
    let mut i: usize = 0;
    while i < kvs.len()
        invariant
            e == entry_trees(kvs@),
            e.len() == kvs@.len(),
            forall|j: int| 0 <= j < kvs@.len() ==> #[trigger] e[j] == (kvs@[j].0@, tree(kvs@[j].1)),
            0 <= i <= kvs@.len(),
            forall|j: int| 0 <= j < i ==> e[j].0 != k@,
            0 <= key_index(e, k@) <= e.len(),
            key_index(e, k@) < e.len() ==> e[key_index(e, k@)].0 == k@,
            forall|j: int| 0 <= j < key_index(e, k@) ==> e[j].0 != k@,
        decreases kvs.len() - i,
    {
        assert(e[i as int] == (kvs@[i as int].0@, tree(kvs@[i as int].1)));
        if kvs[i].0 == *k {
            return i;
        }
        i = i + 1;
    }
    i
}

/// The string under key `name` of a table value.
fn get_name(v: &TomlValue) -> (r: Option<&String>)
    ensures
        match r {
            Some(s) => name_of(tree(*v)) == Some(s@),
            None => name_of(tree(*v)).is_none(),
        },
{
    match v {
        TomlValue::Table(kvs) => {
            let name = "name".to_owned();
            proof {
                reveal_strlit("name");
                assert(name@ =~= name_key());
                lemma_entry_trees(kvs@);
                lemma_key_index(entry_trees(kvs@), name_key());
            }
            let i = find_key(kvs, &name);
            if i < kvs.len() {
                assert(entry_trees(kvs@)[i as int] == (kvs@[i as int].0@, tree(kvs@[i as int].1)));
                match &kvs[i].1 {
                    TomlValue::String(s) => Some(s),
                    _ => None,
                }
            } else {
                None
            }
        },
        _ => None,
    }
}

/// Index of the first item named `n`.
fn find_name(items: &Vec<TomlValue>, n: &String) -> (i: usize)
    ensures
        i == name_index(trees(items@), n@),
{
    let ghost t = trees(items@);
    proof {
        lemma_name_index(t, n@);
        lemma_trees(items@);
    }
    let mut i: usize = 0;
    while i < items.len()
        invariant
            t == trees(items@),
            t.len() == items@.len(),
            forall|j: int| 0 <= j < items@.len() ==> #[trigger] t[j] == tree(items@[j]),
            0 <= i <= items@.len(),
            forall|j: int| 0 <= j < i ==> name_of(t[j]) != Some(n@),
            0 <= name_index(t, n@) <= t.len(),
            name_index(t, n@) < t.len() ==> name_of(t[name_index(t, n@)]) == Some(n@),
            forall|j: int| 0 <= j < name_index(t, n@) ==> name_of(t[j]) != Some(n@),
        decreases items.len() - i,
    {
        assert(t[i as int] == tree(items@[i as int]));
        match get_name(&items[i]) {
            Some(s) => {
                if *s == *n {
                    return i;
                }
            },
            None => {},
        }
        i = i + 1;
    }
    i
}

/// Merges `right` onto `left`, down to `merge_depth` levels (see `merge_spec`).
///
/// Arrays below the merged levels are replaced, not merged: a user's list of
/// language-server arguments replaces the built-in one, while a user's
/// `[[language]]` entry is merged onto the built-in entry of the same name.
pub fn merge_toml_values(left: TomlValue, right: TomlValue, merge_depth: usize) -> (r: TomlValue)
    ensures
        tree(r) == merge_spec(tree(left), tree(right), merge_depth as nat),
    decreases merge_depth, 1nat, 0nat,
{
    match (left, right) {
        (TomlValue::Array(left_items), TomlValue::Array(right_items)) => {
            if merge_depth > 0 {
                TomlValue::Array(merge_item_lists(left_items, right_items, merge_depth))
            } else {
                TomlValue::Array(right_items)
            }
        },
        (TomlValue::Table(left_map), TomlValue::Table(right_map)) => {
            if merge_depth > 0 {
                TomlValue::Table(merge_entry_lists(left_map, right_map, merge_depth))
            } else {
                TomlValue::Table(right_map)
            }
        },
        (_, value) => value,
    }
}

/// See `merge_items`.
fn merge_item_lists(left_items: Vec<TomlValue>, right_items: Vec<TomlValue>, merge_depth: usize) -> (r: Vec<TomlValue>)
    requires
        merge_depth > 0,
    ensures
        trees(r@) == merge_items(trees(left_items@), trees(right_items@), merge_depth as nat),
    decreases merge_depth, 0nat, right_items@.len(),
{
    let mut left_items = left_items;
    let mut right_items = right_items;
    if right_items.len() == 0 {
        return left_items;
    }
    let ghost l0 = left_items@;
    let ghost r0 = right_items@;
    proof {
        lemma_trees(l0);
        lemma_trees(r0);
    }
    let rvalue = right_items.remove(0);
    proof {
        assert(right_items@ =~= r0.drop_first());
        lemma_trees(right_items@);
        assert(trees(right_items@) =~= trees(r0).drop_first());
        assert(trees(r0)[0] == tree(rvalue));
    }
    let pos = match get_name(&rvalue) {
        Some(rname) => {
            let p = find_name(&left_items, rname);
            if p < left_items.len() {
                Some(p)
            } else {
                None
            }
        },
        None => if left_items.len() > 0 {
            Some(0)
        } else {
            None
        },
    };
    match pos {
        Some(lpos) => {
            let lvalue = left_items.remove(lpos);
            let mvalue = merge_toml_values(lvalue, rvalue, merge_depth - 1);
            left_items.push(mvalue);
            proof {
                lemma_trees(left_items@);
                assert(trees(l0)[lpos as int] == tree(lvalue));
                assert(trees(left_items@) =~= trees(l0).remove(lpos as int).push(
                    merge_spec(trees(l0)[lpos as int], tree(rvalue), (merge_depth - 1) as nat),
                ));
            }
        },
        None => {
            left_items.push(rvalue);
            proof {
                lemma_trees(left_items@);
                assert(trees(left_items@) =~= trees(l0).push(tree(rvalue)));
            }
        },
    }
    merge_item_lists(left_items, right_items, merge_depth)
}

/// See `merge_entries`.
fn merge_entry_lists(left_map: Vec<(String, TomlValue)>, right_map: Vec<(String, TomlValue)>, merge_depth: usize) -> (r: Vec<(String, TomlValue)>)
    requires
        merge_depth > 0,
    ensures
        entry_trees(r@) == merge_entries(entry_trees(left_map@), entry_trees(right_map@), merge_depth as nat),
    decreases merge_depth, 0nat, right_map@.len(),
{
    let mut left_map = left_map;
    let mut right_map = right_map;
    if right_map.len() == 0 {
        return left_map;
    }
    let ghost l0 = left_map@;
    let ghost r0 = right_map@;
    proof {
        lemma_entry_trees(l0);
        lemma_entry_trees(r0);
    }
    let (rname, rvalue) = right_map.remove(0);
    proof {
        assert(right_map@ =~= r0.drop_first());
        lemma_entry_trees(right_map@);
        assert(entry_trees(right_map@) =~= entry_trees(r0).drop_first());
        assert(entry_trees(r0)[0] == (rname@, tree(rvalue)));
    }
    let p = find_key(&left_map, &rname);
    if p < left_map.len() {
        let (lname, lvalue) = left_map.remove(p);
        let merged_value = merge_toml_values(lvalue, rvalue, merge_depth - 1);
        left_map.push((rname, merged_value));
        proof {
            lemma_entry_trees(left_map@);
            assert(entry_trees(l0)[p as int] == (lname@, tree(lvalue)));
            assert(entry_trees(left_map@) =~= entry_trees(l0).remove(p as int).push(
                (rname@, merge_spec(entry_trees(l0)[p as int].1, tree(rvalue), (merge_depth - 1) as nat)),
            ));
        }
    } else {
        left_map.push((rname, rvalue));
        proof {
            lemma_entry_trees(left_map@);
            assert(entry_trees(left_map@) =~= entry_trees(l0).push((rname@, tree(rvalue))));
        }
    }
    merge_entry_lists(left_map, right_map, merge_depth)
}

} // verus!
