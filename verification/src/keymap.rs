//! Keymaps: tries of key events whose leaves are command sequences, and the
//! state machine that feeds keys through them.

use crate::command::{chars_of, find_command, find_command_spec, Command};
use crate::strings::{lowercase, push_str, string_from_chars, to_lowercase};
use crate::typed::{lex_le, lex_le_exec};
use vstd::prelude::*;
use vstd::string::StrSliceExecFns;

verus! {

/// A key, without modifiers.
#[derive(Debug, Clone, Copy, PartialEq, Eq, Structural)]
pub enum KeyCode {
    Backspace,
    Enter,
    Left,
    Right,
    Up,
    Down,
    Home,
    End,
    PageUp,
    PageDown,
    Tab,
    BackTab,
    Delete,
    Insert,
    F(u8),
    Char(char),
    Null,
    Esc,
}

/// A key pressed with modifiers: a set of bits, shift `1`, control `2`, alt `4`.
#[derive(Debug, Clone, Copy, PartialEq, Eq, Structural)]
pub struct KeyEvent {
    pub code: KeyCode,
    pub modifiers: u8,
}

/// A command a key is mapped to: its name and the arguments given to it.
#[derive(Debug)]
pub struct MappableCommand {
    pub name: String,
    pub supplied_args: Vec<String>,
}

/// `s` split at each space (two spaces in a row give an empty part).
pub open spec fn split_spaces(s: Seq<char>) -> Seq<Seq<char>>
    decreases s.len(),
{
    if s.len() == 0 {
        seq![Seq::empty()]
    } else {
        let parts = split_spaces(s.drop_last());
        if s.last() == ' ' {
            parts.push(Seq::empty())
        } else {
            parts.update(parts.len() - 1, parts.last().push(s.last()))
        }
    }
}

proof fn lemma_split_spaces_len(s: Seq<char>)
    ensures
        split_spaces(s).len() >= 1,
    decreases s.len(),
{
    if s.len() > 0 {
        lemma_split_spaces_len(s.drop_last());
    }
}

/// Whether command `c` is called `n`, by its name or an alias.
pub open spec fn named(c: Command, n: Seq<char>) -> bool {
    c.name@ == n || exists|i: int| 0 <= i < c.aliases@.len() && #[trigger] c.aliases@[i]@ == n
}

/// Index of the first command of `cs` called `n` (their number where there is none).
pub open spec fn command_index(cs: Seq<Command>, n: Seq<char>) -> int
    decreases cs.len(),
{
    if cs.len() == 0 {
        0
    } else if named(cs[0], n) {
        0
    } else {
        1 + command_index(cs.drop_first(), n)
    }
}

proof fn lemma_command_index(cs: Seq<Command>, n: Seq<char>)
    ensures
        0 <= command_index(cs, n) <= cs.len(),
        command_index(cs, n) < cs.len() ==> named(cs[command_index(cs, n)], n),
        forall|j: int| 0 <= j < command_index(cs, n) ==> !named(#[trigger] cs[j], n),
    decreases cs.len(),
{
    if cs.len() > 0 && !named(cs[0], n) {
        lemma_command_index(cs.drop_first(), n);
        assert forall|j: int| 0 <= j < command_index(cs, n) implies !named(#[trigger] cs[j], n) by {
            if j > 0 {
                assert(cs[j] == cs.drop_first()[j - 1]);
            }
        }
    }
}

/// Why a command could not be read.
#[derive(Debug, Clone, PartialEq, Eq, Structural)]
pub enum CommandParseError {
    /// No command has the name or alias given.
    NoSuchCommand,
    /// More arguments were given than the command takes.
    TooManyArguments,
}

/// Whether command `c` is called `n`.
fn is_named(c: &Command, n: &String) -> (b: bool)
    ensures
        b == named(*c, n@),
{
    if c.name == *n {
        return true;
    }
    let mut i: usize = 0;
    while i < c.aliases.len()
        invariant
            0 <= i <= c.aliases@.len(),
            c.name@ != n@,
            forall|j: int| 0 <= j < i ==> #[trigger] c.aliases@[j]@ != n@,
        decreases c.aliases.len() - i,
    {
        if c.aliases[i] == *n {
            return true;
        }
        i = i + 1;
    }
    false
}

impl MappableCommand {
    /// Reads a command from `s`: the name or an alias of one of `commands`,
    /// then its arguments, all separated by spaces. The command is named by
    /// its name, never by the alias given.
    pub fn from_str(s: &str, commands: &[Command]) -> (r: Result<MappableCommand, CommandParseError>)
        ensures
            ({
                let parts = split_spaces(s@);
                let i = command_index(commands@, parts[0]);
                if i >= commands@.len() {
                    r == Err::<MappableCommand, CommandParseError>(CommandParseError::NoSuchCommand)
                } else if parts.len() - 1 > commands@[i].args@.len() {
                    r == Err::<MappableCommand, CommandParseError>(CommandParseError::TooManyArguments)
                } else {
                    r matches Ok(m) && m.name@ == commands@[i].name@ && m.supplied_args@.map_values(
                        |a: String| a@,
                    ) == parts.drop_first()
                }
            }),
    {
        // Split at spaces.
        let n = s.unicode_len();
        let mut parts: Vec<Vec<char>> = Vec::new();
        parts.push(Vec::new());
        let mut k: usize = 0;
        proof {
            assert(s@.take(0) =~= Seq::<char>::empty());
            assert(parts@.map_values(|p: Vec<char>| p@) =~= split_spaces(s@.take(0)));
        }
        while k < n
            invariant
                n == s@.len(),
                0 <= k <= n,
                parts@.map_values(|p: Vec<char>| p@) == split_spaces(s@.take(k as int)),
                parts@.len() >= 1,
            decreases n - k,
        {
            let c = s.get_char(k);
            let ghost before = parts@.map_values(|p: Vec<char>| p@);
            proof {
                assert(s@.take(k + 1).drop_last() =~= s@.take(k as int));
                assert(s@.take(k + 1).last() == c);
            }
            if c == ' ' {
                parts.push(Vec::new());
            } else {
                let last = parts.len() - 1;
                let mut p = parts.remove(last);
                p.push(c);
                parts.push(p);
            }
            k = k + 1;
            proof {
                assert(parts@.map_values(|p: Vec<char>| p@) =~= split_spaces(s@.take(k as int)));
            }
        }
        proof {
            assert(s@.take(k as int) =~= s@);
            lemma_split_spaces_len(s@);
        }
        let ghost ps = parts@.map_values(|p: Vec<char>| p@);
        let name_or_alias = string_from_chars(parts[0].as_slice());
        // Look the command up by name or alias.
        proof {
            lemma_command_index(commands@, name_or_alias@);
        }
        let mut i: usize = 0;
        while i < commands.len() && !is_named(&commands[i], &name_or_alias)
            invariant
                0 <= i <= commands@.len(),
                forall|j: int| 0 <= j < i ==> !named(#[trigger] commands@[j], name_or_alias@),
                0 <= command_index(commands@, name_or_alias@) <= commands@.len(),
                command_index(commands@, name_or_alias@) < commands@.len() ==> named(
                    commands@[command_index(commands@, name_or_alias@)],
                    name_or_alias@,
                ),
                forall|j: int| 0 <= j < command_index(commands@, name_or_alias@) ==> !named(#[trigger] commands@[j], name_or_alias@),
            decreases commands.len() - i,
        {
            i = i + 1;
        }
        if i >= commands.len() {
            return Err(CommandParseError::NoSuchCommand);
        }
        if parts.len() - 1 > commands[i].args.len() {
            return Err(CommandParseError::TooManyArguments);
        }
        let mut supplied_args: Vec<String> = Vec::new();
        let mut j: usize = 1;
        while j < parts.len()
            invariant
                ps == parts@.map_values(|p: Vec<char>| p@),
                1 <= j <= parts@.len(),
                supplied_args@.len() == j - 1,
                forall|m: int| 0 <= m < j - 1 ==> #[trigger] supplied_args@[m]@ == ps[m + 1],
            decreases parts.len() - j,
        {
            supplied_args.push(string_from_chars(parts[j].as_slice()));
            j = j + 1;
        }
        proof {
            assert(supplied_args@.map_values(|a: String| a@) =~= ps.drop_first());
        }
        Ok(MappableCommand { name: commands[i].name.clone(), supplied_args })
    }

    /// The command's name (never one of its aliases).
    pub fn name(&self) -> (r: &str)
        ensures
            r@ == self.name@,
    {
        self.name.as_str()
    }
}

/// A child of a trie: the commands a key sequence ends in, or a trie of the
/// keys that may follow.
#[derive(Debug)]
pub enum KeyTrieNode {
    Commands(Vec<MappableCommand>),
    KeyTrie(KeyTrie),
}

/// Key events lead from a trie to its children.
#[derive(Debug)]
pub struct KeyTrie {
    pub description: String,
    pub children: Vec<(KeyEvent, KeyTrieNode)>,
    pub sticky: bool,
}

/// A command as the contracts see it: its name and arguments as text.
pub type CommandView = (Seq<char>, Seq<Seq<char>>);

/// A trie node as the contracts see it.
pub enum KeyNode {
    Commands(Seq<CommandView>),
    Trie(Seq<char>, Seq<(KeyEvent, KeyNode)>, bool),
}

pub open spec fn command_view(c: MappableCommand) -> CommandView {
    (c.name@, c.supplied_args@.map_values(|s: String| s@))
}

pub open spec fn node_model(n: KeyTrieNode) -> KeyNode
    decreases n, 2nat,
{
    match n {
        KeyTrieNode::Commands(cs) => KeyNode::Commands(cs@.map_values(|c: MappableCommand| command_view(c))),
        KeyTrieNode::KeyTrie(t) => trie_model(t),
    }
}

pub open spec fn trie_model(t: KeyTrie) -> KeyNode
    decreases t, 1nat,
{
    KeyNode::Trie(t.description@, children_model(t.children@), t.sticky)
}

pub open spec fn children_model(s: Seq<(KeyEvent, KeyTrieNode)>) -> Seq<(KeyEvent, KeyNode)>
    decreases s, 0nat,
{
    if s.len() == 0 {
        Seq::empty()
    } else {
        children_model(s.drop_last()).push((s.last().0, node_model(s.last().1)))
    }
}

proof fn lemma_children_model(s: Seq<(KeyEvent, KeyTrieNode)>)
    ensures
        children_model(s).len() == s.len(),
        forall|i: int| 0 <= i < s.len() ==> #[trigger] children_model(s)[i] == (s[i].0, node_model(s[i].1)),
    decreases s.len(),
{
    if s.len() > 0 {
        lemma_children_model(s.drop_last());
    }
}

fn clone_command(c: &MappableCommand) -> (r: MappableCommand)
    ensures
        command_view(r) == command_view(*c),
{
    let mut args: Vec<String> = Vec::new();
    let mut i: usize = 0;
    while i < c.supplied_args.len()
        invariant
            0 <= i <= c.supplied_args@.len(),
            args@.len() == i,
            forall|j: int| 0 <= j < i ==> #[trigger] args@[j]@ == c.supplied_args@[j]@,
        decreases c.supplied_args.len() - i,
    {
        args.push(c.supplied_args[i].clone());
        i = i + 1;
    }
    proof {
        assert(args@.map_values(|s: String| s@) =~= c.supplied_args@.map_values(|s: String| s@));
    }
    MappableCommand { name: c.name.clone(), supplied_args: args }
}

fn clone_node(n: &KeyTrieNode) -> (r: KeyTrieNode)
    ensures
        node_model(r) == node_model(*n),
    decreases n, 2nat,
{
    match n {
        KeyTrieNode::Commands(cs) => {
            let mut out: Vec<MappableCommand> = Vec::new();
            let mut i: usize = 0;
            while i < cs.len()
                invariant
                    0 <= i <= cs@.len(),
                    out@.len() == i,
                    forall|j: int| 0 <= j < i ==> command_view(#[trigger] out@[j]) == command_view(cs@[j]),
                decreases cs.len() - i,
            {
                out.push(clone_command(&cs[i]));
                i = i + 1;
            }
            proof {
                assert(out@.map_values(|c: MappableCommand| command_view(c)) =~= cs@.map_values(
                    |c: MappableCommand| command_view(c),
                ));
            }
            KeyTrieNode::Commands(out)
        },
        KeyTrieNode::KeyTrie(t) => KeyTrieNode::KeyTrie(clone_trie(t)),
    }
}

fn clone_trie(t: &KeyTrie) -> (r: KeyTrie)
    ensures
        trie_model(r) == trie_model(*t),
    decreases t, 1nat,
{
    let mut children: Vec<(KeyEvent, KeyTrieNode)> = Vec::new();
    let mut i: usize = 0;
    proof {
        lemma_children_model(t.children@);
    }
    while i < t.children.len()
        invariant
            0 <= i <= t.children@.len(),
            children_model(children@) == children_model(t.children@.take(i as int)),
        decreases t.children.len() - i,
    {
        let node = clone_node(&t.children[i].1);
        let ghost prev = children@;
        children.push((t.children[i].0, node));
        proof {
            assert(t.children@.take(i + 1).drop_last() =~= t.children@.take(i as int));
            assert(children@.drop_last() =~= prev);
        }
        i = i + 1;
    }
    proof {
        assert(t.children@.take(i as int) =~= t.children@);
    }
    KeyTrie { description: t.description.clone(), children, sticky: t.sticky }
}

/// Index of the first child of `ch` reached by `k` (their number where there is none).
pub open spec fn child_index(ch: Seq<(KeyEvent, KeyNode)>, k: KeyEvent) -> int
    decreases ch.len(),
{
    if ch.len() == 0 {
        0
    } else if ch[0].0 == k {
        0
    } else {
        1 + child_index(ch.drop_first(), k)
    }
}

/// The node `keys[depth..]` lead to from trie `t`: the trie reached once
/// the keys run out, or the commands a key leads to; `None` where a key
/// leads nowhere.
pub open spec fn traverse_spec(t: KeyNode, keys: Seq<KeyEvent>, depth: int) -> Option<KeyNode>
    decreases keys.len() - depth,
{
    match t {
        KeyNode::Trie(_, ch, _) => if depth >= keys.len() {
            Some(t)
        } else {
            let j = child_index(ch, keys[depth]);
            if j < ch.len() {
                match ch[j].1 {
                    KeyNode::Trie(_, _, _) => traverse_spec(ch[j].1, keys, depth + 1),
                    KeyNode::Commands(_) => Some(ch[j].1),
                }
            } else {
                None
            }
        },
        KeyNode::Commands(_) => None,
    }
}

/// The children `a` with the children `o` merged in, in turn: a trie under a
/// key that already leads to a trie is merged into it (which keeps its
/// description and stickiness); anything else takes the key's place, or is
/// added.
pub open spec fn merge_children(a: Seq<(KeyEvent, KeyNode)>, o: Seq<(KeyEvent, KeyNode)>) -> Seq<(KeyEvent, KeyNode)>
    decreases o,
{
    if o.len() == 0 {
        a
    } else {
        let k = o[0].0;
        let n = o[0].1;
        let j = child_index(a, k);
        let next = if j < a.len() {
            match (a[j].1, n) {
                (KeyNode::Trie(d2, ach, s2), KeyNode::Trie(_, och, _)) => {
                    proof {
                        assert(decreases_to!(o => o[0]));
                    }
                    a.update(j, (k, KeyNode::Trie(d2, merge_children(ach, och), s2)))
                },
                _ => a.update(j, (k, n)),
            }
        } else {
            a.push((k, n))
        };
        merge_children(next, o.drop_first())
    }
}

proof fn lemma_child_index(ch: Seq<(KeyEvent, KeyNode)>, k: KeyEvent)
    ensures
        0 <= child_index(ch, k) <= ch.len(),
        child_index(ch, k) < ch.len() ==> ch[child_index(ch, k)].0 == k,
        forall|j: int| 0 <= j < child_index(ch, k) ==> ch[j].0 != k,
    decreases ch.len(),
{
    if ch.len() > 0 && ch[0].0 != k {
        lemma_child_index(ch.drop_first(), k);
        assert forall|j: int| 0 <= j < child_index(ch, k) implies ch[j].0 != k by {
            if j > 0 {
                assert(ch[j] == ch.drop_first()[j - 1]);
            }
        }
    }
}

/// One step of `merge_children`: the node `n` merged in under key `k`.
spec fn merge_one(a: Seq<(KeyEvent, KeyNode)>, k: KeyEvent, n: KeyNode) -> Seq<(KeyEvent, KeyNode)> {
    let j = child_index(a, k);
    if j < a.len() {
        match (a[j].1, n) {
            (KeyNode::Trie(d2, ach, s2), KeyNode::Trie(_, och, _)) => a.update(
                j,
                (k, KeyNode::Trie(d2, merge_children(ach, och), s2)),
            ),
            _ => a.update(j, (k, n)),
        }
    } else {
        a.push((k, n))
    }
}

proof fn lemma_merge_unfold(a: Seq<(KeyEvent, KeyNode)>, o: Seq<(KeyEvent, KeyNode)>)
    requires
        o.len() > 0,
    ensures
        merge_children(a, o) == merge_children(merge_one(a, o[0].0, o[0].1), o.drop_first()),
{
}

/// Children with the same keys in the same places are found by a key at the
/// same index.
proof fn lemma_child_index_same_keys(a: Seq<(KeyEvent, KeyNode)>, b: Seq<(KeyEvent, KeyNode)>, k: KeyEvent)
    requires
        a.len() == b.len(),
        forall|i: int| 0 <= i < a.len() ==> #[trigger] a[i].0 == b[i].0,
    ensures
        child_index(a, k) == child_index(b, k),
    decreases a.len(),
{
    if a.len() > 0 && a[0].0 != k {
        assert forall|i: int| 0 <= i < a.drop_first().len() implies #[trigger] a.drop_first()[i].0
            == b.drop_first()[i].0 by {
            assert(a[i + 1].0 == b[i + 1].0);
        }
        lemma_child_index_same_keys(a.drop_first(), b.drop_first(), k);
    }
}

/// A child pushed at the end is found by its key only where no earlier child
/// has that key.
proof fn lemma_child_index_push(a: Seq<(KeyEvent, KeyNode)>, x: (KeyEvent, KeyNode), k: KeyEvent)
    ensures
        child_index(a.push(x), k) == if child_index(a, k) < a.len() {
            child_index(a, k)
        } else if x.0 == k {
            a.len() as int
        } else {
            a.len() + 1int
        },
    decreases a.len(),
{
    lemma_child_index(a, k);
    assert(a.push(x)[0] == if a.len() > 0 { a[0] } else { x });
    if a.len() == 0 {
        assert(a.push(x).drop_first() =~= Seq::<(KeyEvent, KeyNode)>::empty());
        assert(child_index(a.push(x).drop_first(), k) == 0);
    } else if a[0].0 != k {
        assert(a.push(x).drop_first() =~= a.drop_first().push(x));
        lemma_child_index_push(a.drop_first(), x, k);
        assert(child_index(a, k) == 1 + child_index(a.drop_first(), k));
        assert(child_index(a.push(x), k) == 1 + child_index(a.drop_first().push(x), k));
    }
}

/// A merge step under another key leaves the child under `k` as it was.
proof fn lemma_merge_one_other(a: Seq<(KeyEvent, KeyNode)>, k0: KeyEvent, n: KeyNode, k: KeyEvent)
    requires
        k0 != k,
    ensures
        child_index(merge_one(a, k0, n), k) < merge_one(a, k0, n).len() <==> child_index(a, k) < a.len(),
        child_index(a, k) < a.len() ==> child_index(merge_one(a, k0, n), k) == child_index(a, k)
            && merge_one(a, k0, n)[child_index(a, k)] == a[child_index(a, k)],
{
    let b = merge_one(a, k0, n);
    let j = child_index(a, k0);
    lemma_child_index(a, k0);
    lemma_child_index(a, k);
    if j < a.len() {
        assert(b.len() == a.len());
        assert forall|i: int| 0 <= i < a.len() implies #[trigger] a[i].0 == b[i].0 by {}
        lemma_child_index_same_keys(a, b, k);
        if child_index(a, k) < a.len() {
            assert(child_index(a, k) != j);
        }
    } else {
        lemma_child_index_push(a, (k0, n), k);
    }
}

/// Keys that `other` does not have keep, after merging, what the base has
/// under them, or stay absent.
pub proof fn lemma_merge_keeps(a: Seq<(KeyEvent, KeyNode)>, o: Seq<(KeyEvent, KeyNode)>, k: KeyEvent)
    requires
        forall|m: int| 0 <= m < o.len() ==> #[trigger] o[m].0 != k,
    ensures
        child_index(merge_children(a, o), k) < merge_children(a, o).len() <==> child_index(a, k) < a.len(),
        child_index(a, k) < a.len() ==> merge_children(a, o)[child_index(merge_children(a, o), k)] == a[child_index(a, k)],
    decreases o.len(),
{
    if o.len() > 0 {
        lemma_merge_unfold(a, o);
        assert(o[0].0 != k);
        lemma_merge_one_other(a, o[0].0, o[0].1, k);
        assert forall|m: int| 0 <= m < o.drop_first().len() implies #[trigger] o.drop_first()[m].0 != k by {
            assert(o[m + 1].0 != k);
        }
        lemma_merge_keeps(merge_one(a, o[0].0, o[0].1), o.drop_first(), k);
    }
}

/// Each key of `other` (whose keys are distinct) leads, after merging, to
/// what `other` has under it, except where both lead to tries: then to a
/// trie that keeps the base's description and stickiness and has the two
/// tries' children merged. So a key of `other` that leads to a trie leads
/// to a trie in the result.
pub proof fn lemma_merge_takes_other(a: Seq<(KeyEvent, KeyNode)>, o: Seq<(KeyEvent, KeyNode)>, i: int)
    requires
        forall|x: int, y: int| 0 <= x < y < o.len() ==> #[trigger] o[x].0 != #[trigger] o[y].0,
        0 <= i < o.len(),
    ensures
        ({
            let r = merge_children(a, o);
            let k = o[i].0;
            let ja = child_index(a, k);
            let jr = child_index(r, k);
            &&& 0 <= jr < r.len()
            &&& r[jr].0 == k
            &&& o[i].1 is Trie ==> r[jr].1 is Trie
            &&& r[jr].1 == if ja < a.len() && a[ja].1 is Trie && o[i].1 is Trie {
                KeyNode::Trie(
                    a[ja].1->Trie_0,
                    merge_children(a[ja].1->Trie_1, o[i].1->Trie_1),
                    a[ja].1->Trie_2,
                )
            } else {
                o[i].1
            }
        }),
    decreases o.len(),
{
    let k = o[i].0;
    lemma_merge_unfold(a, o);
    let b = merge_one(a, o[0].0, o[0].1);
    lemma_child_index(a, k);
    if i == 0 {
        assert forall|m: int| 0 <= m < o.drop_first().len() implies #[trigger] o.drop_first()[m].0 != k by {
            assert(o[0].0 != o[m + 1].0);
        }
        let ja = child_index(a, k);
        if ja < a.len() {
            assert(b.len() == a.len());
            assert forall|x: int| 0 <= x < a.len() implies #[trigger] a[x].0 == b[x].0 by {}
            lemma_child_index_same_keys(a, b, k);
        } else {
            lemma_child_index_push(a, (k, o[0].1), k);
        }
        lemma_child_index(b, k);
        lemma_merge_keeps(b, o.drop_first(), k);
        lemma_child_index(merge_children(a, o), k);
    } else {
        assert(o[0].0 != o[i].0);
        lemma_merge_one_other(a, o[0].0, o[0].1, k);
        assert forall|x: int, y: int| 0 <= x < y < o.drop_first().len() implies #[trigger] o.drop_first()[x].0
            != #[trigger] o.drop_first()[y].0 by {
            assert(o[x + 1].0 != o[y + 1].0);
        }
        assert(o.drop_first()[i - 1] == o[i]);
        lemma_merge_takes_other(b, o.drop_first(), i - 1);
    }
}

/// Index of the first child of `t` reached by `k`.
fn find_child(t: &KeyTrie, k: KeyEvent) -> (j: usize)
    ensures
        j == child_index(children_model(t.children@), k),
        j <= t.children@.len(),
{
    let ghost m = children_model(t.children@);
    proof {
        lemma_children_model(t.children@);
        lemma_child_index(m, k);
    }
    let mut j: usize = 0;
    while j < t.children.len()
        invariant
            m == children_model(t.children@),
            m.len() == t.children@.len(),
            forall|i: int| 0 <= i < t.children@.len() ==> #[trigger] m[i] == (t.children@[i].0, node_model(t.children@[i].1)),
            0 <= j <= m.len(),
            forall|i: int| 0 <= i < j ==> m[i].0 != k,
            0 <= child_index(m, k) <= m.len(),
            child_index(m, k) < m.len() ==> m[child_index(m, k)].0 == k,
            forall|i: int| 0 <= i < child_index(m, k) ==> m[i].0 != k,
        decreases t.children.len() - j,
    {
        assert(m[j as int].0 == t.children@[j as int].0);
        if t.children[j].0 == k {
            return j;
        }
        j = j + 1;
    }
    j
}

impl KeyTrie {
    /// A trie with `description` and `children`, not sticky.
    pub fn new(description: &str, children: Vec<(KeyEvent, KeyTrieNode)>) -> (t: KeyTrie)
        ensures
            trie_model(t) == KeyNode::Trie(description@, children_model(children@), false),
    {
        KeyTrie { description: description.to_owned(), children, sticky: false }
    }

    /// A trie with `description` and `children` that stays active after a key
    /// leads through it.
    pub fn new_sticky(description: &str, children: Vec<(KeyEvent, KeyTrieNode)>) -> (t: KeyTrie)
        ensures
            trie_model(t) == KeyNode::Trie(description@, children_model(children@), true),
    {
        KeyTrie { sticky: true, ..KeyTrie::new(description, children) }
    }

    pub fn is_sticky(&self) -> (b: bool)
        ensures
            b == self.sticky,
    {
        self.sticky
    }

    /// The node `key_events` lead to from this trie (see `traverse_spec`).
    pub fn traverse(&self, key_events: &[KeyEvent]) -> (r: Option<KeyTrieNode>)
        ensures
            match r {
                Some(n) => traverse_spec(trie_model(*self), key_events@, 0) == Some(node_model(n)),
                None => traverse_spec(trie_model(*self), key_events@, 0).is_none(),
            },
    {
        let mut cur: &KeyTrie = self;
        let mut depth: usize = 0;
        loop
            invariant
                depth <= key_events@.len(),
                traverse_spec(trie_model(*cur), key_events@, depth as int) == traverse_spec(
                    trie_model(*self),
                    key_events@,
                    0,
                ),
            decreases key_events@.len() - depth,
        {
            if depth == key_events.len() {
                return Some(KeyTrieNode::KeyTrie(clone_trie(cur)));
            }
            let j = find_child(cur, key_events[depth]);
            proof {
                lemma_children_model(cur.children@);
            }
            if j >= cur.children.len() {
                return None;
            }
            match &cur.children[j].1 {
                KeyTrieNode::KeyTrie(sub) => {
                    cur = sub;
                    depth = depth + 1;
                },
                KeyTrieNode::Commands(_) => {
                    return Some(clone_node(&cur.children[j].1));
                },
            }
        }
    }
}

impl KeyTrie {
    /// Merges the children of `other` into this trie (see `merge_children`).
    pub fn merge_keytrie(&mut self, other_keytrie: KeyTrie)
        ensures
            trie_model(*final(self)) == KeyNode::Trie(
                old(self).description@,
                merge_children(children_model(old(self).children@), children_model(other_keytrie.children@)),
                old(self).sticky,
            ),
    {
        self.merge_from(&other_keytrie);
    }

    fn merge_from(&mut self, other: &KeyTrie)
        ensures
            final(self).description == old(self).description,
            final(self).sticky == old(self).sticky,
            children_model(final(self).children@) == merge_children(
                children_model(old(self).children@),
                children_model(other.children@),
            ),
        decreases other,
    {
        let ghost o = children_model(other.children@);
        let ghost target = merge_children(children_model(self.children@), o);
        proof {
            lemma_children_model(other.children@);
            assert(o.skip(0) =~= o);
        }
        let mut i: usize = 0;
        while i < other.children.len()
            invariant
                o == children_model(other.children@),
                o.len() == other.children@.len(),
                forall|m: int| 0 <= m < other.children@.len() ==> #[trigger] o[m] == (other.children@[m].0, node_model(other.children@[m].1)),
                0 <= i <= o.len(),
                merge_children(children_model(self.children@), o.skip(i as int)) == target,
                self.description == old(self).description,
                self.sticky == old(self).sticky,
            decreases other.children.len() - i,
        {
            let k = other.children[i].0;
            let node = &other.children[i].1;
            let ghost a = children_model(self.children@);
            proof {
                lemma_children_model(self.children@);
                assert(o.skip(i as int).drop_first() =~= o.skip(i + 1));
                assert(o.skip(i as int)[0] == o[i as int]);
            }
            let j = find_child(self, k);
            proof {
                lemma_child_index(a, k);
            }
            let ghost next = if j < a.len() {
                match (a[j as int].1, o[i as int].1) {
                    (KeyNode::Trie(d2, ach, s2), KeyNode::Trie(_, och, _)) => a.update(
                        j as int,
                        (k, KeyNode::Trie(d2, merge_children(ach, och), s2)),
                    ),
                    _ => a.update(j as int, (k, o[i as int].1)),
                }
            } else {
                a.push((k, o[i as int].1))
            };
            let ghost old_children = self.children@;
            if j < self.children.len() {
                let child_is_trie = match &self.children[j].1 {
                    KeyTrieNode::KeyTrie(_) => true,
                    _ => false,
                };
                match node {
                    KeyTrieNode::KeyTrie(osub) => {
                        if child_is_trie {
                            let (kk, child) = self.children.remove(j);
                            let child = match child {
                                KeyTrieNode::KeyTrie(mut sub) => {
                                    let ghost sub0 = sub;
                                    sub.merge_from(osub);
                                    proof {
                                        assert(a[j as int].1 == trie_model(sub0));
                                        assert(o[i as int].1 == trie_model(*osub));
                                    }
                                    KeyTrieNode::KeyTrie(sub)
                                },
                                other_node => other_node,
                            };
                            self.children.insert(j, (kk, child));
                            proof {
                                assert(self.children@ =~= old_children.update(j as int, (kk, child)));
                                lemma_children_model(self.children@);
                                assert(children_model(self.children@) =~= next);
                            }
                        } else {
                            let n = clone_node(node);
                            self.children.set(j, (k, n));
                            proof {
                                lemma_children_model(self.children@);
                                assert(a[j as int].1 is Commands);
                                assert(children_model(self.children@) =~= next);
                            }
                        }
                    },
                    KeyTrieNode::Commands(_) => {
                        let n = clone_node(node);
                        self.children.set(j, (k, n));
                        proof {
                            lemma_children_model(self.children@);
                            assert(o[i as int].1 is Commands);
                            assert(children_model(self.children@) =~= next);
                        }
                    },
                }
            } else {
                let n = clone_node(node);
                self.children.push((k, n));
                proof {
                    lemma_children_model(self.children@);
                    assert(children_model(self.children@) =~= next);
                }
            }
            i = i + 1;
        }
        proof {
            assert(o.skip(i as int) =~= Seq::<(KeyEvent, KeyNode)>::empty());
        }
    }
}

impl Default for KeyTrie {
    fn default() -> (t: KeyTrie)
        ensures
            trie_model(t) == KeyNode::Trie(Seq::empty(), Seq::empty(), false),
    {
        let t = KeyTrie::new("", Vec::new());
        proof {
            reveal_strlit("");
            assert(""@ =~= Seq::<char>::empty());
            assert(children_model(Seq::<(KeyEvent, KeyTrieNode)>::empty()) =~= Seq::empty());
        }
        t
    }
}

/// What feeding a key to the keymaps gives.
#[derive(Debug)]
pub enum KeymapResult {
    /// More keys are needed; the trie they continue in.
    Pending(KeyTrie),
    Matched(MappableCommand),
    MatchedCommandSequence(Vec<MappableCommand>),
    NotFound,
    /// The keys pressed up to the cancellation.
    Cancelled(Vec<KeyEvent>),
}

/// A keymap result as the contracts see it.
pub enum ResultView {
    Pending(KeyNode),
    Matched(CommandView),
    MatchedCommandSequence(Seq<CommandView>),
    NotFound,
    Cancelled(Seq<KeyEvent>),
}

pub open spec fn result_view(r: KeymapResult) -> ResultView {
    match r {
        KeymapResult::Pending(t) => ResultView::Pending(trie_model(t)),
        KeymapResult::Matched(c) => ResultView::Matched(command_view(c)),
        KeymapResult::MatchedCommandSequence(cs) => ResultView::MatchedCommandSequence(
            cs@.map_values(|c: MappableCommand| command_view(c)),
        ),
        KeymapResult::NotFound => ResultView::NotFound,
        KeymapResult::Cancelled(ks) => ResultView::Cancelled(ks@),
    }
}

/// The escape key, which cancels.
pub open spec fn is_escape(k: KeyEvent) -> bool {
    k == KeyEvent { code: KeyCode::Esc, modifiers: 0 }
}

/// The result for reaching the commands `cs`: the command where there is
/// one, else the sequence.
pub open spec fn matched(cs: Seq<CommandView>) -> ResultView {
    if cs.len() == 1 {
        ResultView::Matched(cs[0])
    } else {
        ResultView::MatchedCommandSequence(cs)
    }
}

/// The state the keymaps keep between keys: the keys pressed since the last
/// result, and the sticky trie the keys are looked up from, if any.
pub struct Keymaps {
    pending_keys: Vec<KeyEvent>,
    pub sticky_keytrie: Option<KeyTrie>,
}

/// What `Keymaps::get` does, from the keys `pending` and the sticky trie
/// `sticky` (`None` where there is none) with root trie `root`: the result,
/// the pending keys after it and the sticky trie after it.
///
/// Escape cancels the pending keys; without any it leaves the sticky trie.
/// The first pending key (or `key`) is looked up from the sticky trie or the
/// root: commands there are the result, nothing there is `NotFound`. Else
/// `key` is added to the pending keys and the keys after the first are
/// followed from the trie found: a trie means more keys are awaited (a
/// sticky one becomes the new start and the keys are cleared), commands are
/// the result and clear the keys, and nothing cancels them.
pub open spec fn get_spec(pending: Seq<KeyEvent>, sticky: Option<KeyNode>, root: KeyNode, key: KeyEvent) -> (ResultView, Seq<KeyEvent>, Option<KeyNode>) {
    if is_escape(key) && pending.len() > 0 {
        (ResultView::Cancelled(pending), Seq::empty(), sticky)
    } else {
        let sticky = if is_escape(key) { None } else { sticky };
        let start = match sticky {
            Some(t) => t,
            None => root,
        };
        let first = if pending.len() > 0 { pending[0] } else { key };
        match traverse_spec(start, seq![first], 0) {
            Some(KeyNode::Commands(cs)) => (matched(cs), pending, sticky),
            None => (ResultView::NotFound, pending, sticky),
            Some(sub) => {
                let pending = pending.push(key);
                match traverse_spec(sub, pending.skip(1), 0) {
                    Some(KeyNode::Trie(d, ch, st)) => if st {
                        (ResultView::Pending(KeyNode::Trie(d, ch, st)), Seq::empty(), Some(KeyNode::Trie(d, ch, st)))
                    } else {
                        (ResultView::Pending(KeyNode::Trie(d, ch, st)), pending, sticky)
                    },
                    Some(KeyNode::Commands(cs)) => (matched(cs), Seq::empty(), sticky),
                    None => (ResultView::Cancelled(pending), Seq::empty(), sticky),
                }
            },
        }
    }
}

/// The result for the commands `cs`.
fn matched_result(cs: &Vec<MappableCommand>) -> (r: KeymapResult)
    ensures
        result_view(r) == matched(cs@.map_values(|c: MappableCommand| command_view(c))),
{
    if cs.len() == 1 {
        KeymapResult::Matched(clone_command(&cs[0]))
    } else {
        KeymapResult::MatchedCommandSequence(clone_commands(cs))
    }
}

fn clone_commands(cs: &Vec<MappableCommand>) -> (r: Vec<MappableCommand>)
    ensures
        r@.map_values(|c: MappableCommand| command_view(c)) == cs@.map_values(|c: MappableCommand| command_view(c)),
{
    let mut out: Vec<MappableCommand> = Vec::new();
    let mut i: usize = 0;
    while i < cs.len()
        invariant
            0 <= i <= cs@.len(),
            out@.len() == i,
            forall|j: int| 0 <= j < i ==> command_view(#[trigger] out@[j]) == command_view(cs@[j]),
        decreases cs.len() - i,
    {
        out.push(clone_command(&cs[i]));
        i = i + 1;
    }
    proof {
        assert(out@.map_values(|c: MappableCommand| command_view(c)) =~= cs@.map_values(|c: MappableCommand| command_view(c)));
    }
    out
}

impl Keymaps {
    /// No pending keys and no sticky trie.
    pub fn new() -> (k: Keymaps)
        ensures
            k.pending_spec().len() == 0,
            k.sticky_spec().is_none(),
    {
        Keymaps { pending_keys: Vec::new(), sticky_keytrie: None }
    }

    /// The keys pressed since the last result.
    pub closed spec fn pending_spec(&self) -> Seq<KeyEvent> {
        self.pending_keys@
    }

    /// The sticky trie keys are looked up from, if any.
    pub closed spec fn sticky_spec(&self) -> Option<KeyNode> {
        match self.sticky_keytrie {
            Some(t) => Some(trie_model(t)),
            None => None,
        }
    }

    /// The keys waiting to be told apart.
    pub fn pending(&self) -> (p: &[KeyEvent])
        ensures
            p@ == self.pending_spec(),
    {
        self.pending_keys.as_slice()
    }

    /// The sticky trie keys are looked up from, if any.
    pub fn sticky_keytrie(&self) -> (t: Option<&KeyTrie>)
        ensures
            match t {
                Some(x) => self.sticky_spec() == Some(trie_model(*x)),
                None => self.sticky_spec().is_none(),
            },
    {
        match &self.sticky_keytrie {
            Some(t) => Some(t),
            None => None,
        }
    }

    /// Feeds `key` to the keymaps whose root trie for the current mode is
    /// `root` (see `get_spec`).
    pub fn get(&mut self, root: &KeyTrie, key: KeyEvent) -> (r: KeymapResult)
        ensures
            ({
                let (res, pending, sticky_after) = get_spec(
                    old(self).pending_spec(),
                    old(self).sticky_spec(),
                    trie_model(*root),
                    key,
                );
                &&& result_view(r) == res
                &&& final(self).pending_spec() == pending
                &&& final(self).sticky_spec() == sticky_after
            }),
    {
        let esc = KeyEvent { code: KeyCode::Esc, modifiers: 0 };
        if key == esc {
            if self.pending_keys.len() > 0 {
                let mut keys: Vec<KeyEvent> = Vec::new();
                std::mem::swap(&mut keys, &mut self.pending_keys);
                return KeymapResult::Cancelled(keys);
            }
            self.sticky_keytrie = None;
        }
        let first_key = if self.pending_keys.len() > 0 {
            self.pending_keys[0]
        } else {
            key
        };
        let mut first: Vec<KeyEvent> = Vec::new();
        first.push(first_key);
        let found = match &self.sticky_keytrie {
            None => root.traverse(first.as_slice()),
            Some(active_sticky_keytrie) => active_sticky_keytrie.traverse(first.as_slice()),
        };
        proof {
            assert(first@ =~= seq![first_key]);
        }
        let pending_keytrie: KeyTrie = match found {
            Some(KeyTrieNode::KeyTrie(sub_keytrie)) => sub_keytrie,
            Some(KeyTrieNode::Commands(cmds)) => {
                return matched_result(&cmds);
            },
            None => {
                return KeymapResult::NotFound;
            },
        };
        self.pending_keys.push(key);
        let rest = tail(self.pending_keys.as_slice());
        match pending_keytrie.traverse(rest.as_slice()) {
            Some(KeyTrieNode::KeyTrie(map)) => {
                if map.sticky {
                    self.pending_keys.clear();
                    self.sticky_keytrie = Some(clone_trie(&map));
                }
                KeymapResult::Pending(map)
            },
            Some(KeyTrieNode::Commands(cmds)) => {
                self.pending_keys.clear();
                matched_result(&cmds)
            },
            None => {
                let mut keys: Vec<KeyEvent> = Vec::new();
                std::mem::swap(&mut keys, &mut self.pending_keys);
                KeymapResult::Cancelled(keys)
            },
        }
    }
}

/// The keys after the first.
fn tail(keys: &[KeyEvent]) -> (r: Vec<KeyEvent>)
    requires
        keys@.len() > 0,
    ensures
        r@ == keys@.skip(1),
{
    let mut r: Vec<KeyEvent> = Vec::new();
    let mut i: usize = 1;
    while i < keys.len()
        invariant
            1 <= i <= keys@.len(),
            r@ == keys@.subrange(1, i as int),
        decreases keys.len() - i,
    {
        r.push(keys[i]);
        i = i + 1;
        proof {
            assert(r@ =~= keys@.subrange(1, i as int));
        }
    }
    proof {
        assert(keys@.subrange(1, i as int) =~= keys@.skip(1));
    }
    r
}

/// Following no keys from a trie gives the trie itself.
pub proof fn lemma_traverse_no_keys(t: KeyNode)
    requires
        t is Trie,
    ensures
        traverse_spec(t, Seq::empty(), 0) == Some(t),
{
}

/// Escape with keys pending cancels them: the result holds exactly those
/// keys and none is left pending. Whenever the result is a cancellation, no
/// key is left pending.
pub proof fn lemma_escape_cancels(pending: Seq<KeyEvent>, sticky: Option<KeyNode>, root: KeyNode, key: KeyEvent)
    ensures
        is_escape(key) && pending.len() > 0 ==> get_spec(pending, sticky, root, key).0 == ResultView::Cancelled(pending),
        get_spec(pending, sticky, root, key).0 is Cancelled ==> get_spec(pending, sticky, root, key).1.len() == 0,
{
}

/// Following keys from depth `d + 1` is following the keys after the first
/// from depth `d`.
proof fn lemma_traverse_skip(t: KeyNode, keys: Seq<KeyEvent>, d: int)
    requires
        keys.len() >= 1,
        0 <= d,
    ensures
        traverse_spec(t, keys, d + 1) == traverse_spec(t, keys.skip(1), d),
    decreases keys.len() - d,
{
    match t {
        KeyNode::Trie(_, ch, _) => {
            if d + 1 < keys.len() {
                assert(keys.skip(1)[d] == keys[d + 1]);
                let j = child_index(ch, keys[d + 1]);
                if j < ch.len() {
                    if ch[j].1 is Trie {
                        lemma_traverse_skip(ch[j].1, keys, d + 1);
                    }
                }
            }
        },
        KeyNode::Commands(_) => {},
    }
}

/// The result of feeding `key` when the keys `pending` (at least one) are
/// waiting in a trie that is not sticky: it is decided by where `pending`
/// followed by `key` lead from the start (the sticky trie where there is
/// one, else the root). A trie there is awaited further (a sticky one
/// becomes the start and clears the keys), commands there are matched and
/// clear the keys, and where they lead nowhere the keys are cancelled.
pub proof fn lemma_get_follows_keys(pending: Seq<KeyEvent>, sticky: Option<KeyNode>, root: KeyNode, key: KeyEvent)
    requires
        !is_escape(key),
        pending.len() >= 1,
        traverse_spec(
            match sticky {
                Some(t) => t,
                None => root,
            },
            pending,
            0,
        ) matches Some(KeyNode::Trie(_, _, false)),
    ensures
        ({
            let start = match sticky {
                Some(t) => t,
                None => root,
            };
            let (res, keys, sticky_after) = get_spec(pending, sticky, root, key);
            match traverse_spec(start, pending.push(key), 0) {
                Some(KeyNode::Trie(d, ch, st)) => {
                    &&& res == ResultView::Pending(KeyNode::Trie(d, ch, st))
                    &&& st ==> keys.len() == 0 && sticky_after == Some(KeyNode::Trie(d, ch, st))
                    &&& !st ==> keys == pending.push(key) && sticky_after == sticky
                },
                Some(KeyNode::Commands(cs)) => res == matched(cs) && keys.len() == 0 && sticky_after == sticky,
                None => res == ResultView::Cancelled(pending.push(key)) && keys.len() == 0 && sticky_after == sticky,
            }
        }),
{
    let start = match sticky {
        Some(t) => t,
        None => root,
    };
    let p = pending.push(key);
    assert(p[0] == pending[0]);
    assert(seq![pending[0]][0] == pending[0]);
    match start {
        KeyNode::Trie(_, ch, _) => {
            let j = child_index(ch, pending[0]);
            assert(j < ch.len());
            assert(ch[j].1 is Trie);
            assert(traverse_spec(ch[j].1, seq![pending[0]], 1) == Some(ch[j].1));
            assert(traverse_spec(start, seq![pending[0]], 0) == Some(ch[j].1));
            lemma_traverse_skip(ch[j].1, p, 0);
            assert(traverse_spec(start, p, 0) == traverse_spec(ch[j].1, p, 1));
        },
        KeyNode::Commands(_) => {},
    }
}

/// The result of feeding `key` with no keys pending: it is decided by where
/// `key` alone leads from the start (the sticky trie where there is one,
/// else the root). Commands there are matched, a trie there is awaited
/// further (a sticky one becomes the start), and where it leads nowhere
/// nothing is found.
pub proof fn lemma_get_first_key(sticky: Option<KeyNode>, root: KeyNode, key: KeyEvent)
    requires
        !is_escape(key),
    ensures
        ({
            let start = match sticky {
                Some(t) => t,
                None => root,
            };
            let (res, keys, sticky_after) = get_spec(Seq::empty(), sticky, root, key);
            match traverse_spec(start, seq![key], 0) {
                Some(KeyNode::Trie(d, ch, st)) => {
                    &&& res == ResultView::Pending(KeyNode::Trie(d, ch, st))
                    &&& st ==> keys.len() == 0 && sticky_after == Some(KeyNode::Trie(d, ch, st))
                    &&& !st ==> keys == seq![key] && sticky_after == sticky
                },
                Some(KeyNode::Commands(cs)) => res == matched(cs) && keys.len() == 0 && sticky_after == sticky,
                None => res == ResultView::NotFound && keys.len() == 0 && sticky_after == sticky,
            }
        }),
{
    let p = Seq::<KeyEvent>::empty().push(key);
    assert(p =~= seq![key]);
    assert(p.skip(1) =~= Seq::<KeyEvent>::empty());
}

/// Escape with no keys pending drops the sticky trie: it is then looked up
/// from the root, as if there had been no sticky trie.
pub proof fn lemma_escape_leaves_sticky(sticky: Option<KeyNode>, root: KeyNode, key: KeyEvent)
    requires
        is_escape(key),
    ensures
        get_spec(Seq::empty(), sticky, root, key) == get_spec(Seq::empty(), None, root, key),
{
}

/// The help shown for a child of a trie: nothing for a `no_op` command; the
/// description of a single command (found among `commands` by its name,
/// empty where none is called so); `[Multiple commands]` for a sequence; the
/// description of a sub-trie.
pub open spec fn child_doc(node: KeyTrieNode, commands: Seq<Command>) -> Option<Seq<char>> {
    match node {
        KeyTrieNode::Commands(cs) => if cs@[0].name@ == "no_op"@ {
            None
        } else if cs@.len() == 1 {
            let i = find_command_spec(commands, cs@[0].name@);
            Some(if i < commands.len() { commands[i].description@ } else { Seq::empty() })
        } else {
            Some("[Multiple commands]"@)
        },
        KeyTrieNode::KeyTrie(t) => Some(t.description@),
    }
}

/// Index of the first group with help `doc` (their number where there is none).
pub open spec fn group_index(gs: Seq<(Seq<Seq<char>>, Seq<char>)>, doc: Seq<char>) -> int
    decreases gs.len(),
{
    if gs.len() == 0 {
        0
    } else if gs[0].1 == doc {
        0
    } else {
        1 + group_index(gs.drop_first(), doc)
    }
}

/// The keys `keys` (with helps `docs`, `None` to skip) grouped by help: a
/// key joins the group of its help, or starts one after the others.
pub open spec fn group_keys(keys: Seq<Seq<char>>, docs: Seq<Option<Seq<char>>>) -> Seq<(Seq<Seq<char>>, Seq<char>)>
    decreases keys.len(),
{
    if keys.len() == 0 || docs.len() == 0 {
        Seq::empty()
    } else {
        let gs = group_keys(keys.drop_last(), docs.drop_last());
        match docs.last() {
            None => gs,
            Some(d) => {
                let p = group_index(gs, d);
                if p < gs.len() {
                    gs.update(p, (gs[p].0.push(keys.last()), d))
                } else {
                    gs.push((seq![keys.last()], d))
                }
            },
        }
    }
}

/// `k` put into `s` after every key no longer than it.
pub open spec fn insert_by_len(s: Seq<Seq<char>>, k: Seq<char>) -> Seq<Seq<char>>
    decreases s.len(),
{
    if s.len() == 0 || s.last().len() <= k.len() {
        s.push(k)
    } else {
        insert_by_len(s.drop_last(), k).push(s.last())
    }
}

/// The keys ordered shortest first (keys of one length in their order), so
/// that one-letter keys come before `C-` keys.
pub open spec fn sort_by_len(ks: Seq<Seq<char>>) -> Seq<Seq<char>>
    decreases ks.len(),
{
    if ks.len() == 0 {
        ks
    } else {
        insert_by_len(sort_by_len(ks.drop_last()), ks.last())
    }
}

/// Whether row `a` comes no later than row `b`: by their first keys, ignoring case.
pub open spec fn row_le(a: (Seq<Seq<char>>, Seq<char>), b: (Seq<Seq<char>>, Seq<char>)) -> bool {
    lex_le(lowercase(a.0[0]), lowercase(b.0[0]))
}

/// `r` put into `s` after every row that comes no later than it.
pub open spec fn insert_row(s: Seq<(Seq<Seq<char>>, Seq<char>)>, r: (Seq<Seq<char>>, Seq<char>)) -> Seq<(Seq<Seq<char>>, Seq<char>)>
    decreases s.len(),
{
    if s.len() == 0 || row_le(s.last(), r) {
        s.push(r)
    } else {
        insert_row(s.drop_last(), r).push(s.last())
    }
}

/// The rows ordered by their first keys, ignoring case (rows that tie keep
/// their order).
pub open spec fn sort_rows(rs: Seq<(Seq<Seq<char>>, Seq<char>)>) -> Seq<(Seq<Seq<char>>, Seq<char>)>
    decreases rs.len(),
{
    if rs.len() == 0 {
        rs
    } else {
        insert_row(sort_rows(rs.drop_last()), rs.last())
    }
}

/// Whether `a` comes strictly before `b`.
pub open spec fn lex_lt(a: Seq<char>, b: Seq<char>) -> bool {
    lex_le(a, b) && a != b
}

/// One pass over the rows from row `y` on: where a row's first key and the
/// one before it agree but for case, and the one before is smaller (its
/// capital), the two are swapped, so the lowercase key comes first.
pub open spec fn case_pass(s: Seq<(Seq<Seq<char>>, Seq<char>)>, y: int) -> Seq<(Seq<Seq<char>>, Seq<char>)>
    decreases s.len() - y,
{
    if y <= 0 || y >= s.len() {
        s
    } else {
        let x = s[y - 1].0[0];
        let z = s[y].0[0];
        let next = if lowercase(x) == lowercase(z) && lex_lt(x, z) {
            s.update(y - 1, s[y]).update(y, s[y - 1])
        } else {
            s
        };
        case_pass(next, y + 1)
    }
}

/// The keys joined by `, `.
pub open spec fn join_keys(ks: Seq<Seq<char>>) -> Seq<char>
    decreases ks.len(),
{
    if ks.len() == 0 {
        Seq::empty()
    } else if ks.len() == 1 {
        ks[0]
    } else {
        join_keys(ks.drop_last()) + ", "@ + ks.last()
    }
}

/// The rows of the infobox of a trie whose children's keys read `keys` and
/// whose children's helps are `docs`.
pub open spec fn infobox_rows(keys: Seq<Seq<char>>, docs: Seq<Option<Seq<char>>>) -> Seq<(Seq<char>, Seq<char>)> {
    let gs = group_keys(keys, docs);
    let sorted = Seq::new(gs.len(), |i: int| (sort_by_len(gs[i].0), gs[i].1));
    let rows = case_pass(sort_rows(sorted), 1);
    Seq::new(rows.len(), |i: int| (join_keys(rows[i].0), rows[i].1))
}

/// Every group has a key.
pub open spec fn groups_nonempty(gs: Seq<(Seq<Seq<char>>, Seq<char>)>) -> bool {
    forall|i: int| 0 <= i < gs.len() ==> (#[trigger] gs[i]).0.len() > 0
}

proof fn lemma_group_index(gs: Seq<(Seq<Seq<char>>, Seq<char>)>, d: Seq<char>)
    ensures
        0 <= group_index(gs, d) <= gs.len(),
        group_index(gs, d) < gs.len() ==> gs[group_index(gs, d)].1 == d,
        forall|j: int| 0 <= j < group_index(gs, d) ==> (#[trigger] gs[j]).1 != d,
    decreases gs.len(),
{
    if gs.len() > 0 && gs[0].1 != d {
        lemma_group_index(gs.drop_first(), d);
        assert forall|j: int| 0 <= j < group_index(gs, d) implies (#[trigger] gs[j]).1 != d by {
            if j > 0 {
                assert(gs[j] == gs.drop_first()[j - 1]);
            }
        }
    }
}

proof fn lemma_groups_nonempty(keys: Seq<Seq<char>>, docs: Seq<Option<Seq<char>>>)
    ensures
        groups_nonempty(group_keys(keys, docs)),
    decreases keys.len(),
{
    if keys.len() > 0 && docs.len() > 0 {
        lemma_groups_nonempty(keys.drop_last(), docs.drop_last());
        let gs = group_keys(keys.drop_last(), docs.drop_last());
        if docs.last() is Some {
            lemma_group_index(gs, docs.last()->0);
        }
    }
}

proof fn lemma_insert_row_len(s: Seq<(Seq<Seq<char>>, Seq<char>)>, r: (Seq<Seq<char>>, Seq<char>))
    requires
        groups_nonempty(s),
        r.0.len() > 0,
    ensures
        insert_row(s, r).len() == s.len() + 1,
        groups_nonempty(insert_row(s, r)),
    decreases s.len(),
{
    if !(s.len() == 0 || row_le(s.last(), r)) {
        lemma_insert_row_len(s.drop_last(), r);
    }
}

proof fn lemma_sort_rows_len(rs: Seq<(Seq<Seq<char>>, Seq<char>)>)
    requires
        groups_nonempty(rs),
    ensures
        sort_rows(rs).len() == rs.len(),
        groups_nonempty(sort_rows(rs)),
    decreases rs.len(),
{
    if rs.len() > 0 {
        lemma_sort_rows_len(rs.drop_last());
        lemma_insert_row_len(sort_rows(rs.drop_last()), rs.last());
    }
}

proof fn lemma_insert_by_len_len(s: Seq<Seq<char>>, k: Seq<char>)
    ensures
        insert_by_len(s, k).len() == s.len() + 1,
    decreases s.len(),
{
    if !(s.len() == 0 || s.last().len() <= k.len()) {
        lemma_insert_by_len_len(s.drop_last(), k);
    }
}

proof fn lemma_sort_by_len_len(ks: Seq<Seq<char>>)
    ensures
        sort_by_len(ks).len() == ks.len(),
    decreases ks.len(),
{
    if ks.len() > 0 {
        lemma_sort_by_len_len(ks.drop_last());
        lemma_insert_by_len_len(sort_by_len(ks.drop_last()), ks.last());
    }
}

/// The chars of each key.
pub open spec fn key_views(ks: Seq<Vec<char>>) -> Seq<Seq<char>> {
    ks.map_values(|k: Vec<char>| k@)
}

/// Groups as the contracts see them.
pub open spec fn group_views(gs: Seq<(Vec<Vec<char>>, Vec<char>)>) -> Seq<(Seq<Seq<char>>, Seq<char>)> {
    gs.map_values(|g: (Vec<Vec<char>>, Vec<char>)| (key_views(g.0@), g.1@))
}

/// Whether `a` and `b` hold the same chars.
fn same_text(a: &Vec<char>, b: &Vec<char>) -> (r: bool)
    ensures
        r == (a@ == b@),
{
    if a.len() != b.len() {
        return false;
    }
    let mut i: usize = 0;
    while i < a.len()
        invariant
            a@.len() == b@.len(),
            0 <= i <= a@.len(),
            forall|j: int| 0 <= j < i ==> a@[j] == b@[j],
        decreases a.len() - i,
    {
        if a[i] != b[i] {
            return false;
        }
        i = i + 1;
    }
    proof {
        assert(a@ =~= b@);
    }
    true
}

/// A copy of the chars `v`.
fn copy_chars(v: &Vec<char>) -> (r: Vec<char>)
    ensures
        r@ == v@,
{
    let mut r: Vec<char> = Vec::new();
    let mut i: usize = 0;
    while i < v.len()
        invariant
            0 <= i <= v@.len(),
            r@ == v@.take(i as int),
        decreases v.len() - i,
    {
        r.push(v[i]);
        i = i + 1;
        proof {
            assert(r@ =~= v@.take(i as int));
        }
    }
    proof {
        assert(v@.take(i as int) =~= v@);
    }
    r
}

/// The help of a child (see `child_doc`).
fn child_doc_exec(node: &KeyTrieNode, commands: &[Command]) -> (r: Option<Vec<char>>)
    requires
        node matches KeyTrieNode::Commands(cs) ==> cs@.len() > 0,
    ensures
        match r {
            Some(d) => child_doc(*node, commands@) == Some(d@),
            None => child_doc(*node, commands@) is None,
        },
{
    match node {
        KeyTrieNode::Commands(cs) => {
            let no_op = "no_op".to_string();
            if cs[0].name == no_op {
                return None;
            }
            if cs.len() == 1 {
                let i = find_command(commands, &cs[0].name);
                if i < commands.len() {
                    Some(chars_of(commands[i].description.as_str()))
                } else {
                    Some(Vec::new())
                }
            } else {
                Some(chars_of("[Multiple commands]"))
            }
        },
        KeyTrieNode::KeyTrie(t) => Some(chars_of(t.description.as_str())),
    }
}

/// `k` put into `out` after every key no longer than it (see `insert_by_len`).
fn insert_key_by_len(out: &mut Vec<Vec<char>>, k: Vec<char>)
    ensures
        key_views(final(out)@) == insert_by_len(key_views(old(out)@), k@),
{
    let ghost o = key_views(out@);
    let ghost kv = k@;
    let mut p = out.len();
    proof {
        assert(o.take(p as int) =~= o);
        assert(o.skip(p as int) =~= Seq::<Seq<char>>::empty());
        assert(insert_by_len(o, kv) =~= insert_by_len(o.take(p as int), kv) + o.skip(p as int));
    }
    while p > 0 && out[p - 1].len() > k.len()
        invariant
            o == key_views(out@),
            kv == k@,
            p <= out@.len(),
            insert_by_len(o, kv) == insert_by_len(o.take(p as int), kv) + o.skip(p as int),
        decreases p,
    {
        proof {
            let t = o.take(p as int);
            assert(t.last() == o[p - 1]);
            assert(t.drop_last() =~= o.take(p - 1));
            assert(o.skip(p - 1) =~= seq![o[p - 1]] + o.skip(p as int));
            assert(insert_by_len(t, kv) == insert_by_len(o.take(p - 1), kv).push(o[p - 1]));
            assert(insert_by_len(o.take(p - 1), kv).push(o[p - 1]) + o.skip(p as int) =~= insert_by_len(
                o.take(p - 1),
                kv,
            ) + o.skip(p - 1));
        }
        p = p - 1;
    }
    proof {
        let t = o.take(p as int);
        assert(insert_by_len(t, kv) == t.push(kv));
    }
    out.insert(p, k);
    proof {
        assert(key_views(out@) =~= o.take(p as int).push(kv) + o.skip(p as int));
    }
}

/// The keys ordered shortest first (see `sort_by_len`).
fn sort_keys_by_len(ks: &Vec<Vec<char>>) -> (r: Vec<Vec<char>>)
    ensures
        key_views(r@) == sort_by_len(key_views(ks@)),
{
    let ghost kv = key_views(ks@);
    let mut out: Vec<Vec<char>> = Vec::new();
    let mut i: usize = 0;
    proof {
        assert(kv.take(0) =~= Seq::<Seq<char>>::empty());
        assert(key_views(out@) =~= Seq::<Seq<char>>::empty());
    }
    while i < ks.len()
        invariant
            kv == key_views(ks@),
            0 <= i <= ks@.len(),
            key_views(out@) == sort_by_len(kv.take(i as int)),
        decreases ks.len() - i,
    {
        let k = copy_chars(&ks[i]);
        proof {
            assert(kv.take(i + 1).drop_last() =~= kv.take(i as int));
            assert(kv.take(i + 1).last() == k@);
        }
        insert_key_by_len(&mut out, k);
        i = i + 1;
    }
    proof {
        assert(kv.take(i as int) =~= kv);
    }
    out
}

/// Whether row `a` comes no later than row `b` (see `row_le`).
fn row_le_exec(a: &(Vec<Vec<char>>, Vec<char>), b: &(Vec<Vec<char>>, Vec<char>)) -> (r: bool)
    requires
        a.0@.len() > 0,
        b.0@.len() > 0,
    ensures
        r == row_le((key_views(a.0@), a.1@), (key_views(b.0@), b.1@)),
{
    let la = to_lowercase(a.0[0].as_slice());
    let lb = to_lowercase(b.0[0].as_slice());
    lex_le_exec(&la, &lb)
}

/// `r` put into `out` after every row that comes no later than it (see `insert_row`).
fn insert_row_exec(out: &mut Vec<(Vec<Vec<char>>, Vec<char>)>, r: (Vec<Vec<char>>, Vec<char>))
    requires
        groups_nonempty(group_views(old(out)@)),
        r.0@.len() > 0,
    ensures
        group_views(final(out)@) == insert_row(group_views(old(out)@), (key_views(r.0@), r.1@)),
        groups_nonempty(group_views(final(out)@)),
{
    let ghost o = group_views(out@);
    let ghost rv = (key_views(r.0@), r.1@);
    let mut p = out.len();
    proof {
        assert(o.take(p as int) =~= o);
        assert(o.skip(p as int) =~= Seq::<(Seq<Seq<char>>, Seq<char>)>::empty());
        assert(insert_row(o, rv) =~= insert_row(o.take(p as int), rv) + o.skip(p as int));
    }
    while p > 0 && !row_le_exec(&out[p - 1], &r)
        invariant
            o == group_views(out@),
            groups_nonempty(o),
            rv == (key_views(r.0@), r.1@),
            r.0@.len() > 0,
            p <= out@.len(),
            insert_row(o, rv) == insert_row(o.take(p as int), rv) + o.skip(p as int),
        decreases p,
    {
        proof {
            let t = o.take(p as int);
            assert(t.last() == o[p - 1]);
            assert(t.drop_last() =~= o.take(p - 1));
            assert(o.skip(p - 1) =~= seq![o[p - 1]] + o.skip(p as int));
            assert(insert_row(t, rv) == insert_row(o.take(p - 1), rv).push(o[p - 1]));
            assert(insert_row(o.take(p - 1), rv).push(o[p - 1]) + o.skip(p as int) =~= insert_row(
                o.take(p - 1),
                rv,
            ) + o.skip(p - 1));
        }
        p = p - 1;
    }
    proof {
        let t = o.take(p as int);
        if p > 0 {
            assert(t.last() == o[p - 1]);
        }
        assert(insert_row(t, rv) == t.push(rv));
    }
    out.insert(p, r);
    proof {
        assert(group_views(out@) =~= o.take(p as int).push(rv) + o.skip(p as int));
        assert forall|i: int| 0 <= i < group_views(out@).len() implies (#[trigger] group_views(out@)[i]).0.len() > 0 by {
            if i < p {
                assert(group_views(out@)[i] == o[i]);
            } else if i > p {
                assert(group_views(out@)[i] == o[i - 1]);
            }
        }
    }
}

/// The helps of the children and the text of their keys, grouped by help
/// (see `group_keys`).
fn group_children(children: &Vec<(KeyEvent, KeyTrieNode)>, key_texts: &[String], commands: &[Command]) -> (gs: Vec<(Vec<Vec<char>>, Vec<char>)>)
    requires
        key_texts@.len() == children@.len(),
        forall|i: int| 0 <= i < children@.len() ==> ((#[trigger] children@[i]).1 matches KeyTrieNode::Commands(cs) ==> cs@.len() > 0),
    ensures
        group_views(gs@) == group_keys(
            key_texts@.map_values(|k: String| k@),
            Seq::new(children@.len(), |i: int| child_doc(children@[i].1, commands@)),
        ),
{
    let ghost keys = key_texts@.map_values(|k: String| k@);
    let ghost docs = Seq::new(children@.len(), |i: int| child_doc(children@[i].1, commands@));
    let mut gs: Vec<(Vec<Vec<char>>, Vec<char>)> = Vec::new();
    let mut i: usize = 0;
    proof {
        assert(group_views(gs@) =~= group_keys(keys.take(0), docs.take(0)));
    }
    while i < children.len()
        invariant
            key_texts@.len() == children@.len(),
            forall|j: int| 0 <= j < children@.len() ==> ((#[trigger] children@[j]).1 matches KeyTrieNode::Commands(cs) ==> cs@.len() > 0),
            keys == key_texts@.map_values(|k: String| k@),
            docs == Seq::new(children@.len(), |j: int| child_doc(children@[j].1, commands@)),
            0 <= i <= children@.len(),
            group_views(gs@) == group_keys(keys.take(i as int), docs.take(i as int)),
        decreases children.len() - i,
    {
        proof {
            assert(keys.take(i + 1).drop_last() =~= keys.take(i as int));
            assert(docs.take(i + 1).drop_last() =~= docs.take(i as int));
            assert(keys.take(i + 1).last() == key_texts@[i as int]@);
            assert(docs.take(i + 1).last() == child_doc(children@[i as int].1, commands@));
        }
        let ghost before = group_views(gs@);
        match child_doc_exec(&children[i].1, commands) {
            None => {},
            Some(d) => {
                proof {
                    lemma_group_index(before, d@);
                }
                let mut p: usize = 0;
                while p < gs.len() && !same_text(&gs[p].1, &d)
                    invariant
                        before == group_views(gs@),
                        0 <= p <= gs@.len(),
                        forall|j: int| 0 <= j < p ==> (#[trigger] before[j]).1 != d@,
                        0 <= group_index(before, d@) <= before.len(),
                        group_index(before, d@) < before.len() ==> before[group_index(before, d@)].1 == d@,
                        forall|j: int| 0 <= j < group_index(before, d@) ==> (#[trigger] before[j]).1 != d@,
                    decreases gs.len() - p,
                {
                    p = p + 1;
                }
                let k = chars_of(key_texts[i].as_str());
                if p < gs.len() {
                    proof {
                        assert(before[p as int].1 == d@);
                        assert(p == group_index(before, d@));
                    }
                    let ghost og = gs@;
                    let ghost kv = k@;
                    let (mut ks, dd) = gs.remove(p);
                    let ghost oks = ks@;
                    ks.push(k);
                    proof {
                        assert(oks == og[p as int].0@ && dd == og[p as int].1);
                        assert(key_views(ks@) =~= key_views(oks).push(kv));
                        assert(kv == key_texts@[i as int]@);
                    }
                    gs.insert(p, (ks, dd));
                    proof {
                        assert(gs@ =~= og.update(p as int, (ks, dd)));
                        assert(group_views(gs@) =~= before.update(p as int, (before[p as int].0.push(key_texts@[i as int]@), d@)));
                    }
                } else {
                    let ghost kv = k@;
                    let mut one: Vec<Vec<char>> = Vec::new();
                    one.push(k);
                    proof {
                        assert(key_views(one@) =~= seq![kv]);
                    }
                    gs.push((one, d));
                    proof {
                        assert(group_views(gs@) =~= before.push((seq![key_texts@[i as int]@], d@)));
                    }
                }
            },
        }
        i = i + 1;
    }
    proof {
        assert(keys.take(i as int) =~= keys);
        assert(docs.take(i as int) =~= docs);
    }
    gs
}

/// The keys joined by `, ` (see `join_keys`).
fn join_keys_exec(ks: &Vec<Vec<char>>) -> (r: Vec<char>)
    ensures
        r@ == join_keys(key_views(ks@)),
{
    let ghost kv = key_views(ks@);
    let mut out: Vec<char> = Vec::new();
    let mut j: usize = 0;
    proof {
        assert(kv.take(0) =~= Seq::<Seq<char>>::empty());
    }
    while j < ks.len()
        invariant
            kv == key_views(ks@),
            0 <= j <= ks@.len(),
            out@ == join_keys(kv.take(j as int)),
        decreases ks.len() - j,
    {
        let ghost before = out@;
        proof {
            assert(kv.take(j + 1).drop_last() =~= kv.take(j as int));
            assert(kv.take(j + 1).last() == ks@[j as int]@);
        }
        if j > 0 {
            push_str(&mut out, ", ");
        }
        let mut m: usize = 0;
        let ghost mid = out@;
        while m < ks[j].len()
            invariant
                j < ks@.len(),
                0 <= m <= ks@[j as int]@.len(),
                out@ == mid + ks@[j as int]@.take(m as int),
            decreases ks@[j as int]@.len() - m,
        {
            out.push(ks[j][m]);
            m = m + 1;
            proof {
                assert(out@ =~= mid + ks@[j as int]@.take(m as int));
            }
        }
        proof {
            assert(ks@[j as int]@.take(m as int) =~= ks@[j as int]@);
            if j == 0 {
                assert(kv.take(1) =~= seq![kv[0]]);
                assert(out@ =~= kv[0]);
            } else {
                assert(out@ =~= before + ", "@ + kv[j as int]);
            }
        }
        j = j + 1;
    }
    proof {
        assert(kv.take(j as int) =~= kv);
    }
    out
}

impl KeyTrie {
    /// What the infobox of the trie shows: its description as the title, and
    /// a row for each help with the keys that lead to it (see
    /// `infobox_rows`). `key_texts` holds the text of each child's key, in
    /// the order of the children; `commands` gives the descriptions of
    /// commands. Rows are grouped by help (`no_op` keys are left out), keys
    /// in a row come shortest first, rows come in the order of their first
    /// keys ignoring case, and a lowercase key goes before its capital.
    pub fn infobox_contents(&self, key_texts: &[String], commands: &[Command]) -> (r: (String, Vec<(String, String)>))
        requires
            key_texts@.len() == self.children@.len(),
            forall|i: int|
                0 <= i < self.children@.len() ==> ((#[trigger] self.children@[i]).1 matches KeyTrieNode::Commands(cs)
                    ==> cs@.len() > 0),
        ensures
            r.0@ == self.description@,
            r.1@.map_values(|p: (String, String)| (p.0@, p.1@)) == infobox_rows(
                key_texts@.map_values(|k: String| k@),
                Seq::new(self.children@.len(), |i: int| child_doc(self.children@[i].1, commands@)),
            ),
    {
        let ghost keys = key_texts@.map_values(|k: String| k@);
        let ghost docs = Seq::new(self.children@.len(), |i: int| child_doc(self.children@[i].1, commands@));
        let gs = group_children(&self.children, key_texts, commands);
        let ghost g = group_views(gs@);
        proof {
            lemma_groups_nonempty(keys, docs);
        }
        let ghost sorted = Seq::new(g.len(), |i: int| (sort_by_len(g[i].0), g[i].1));
        let mut rows: Vec<(Vec<Vec<char>>, Vec<char>)> = Vec::new();
        let mut i: usize = 0;
        proof {
            assert(group_views(rows@) =~= sort_rows(sorted.take(0)));
        }
        while i < gs.len()
            invariant
                g == group_views(gs@),
                groups_nonempty(g),
                sorted == Seq::new(g.len(), |j: int| (sort_by_len(g[j].0), g[j].1)),
                0 <= i <= gs@.len(),
                group_views(rows@) == sort_rows(sorted.take(i as int)),
                groups_nonempty(group_views(rows@)),
            decreases gs.len() - i,
        {
            let ks = sort_keys_by_len(&gs[i].0);
            let d = copy_chars(&gs[i].1);
            proof {
                assert(g[i as int].0 == key_views(gs@[i as int].0@));
                assert(g[i as int].0.len() > 0);
                lemma_sort_by_len_len(g[i as int].0);
                assert(sorted.take(i + 1).drop_last() =~= sorted.take(i as int));
                assert(sorted.take(i + 1).last() == (key_views(ks@), d@));
            }
            insert_row_exec(&mut rows, (ks, d));
            i = i + 1;
        }
        proof {
            assert(sorted.take(i as int) =~= sorted);
            lemma_sort_rows_len(sorted);
        }
        // Put a lowercase key before its capital.
        let ghost start = group_views(rows@);
        let mut y: usize = 1;
        while y < rows.len()
            invariant
                1 <= y,
                case_pass(group_views(rows@), y as int) == case_pass(start, 1),
                groups_nonempty(group_views(rows@)),
            decreases rows.len() - y,
        {
            let ghost cur = group_views(rows@);
            let lx = to_lowercase(rows[y - 1].0[0].as_slice());
            let lz = to_lowercase(rows[y].0[0].as_slice());
            let swap = same_text(&lx, &lz) && lex_le_exec(&rows[y - 1].0[0], &rows[y].0[0]) && !same_text(
                &rows[y - 1].0[0],
                &rows[y].0[0],
            );
            proof {
                assert(cur[y - 1].0[0] == rows@[y - 1].0@[0]@);
                assert(cur[y as int].0[0] == rows@[y as int].0@[0]@);
            }
            if swap {
                let ghost orows = rows@;
                let b = rows.remove(y);
                let a = rows.remove(y - 1);
                rows.insert(y - 1, b);
                rows.insert(y, a);
                proof {
                    assert(rows@ =~= orows.update(y - 1, orows[y as int]).update(y as int, orows[y - 1]));
                    assert(group_views(rows@) =~= cur.update(y - 1, cur[y as int]).update(y as int, cur[y - 1]));
                    assert forall|j: int| 0 <= j < group_views(rows@).len() implies (#[trigger] group_views(rows@)[j]).0.len()
                        > 0 by {
                        if j == y - 1 {
                            assert(group_views(rows@)[j] == cur[y as int]);
                        } else if j == y {
                            assert(group_views(rows@)[j] == cur[y - 1]);
                        } else {
                            assert(group_views(rows@)[j] == cur[j]);
                        }
                    }
                }
            }
            y = y + 1;
        }
        proof {
            assert(case_pass(group_views(rows@), y as int) == group_views(rows@));
        }
        let ghost final_rows = group_views(rows@);
        let mut out: Vec<(String, String)> = Vec::new();
        let mut k: usize = 0;
        while k < rows.len()
            invariant
                final_rows == group_views(rows@),
                0 <= k <= rows@.len(),
                out@.len() == k,
                forall|j: int| 0 <= j < k ==> (#[trigger] out@[j]).0@ == join_keys(final_rows[j].0) && out@[j].1@
                    == final_rows[j].1,
            decreases rows.len() - k,
        {
            let keys_text = join_keys_exec(&rows[k].0);
            out.push((string_from_chars(keys_text.as_slice()), string_from_chars(rows[k].1.as_slice())));
            k = k + 1;
        }
        proof {
            assert(out@.map_values(|p: (String, String)| (p.0@, p.1@)) =~= Seq::new(
                final_rows.len(),
                |i: int| (join_keys(final_rows[i].0), final_rows[i].1),
            ));
        }
        let title = string_from_chars(chars_of(self.description.as_str()).as_slice());
        (title, out)
    }
}

} // verus!
