use helix::keymap::{
    KeyCode, KeyEvent, KeyTrie, KeyTrieNode, KeymapResult, Keymaps, MappableCommand,
};

fn key(c: char) -> KeyEvent {
    KeyEvent { code: KeyCode::Char(c), modifiers: 0 }
}

fn esc() -> KeyEvent {
    KeyEvent { code: KeyCode::Esc, modifiers: 0 }
}

fn cmd(name: &str) -> MappableCommand {
    MappableCommand { name: name.to_string(), supplied_args: vec![] }
}

fn cmds(names: &[&str]) -> KeyTrieNode {
    KeyTrieNode::Commands(names.iter().map(|n| cmd(n)).collect())
}

/// root: h -> move_left; g -> { g -> goto_start, e -> goto_end }; z (sticky) -> { j -> scroll_down }; x -> [a, b]
fn root() -> KeyTrie {
    let goto = KeyTrie::new("Goto", vec![(key('g'), cmds(&["goto_start"])), (key('e'), cmds(&["goto_end"]))]);
    let view = KeyTrie::new_sticky("View", vec![(key('j'), cmds(&["scroll_down"]))]);
    KeyTrie::new(
        "Normal",
        vec![
            (key('h'), cmds(&["move_left"])),
            (key('g'), KeyTrieNode::KeyTrie(goto)),
            (key('z'), KeyTrieNode::KeyTrie(view)),
            (key('x'), cmds(&["a", "b"])),
        ],
    )
}

fn matched_name(r: &KeymapResult) -> Option<&str> {
    match r {
        KeymapResult::Matched(c) => Some(c.name()),
        _ => None,
    }
}

#[test]
fn traverse_follows_keys() {
    let root = root();
    assert!(matches!(root.traverse(&[]), Some(KeyTrieNode::KeyTrie(ref t)) if t.description == "Normal"));
    assert!(matches!(root.traverse(&[key('g')]), Some(KeyTrieNode::KeyTrie(ref t)) if t.description == "Goto"));
    match root.traverse(&[key('g'), key('e')]) {
        Some(KeyTrieNode::Commands(c)) => assert_eq!(c[0].name(), "goto_end"),
        _ => panic!("expected commands"),
    }
    // commands end the walk
    assert!(matches!(root.traverse(&[key('h'), key('g')]), Some(KeyTrieNode::Commands(_))));
    assert!(root.traverse(&[key('q')]).is_none());
    assert!(root.traverse(&[key('g'), key('q')]).is_none());
}

#[test]
fn sticky_and_default_tries() {
    assert!(!root().is_sticky());
    assert!(KeyTrie::new_sticky("s", vec![]).is_sticky());
    let d = KeyTrie::default();
    assert!(d.description.is_empty() && d.children.is_empty() && !d.sticky);
}

#[test]
fn merge_keytrie_merges_subtries_and_replaces_commands() {
    let mut base = root();
    let other = KeyTrie::new(
        "",
        vec![
            (key('h'), cmds(&["other_left"])),
            (key('g'), KeyTrieNode::KeyTrie(KeyTrie::new("", vec![(key('l'), cmds(&["goto_line_end"]))]))),
            (key('w'), cmds(&["word"])),
        ],
    );
    base.merge_keytrie(other);
    assert_eq!(base.description, "Normal");
    match base.traverse(&[key('h')]) {
        Some(KeyTrieNode::Commands(c)) => assert_eq!(c[0].name(), "other_left"),
        _ => panic!(),
    }
    // the goto trie keeps its keys and gains the new one
    assert!(base.traverse(&[key('g'), key('g')]).is_some());
    assert!(base.traverse(&[key('g'), key('l')]).is_some());
    assert!(matches!(base.traverse(&[key('g')]), Some(KeyTrieNode::KeyTrie(ref t)) if t.description == "Goto"));
    assert!(base.traverse(&[key('w')]).is_some());
}

#[test]
fn keymaps_match_single_keys_and_sequences() {
    let root = root();
    let mut keymaps = Keymaps::new();
    assert_eq!(matched_name(&keymaps.get(&root, key('h'))), Some("move_left"));
    assert!(matches!(keymaps.get(&root, key('x')), KeymapResult::MatchedCommandSequence(ref v) if v.len() == 2));
    assert!(matches!(keymaps.get(&root, key('q')), KeymapResult::NotFound));
    assert!(keymaps.pending().is_empty());
    assert!(matches!(keymaps.get(&root, key('g')), KeymapResult::Pending(ref t) if t.description == "Goto"));
    assert_eq!(keymaps.pending(), &[key('g')]);
    assert_eq!(matched_name(&keymaps.get(&root, key('e'))), Some("goto_end"));
    assert!(keymaps.pending().is_empty());
}

#[test]
fn keymaps_cancel_on_unknown_keys_and_escape() {
    let root = root();
    let mut keymaps = Keymaps::new();
    keymaps.get(&root, key('g'));
    assert!(matches!(keymaps.get(&root, key('q')), KeymapResult::Cancelled(ref k) if k == &vec![key('g'), key('q')]));
    assert!(keymaps.pending().is_empty());
    keymaps.get(&root, key('g'));
    assert!(matches!(keymaps.get(&root, esc()), KeymapResult::Cancelled(ref k) if k == &vec![key('g')]));
    assert!(keymaps.pending().is_empty());
}

#[test]
fn sticky_tries_stay_active_until_escape() {
    let root = root();
    let mut keymaps = Keymaps::new();
    assert!(matches!(keymaps.get(&root, key('z')), KeymapResult::Pending(ref t) if t.sticky));
    assert!(keymaps.pending().is_empty());
    assert!(keymaps.sticky_keytrie().is_some());
    assert_eq!(matched_name(&keymaps.get(&root, key('j'))), Some("scroll_down"));
    assert_eq!(matched_name(&keymaps.get(&root, key('j'))), Some("scroll_down"));
    assert!(matches!(keymaps.get(&root, key('h')), KeymapResult::NotFound));
    // escape with no pending keys leaves the sticky trie, and looks the key up from the root
    assert!(matches!(keymaps.get(&root, esc()), KeymapResult::NotFound));
    assert!(keymaps.sticky_keytrie().is_none());
    assert_eq!(matched_name(&keymaps.get(&root, key('h'))), Some("move_left"));
}

use helix::command::Command;

fn described(name: &str, description: &str) -> Command {
    Command { name: name.to_string(), aliases: vec![], description: description.to_string(), args: vec![] }
}

fn texts(keys: &[&str]) -> Vec<String> {
    keys.iter().map(|k| k.to_string()).collect()
}

#[test]
fn infobox_groups_and_orders_keys() {
    let commands = vec![described("move_down", "Move down"), described("move_up", "Move up")];
    let goto = || KeyTrieNode::KeyTrie(KeyTrie::new("Goto", vec![]));
    let trie = KeyTrie::new(
        "Normal",
        vec![
            (key('j'), cmds(&["move_down"])),
            (key('k'), cmds(&["move_up"])),
            (KeyEvent { code: KeyCode::Down, modifiers: 0 }, cmds(&["move_down"])),
            (key('x'), cmds(&["no_op"])),
            (key('G'), goto()),
            (key('g'), goto()),
            (key('w'), cmds(&["a", "b"])),
            (key('q'), cmds(&["unknown"])),
        ],
    );
    let (title, rows) = trie.infobox_contents(&texts(&["j", "k", "down", "C-x", "G", "g", "w", "q"]), &commands);
    assert_eq!(title, "Normal");
    let rows: Vec<(&str, &str)> = rows.iter().map(|(k, d)| (k.as_str(), d.as_str())).collect();
    assert_eq!(
        rows,
        vec![
            ("G, g", "Goto"),
            ("j, down", "Move down"),
            ("k", "Move up"),
            ("q", ""),
            ("w", "[Multiple commands]"),
        ]
    );
    // a lowercase key goes before its capital; a longer key after a shorter one
    let trie = KeyTrie::new(
        "Space",
        vec![(key('A'), cmds(&["move_up"])), (key('a'), cmds(&["move_down"])), (key('b'), cmds(&["move_up"]))],
    );
    let (_, rows) = trie.infobox_contents(&texts(&["A", "a", "space"]), &commands);
    let rows: Vec<(&str, &str)> = rows.iter().map(|(k, d)| (k.as_str(), d.as_str())).collect();
    assert_eq!(rows, vec![("a", "Move down"), ("A, space", "Move up")]);
}
