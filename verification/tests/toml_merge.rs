use helix::toml_merge::{merge_toml_values, TomlValue};

fn s(v: &str) -> TomlValue {
    TomlValue::String(v.to_string())
}

fn table(entries: Vec<(&str, TomlValue)>) -> TomlValue {
    TomlValue::Table(entries.into_iter().map(|(k, v)| (k.to_string(), v)).collect())
}

fn get<'a>(v: &'a TomlValue, key: &str) -> Option<&'a TomlValue> {
    match v {
        TomlValue::Table(kvs) => kvs.iter().find(|(k, _)| k == key).map(|(_, v)| v),
        _ => None,
    }
}

fn as_str(v: &TomlValue) -> Option<&str> {
    match v {
        TomlValue::String(s) => Some(s.as_str()),
        _ => None,
    }
}

fn items(v: &TomlValue) -> &Vec<TomlValue> {
    match v {
        TomlValue::Array(items) => items,
        _ => panic!("not an array"),
    }
}

#[test]
fn language_entries_are_merged_by_name() {
    // left:
    //   [[language]]
    //   name = "toml"
    //   language-server = { command = "taplo", args = ["lsp", "stdio"] }
    let left = table(vec![(
        "language",
        TomlValue::Array(vec![table(vec![
            ("name", s("toml")),
            (
                "language-server",
                table(vec![
                    ("command", s("taplo")),
                    ("args", TomlValue::Array(vec![s("lsp"), s("stdio")])),
                ]),
            ),
        ])]),
    )]);
    // right:
    //   [[language]]
    //   language-server = { command = "/usr/bin/taplo" }
    // (an entry without a name is merged onto the first entry)
    let right = table(vec![(
        "language",
        TomlValue::Array(vec![table(vec![
            ("language-server", table(vec![("command", s("/usr/bin/taplo"))])),
        ])]),
    )]);
    let merged = merge_toml_values(left, right, 3);
    let languages = items(get(&merged, "language").unwrap());
    assert_eq!(languages.len(), 1);
    let toml = &languages[0];
    assert_eq!(as_str(get(toml, "name").unwrap()), Some("toml"));
    let server = get(toml, "language-server").unwrap();
    assert_eq!(as_str(get(server, "command").unwrap()), Some("/usr/bin/taplo"));
    // merging stops three levels down: the user's server table replaces the built-in one
    assert!(get(server, "args").is_none());
}

#[test]
fn nested_arrays_are_replaced() {
    let left = table(vec![(
        "language",
        TomlValue::Array(vec![table(vec![
            ("name", s("typescript")),
            ("language-server", table(vec![("command", s("tsserver")), ("args", TomlValue::Array(vec![s("--stdio")]))])),
        ])]),
    )]);
    let right = table(vec![(
        "language",
        TomlValue::Array(vec![table(vec![
            ("name", s("typescript")),
            ("language-server", table(vec![("command", s("deno")), ("args", TomlValue::Array(vec![s("lsp")]))])),
        ])]),
    )]);
    let merged = merge_toml_values(left, right, 3);
    let languages = items(get(&merged, "language").unwrap());
    let ts = &languages[0];
    let args = items(get(get(ts, "language-server").unwrap(), "args").unwrap());
    assert_eq!(args.len(), 1);
    assert_eq!(as_str(&args[0]), Some("lsp"));
}

#[test]
fn new_entries_are_appended_and_new_keys_added() {
    let left = TomlValue::Array(vec![table(vec![("name", s("a"))]), table(vec![("name", s("b"))])]);
    let right = TomlValue::Array(vec![table(vec![("name", s("c")), ("x", TomlValue::Integer(1))])]);
    let merged = merge_toml_values(left, right, 1);
    let names: Vec<&str> = items(&merged).iter().map(|v| as_str(get(v, "name").unwrap()).unwrap()).collect();
    assert_eq!(names, vec!["a", "b", "c"]);

    let left = table(vec![("a", TomlValue::Integer(1)), ("b", TomlValue::Boolean(true))]);
    let right = table(vec![("b", TomlValue::Boolean(false)), ("c", TomlValue::Float(0))]);
    let merged = merge_toml_values(left, right, 1);
    assert!(matches!(get(&merged, "a"), Some(TomlValue::Integer(1))));
    assert!(matches!(get(&merged, "b"), Some(TomlValue::Boolean(false))));
    assert!(matches!(get(&merged, "c"), Some(TomlValue::Float(0))));
}

#[test]
fn at_depth_zero_or_across_kinds_the_right_value_wins() {
    let left = table(vec![("a", TomlValue::Integer(1))]);
    let right = table(vec![("b", TomlValue::Integer(2))]);
    let merged = merge_toml_values(left, right, 0);
    assert!(get(&merged, "a").is_none());
    assert!(matches!(get(&merged, "b"), Some(TomlValue::Integer(2))));

    let merged = merge_toml_values(TomlValue::Integer(1), s("x"), 3);
    assert_eq!(as_str(&merged), Some("x"));
    let merged = merge_toml_values(TomlValue::Array(vec![]), table(vec![]), 3);
    assert!(matches!(merged, TomlValue::Table(ref kvs) if kvs.is_empty()));
}

#[test]
fn nameless_items_merge_onto_the_first_item() {
    // named right items still merge by name, and new names are appended
    let left = TomlValue::Array(vec![table(vec![("name", s("a")), ("x", TomlValue::Integer(1))]), table(vec![("name", s("b"))])]);
    let right = TomlValue::Array(vec![table(vec![("y", TomlValue::Integer(2))])]);
    let merged = merge_toml_values(left, right, 2);
    let all = items(&merged);
    assert_eq!(all.len(), 2);
    assert_eq!(as_str(get(&all[0], "name").unwrap()), Some("b"));
    assert_eq!(as_str(get(&all[1], "name").unwrap()), Some("a"));
    assert!(matches!(get(&all[1], "x"), Some(TomlValue::Integer(1))));
    assert!(matches!(get(&all[1], "y"), Some(TomlValue::Integer(2))));
    // onto an empty array a nameless item is appended
    let merged = merge_toml_values(TomlValue::Array(vec![]), TomlValue::Array(vec![s("z")]), 1);
    assert_eq!(items(&merged).len(), 1);
}

use helix::lang_config::{lang_config_checked, merged_lang_config};

// `languages.toml` itself is not part of this crate; these entries stand in
// for the built-in ones that the checks below read.
const BUILTIN: &str = r##"
[[language]]
name = "nix"
comment-token = "#"
indent = { tab-width = 2, unit = "  " }

[[language]]
name = "typescript"
language-server = { command = "typescript-language-server", args = ["--stdio"] }
"##;

fn as_int(v: &TomlValue) -> Option<i64> {
    match v {
        TomlValue::Integer(i) => Some(*i),
        _ => None,
    }
}

fn language<'a>(merged: &'a TomlValue, name: &str) -> &'a TomlValue {
    items(get(merged, "language").unwrap())
        .iter()
        .find(|v| as_str(get(v, "name").unwrap()) == Some(name))
        .unwrap()
}

#[test]
fn language_toml_map_merges() {
    const USER: &str = r#"
        [[language]]
        name = "nix"
        test = "bbb"
        indent = { tab-width = 4, unit = "    ", test = "aaa" }
        "#;
    let merged = merged_lang_config(&vec![USER.as_bytes().to_vec()], BUILTIN.as_bytes()).unwrap();
    let nix = language(&merged, "nix");
    let nix_indent = get(nix, "indent").unwrap();
    // We changed tab-width and unit in indent so check them if they are the new values
    assert_eq!(as_int(get(nix_indent, "tab-width").unwrap()), Some(4));
    assert_eq!(as_str(get(nix_indent, "unit").unwrap()), Some("    "));
    // We added a new keys, so check them
    assert_eq!(as_str(get(nix, "test").unwrap()), Some("bbb"));
    assert_eq!(as_str(get(nix_indent, "test").unwrap()), Some("aaa"));
    // We didn't change comment-token so it should be same
    assert_eq!(as_str(get(nix, "comment-token").unwrap()), Some("#"));
}

#[test]
fn language_toml_nested_array_merges() {
    const USER: &str = r#"
        [[language]]
        name = "typescript"
        language-server = { command = "deno", args = ["lsp"] }
        "#;
    let merged = merged_lang_config(&vec![USER.as_bytes().to_vec()], BUILTIN.as_bytes()).unwrap();
    let ts = language(&merged, "typescript");
    let args = items(get(get(ts, "language-server").unwrap(), "args").unwrap());
    assert_eq!(args.len(), 1);
    assert_eq!(as_str(&args[0]), Some("lsp"));
}

#[test]
fn language_configs_fail_on_bad_files() {
    // a bad user file gives its error; the built-in file is not read then
    let bad = vec![b"[[language]\n".to_vec()];
    assert!(merged_lang_config(&bad, b"not toml = = =").is_err());
    assert!(matches!(lang_config_checked(&bad, b"not toml = = ="), Some(Err(_))));
    // with good user files, a bad built-in file cannot be used
    assert!(lang_config_checked(&vec![], b"not toml = = =").is_none());
    // the more local file wins
    let local = b"[[language]]\nname = \"nix\"\ncomment-token = \"//\"\n".to_vec();
    let user = b"[[language]]\nname = \"nix\"\ncomment-token = \";\"\n".to_vec();
    let merged = merged_lang_config(&vec![local, user], BUILTIN.as_bytes()).unwrap();
    assert_eq!(as_str(get(language(&merged, "nix"), "comment-token").unwrap()), Some("//"));
}
