use helix::chars::{categorize_char, char_is_punctuation, char_is_whitespace, CharCategory};
use helix::command::{
    md_mono, md_table_heading, md_table_row, typable_commands, Command, CommandArgument,
    CommandArgumentVariants,
};
use helix::debug::{
    default_timeout, get_debug_templates, select_debug_adapter, DebugAdapterConfig, DebugAdapterName,
    DebugConfigError, DebugTemplateConfig, DebugTemplateName, DebuggerQuirks, LanguageDebugConfig,
};
use helix::git::Git;
use helix::movement::{backwards_skip_while, skip_while};
use helix::selection::Range;
use helix::textobject::{word_impl, TextObject};

fn chars(s: &str) -> Vec<char> {
    s.chars().collect()
}

#[test]
fn crlf_normalization() {
    let data = b"a\nb\r\nc\n".to_vec();
    assert_eq!(Git::normalize_diff_base(data.clone(), false), data);
    assert_eq!(Git::normalize_diff_base(data, true), b"a\r\nb\r\nc\r\n".to_vec());
    assert_eq!(Git::normalize_diff_base(b"\n\n".to_vec(), true), b"\r\n\r\n".to_vec());
    assert_eq!(Git::normalize_diff_base(Vec::new(), true), Vec::<u8>::new());
}

fn adapter(name: &str) -> DebugAdapterName {
    DebugAdapterName(name.to_string())
}

fn config(command: &str) -> DebugAdapterConfig {
    DebugAdapterConfig {
        transport: "stdio".to_string(),
        command: command.to_string(),
        args: vec![],
        port_arg: None,
        quirks: DebuggerQuirks::default(),
    }
}

fn template(names: &[&str]) -> DebugTemplateConfig {
    DebugTemplateConfig {
        debug_adapter_names: names.iter().map(|n| adapter(n)).collect(),
        request: "launch".to_string(),
        completion: vec![],
        args: vec![],
    }
}

#[test]
fn debug_adapter_selection() {
    assert_eq!(default_timeout(), 20);
    let configs = vec![(adapter("lldb"), config("lldb-vscode")), (adapter("gdb"), config("gdb"))];
    assert_eq!(select_debug_adapter(None, &configs).err(), Some(DebugConfigError::NoLanguageConfig));
    let none = LanguageDebugConfig { debug_adapter_names: vec![], debug_templates: vec![] };
    assert_eq!(select_debug_adapter(Some(&none), &configs).err(), Some(DebugConfigError::NoAdapterListed));
    let lang = LanguageDebugConfig {
        debug_adapter_names: vec![adapter("gdb"), adapter("lldb")],
        debug_templates: vec![
            (DebugTemplateName("binary".to_string()), template(&[])),
            (DebugTemplateName("attach".to_string()), template(&["lldb"])),
            (DebugTemplateName("core".to_string()), template(&["gdb", "lldb"])),
        ],
    };
    let (name, cfg) = select_debug_adapter(Some(&lang), &configs).unwrap();
    assert_eq!(name.0, "gdb");
    assert_eq!(cfg.command, "gdb");
    let missing = LanguageDebugConfig { debug_adapter_names: vec![adapter("cppdbg")], debug_templates: vec![] };
    assert_eq!(select_debug_adapter(Some(&missing), &configs).err(), Some(DebugConfigError::NoAdapterConfig));

    let templates = get_debug_templates(Some(&lang), &adapter("gdb")).unwrap();
    let names: Vec<&str> = templates.iter().map(|t| t.0 .0.as_str()).collect();
    assert_eq!(names, vec!["binary", "core"]);
    let templates = get_debug_templates(Some(&lang), &adapter("lldb")).unwrap();
    assert_eq!(templates.len(), 3);
    assert_eq!(get_debug_templates(Some(&missing), &adapter("gdb")).err(), Some(DebugConfigError::NoTemplates));
    assert_eq!(get_debug_templates(None, &adapter("gdb")).err(), Some(DebugConfigError::NoLanguageConfig));
}

#[test]
fn typable_commands_table() {
    let commands = vec![
        Command {
            name: "quit".to_string(),
            aliases: vec!["q".to_string()],
            description: "Close the current view.".to_string(),
            args: vec![],
        },
        Command {
            name: "set_option".to_string(),
            aliases: vec!["set".to_string(), "s".to_string()],
            description: "Set a config option.\nFor example `:set a b`.".to_string(),
            args: vec![CommandArgument::Required(CommandArgumentVariants::ConfigOptions)],
        },
    ];
    let md = typable_commands(&commands);
    assert_eq!(
        md,
        "| Name | Description |\n| --- | --- |\n| quit, q | Close the current view. |\n\
         | set_option, set, s | Set a config option.<br>For example `:set a b`. |\n"
    );
    assert_eq!(typable_commands(&[]), "| Name | Description |\n| --- | --- |\n");
}

#[test]
fn skipping_chars_by_predicate() {
    let t = chars("   abc  ");
    assert_eq!(skip_while(&t, 0, |c| c == ' '), Some(3));
    assert_eq!(skip_while(&t, 6, |c| c == ' '), None);
    assert_eq!(skip_while(&t, 8, |c| c == ' '), None);
    assert_eq!(backwards_skip_while(&t, 8, |c| c == ' '), Some(5));
    assert_eq!(backwards_skip_while(&t, 3, |c| c == ' '), None);
    assert_eq!(backwards_skip_while(&t, 5, |c| c == ' '), Some(4));
    assert_eq!(backwards_skip_while(&chars("ab  c"), 3, |c: char| c.is_whitespace()), Some(1));
    assert_eq!(backwards_skip_while(&t, 0, |c| c == ' '), None);
}

#[test]
fn long_words_run_to_whitespace() {
    let t = chars("foo.bar-baz qux");
    let r = word_impl(Range::new(5, 6), &t, Some(TextObject::Inside), true);
    assert_eq!(r, Range::new(0, 11));
    let r = word_impl(Range::new(5, 6), &t, Some(TextObject::Inside), false);
    assert_eq!(r, Range::new(4, 7));
    let r = word_impl(Range::new(6, 5), &t, Some(TextObject::Around), true);
    assert_eq!(r, Range::new(12, 0));
    // a cursor past the end leaves the range alone
    let r = word_impl(Range::new(15, 15), &t, Some(TextObject::Inside), false);
    assert_eq!(r, Range::new(15, 15));
}

#[test]
fn char_categories() {
    assert_eq!(categorize_char('\n'), CharCategory::Eol);
    assert_eq!(categorize_char(' '), CharCategory::Whitespace);
    assert_eq!(categorize_char('\u{3000}'), CharCategory::Whitespace);
    assert_eq!(categorize_char('a'), CharCategory::Word);
    assert_eq!(categorize_char('ß'), CharCategory::Word);
    assert_eq!(categorize_char('_'), CharCategory::Word);
    assert_eq!(categorize_char('.'), CharCategory::Punctuation);
    assert_eq!(categorize_char('€'), CharCategory::Punctuation);
    assert_eq!(categorize_char('\u{0}'), CharCategory::Unknown);
    assert!(char_is_punctuation('('));
    assert!(!char_is_punctuation('x'));
    assert!(char_is_whitespace('\t'));
    assert!(!char_is_whitespace('\n'));
}

#[test]
fn markdown_helpers() {
    let cols = vec!["a".to_string(), "bc".to_string(), "".to_string()];
    assert_eq!(md_table_row(&cols), "| a | bc |  |\n");
    assert_eq!(md_table_heading(&cols), "| a | bc |  |\n| --- | --- | --- |\n");
    assert_eq!(md_table_row(&[]), "|  |\n");
    assert_eq!(md_mono("hx"), "`hx`");
}

use helix::lang_support::{default_langs_with_treesitter_support, lang_features, LanguageSummary};

fn lang(id: &str, server: Option<&str>) -> LanguageSummary {
    LanguageSummary { language_id: id.to_string(), language_server: server.map(|s| s.to_string()), grammar: None }
}

#[test]
fn language_support_table() {
    let configs = vec![lang("rust", Some("rust-analyzer")), lang("c", None), lang("bash", Some("bash-language-server"))];
    let support = vec![
        vec!["rust".to_string(), "c".to_string()],
        vec!["rust".to_string()],
        vec![],
    ];
    let md = lang_features(&configs, &support);
    assert_eq!(
        md,
        "| Language | Syntax Highlighting | Treesitter Textobjects | Auto Indent | Default LSP |\n\
         | --- | --- | --- | --- | --- |\n\
         | bash |  |  |  | `bash-language-server` |\n\
         | c | ✓ |  |  |  |\n\
         | rust | ✓ | ✓ |  | `rust-analyzer` |\n"
    );
    // no languages: the heading alone
    assert_eq!(
        lang_features(&[], &support),
        "| Language | Syntax Highlighting | Treesitter Textobjects | Auto Indent | Default LSP |\n| --- | --- | --- | --- | --- |\n"
    );
    // a repeated id gives a row for each, both from the first language so named
    let twice = vec![lang("go", Some("gopls")), lang("go", None)];
    let md = lang_features(&twice, &[]);
    assert!(md.ends_with("| go | `gopls` |\n| go | `gopls` |\n"));
}

use helix::health::health_column;

#[test]
fn health_table_cells() {
    assert_eq!(health_column("rust", 10), "rust      ");
    assert_eq!(health_column("rust-analyzer", 10), "rust-ana… ");
    // an item that fills the cut exactly still gets the ellipsis
    assert_eq!(health_column("abcdefgh", 10), "abcdefgh… ");
    // the cut is counted in bytes and must fall between chars
    assert_eq!(health_column("ééééé", 7), "ééééé  ");
    assert_eq!(health_column("ééééé", 6), "éé…   ");
    assert_eq!(health_column("", 2), "… ");
    assert_eq!(health_column("long", 2), "… ");
    assert_eq!(health_column("", 3), "   ");
}

use helix::buffer::BufferID;

#[test]
fn ids_and_objects_as_text() {
    assert_eq!(BufferID::default().to_string(), "1");
    assert_eq!(BufferID::new(7).unwrap().to_string(), "7");
    assert_eq!(BufferID::new(10).unwrap().to_string(), "10");
    assert_eq!(BufferID::new(4096).unwrap().to_string(), "4096");
    assert_eq!(BufferID::new(usize::MAX).unwrap().to_string(), usize::MAX.to_string());
    assert_eq!(TextObject::Around.to_string(), "around");
    assert_eq!(TextObject::Inside.to_string(), "inside");
    assert_eq!(TextObject::Movement.to_string(), "movement");
}

#[test]
fn languages_with_a_grammar() {
    let mut configs = vec![lang("rust", None), lang("c", None), lang("rust", None), lang("toml", None)];
    configs[0].grammar = Some("rust".to_string());
    configs[2].grammar = Some("rust".to_string());
    configs[3].grammar = Some("toml".to_string());
    let mut ids = default_langs_with_treesitter_support(&configs);
    ids.sort();
    assert_eq!(ids, vec!["rust".to_string(), "toml".to_string()]);
    assert!(default_langs_with_treesitter_support(&[]).is_empty());
}

#[test]
fn white_space_agrees_with_std_on_every_char() {
    for v in 0..=0x10FFFFu32 {
        if let Some(c) = char::from_u32(v) {
            assert_eq!(helix::unicode::is_unicode_whitespace(c), c.is_whitespace(), "{:?}", c);
        }
    }
}
