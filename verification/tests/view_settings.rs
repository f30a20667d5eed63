use helix::config::{
    CursorKind, CursorShapeConfig, Mode, TerminalConfig, ViewConfig, WhitespaceRender, WhitespaceRenderValue,
};
use helix::gutter::{count_digits, GutterComponents};
use helix::graphics::Rect;
use helix::buffer::Buffer;
use helix::paths::{
    book_gen, config_file, default_base16_theme, default_lang_configs, default_theme, join_path,
    lang_config_file, log_file, themes, ts_queries, version,
};
use helix::ts_feature::TsFeature;

#[test]
fn default_view_config() {
    let c = ViewConfig::default_with_terminal(None);
    assert!(c.keymap_suggestions && c.mouse.active && c.mouse.middle_click_paste);
    assert_eq!(c.document.scroll_config.scroll_cursor_to_edge_padding, 5);
    assert_eq!(c.document.scroll_config.lines_per_scroll, 3);
    assert_eq!(c.document.insert_mode_config.auto_complete.min_idle_ms_before_auto_completion_suggestion, 400);
    assert_eq!(c.document.whitespace.characters.space, '·');
    assert_eq!(c.document.whitespace.characters.newline, '⏎');
    assert_eq!(c.document.indent_guides.character, '│');
    assert_eq!(
        c.gutter.gutter_components,
        vec![
            GutterComponents::DiagnosticsAndBreakpoints,
            GutterComponents::Spacer,
            GutterComponents::LineNumbers,
            GutterComponents::Spacer,
            GutterComponents::VcsDiff,
        ]
    );
    assert_eq!(c.statusline.separator, "│");
    assert_eq!(c.statusline.mode_string.normal, "NOR");
    assert_eq!(c.shell, vec!["sh".to_string(), "-c".to_string()]);
    assert!(c.terminal.is_none());
    let tmux = TerminalConfig { command: "tmux".to_string(), args: vec!["split-window".to_string()] };
    let c = ViewConfig::default_with_terminal(Some(tmux));
    let t = c.terminal.unwrap();
    assert_eq!(t.command, "tmux");
    assert_eq!(t.args, vec!["split-window".to_string()]);
    assert_eq!(c.search.file.max_depth, None);
}

#[test]
fn whitespace_render_falls_back_to_the_default() {
    let basic = WhitespaceRender::Basic(WhitespaceRenderValue::All);
    assert_eq!(basic.space(), WhitespaceRenderValue::All);
    assert_eq!(basic.newline(), WhitespaceRenderValue::All);
    let specific = WhitespaceRender::Specific {
        default: Some(WhitespaceRenderValue::All),
        space: Some(WhitespaceRenderValue::Off),
        nbsp: None,
        tab: None,
        newline: None,
    };
    assert_eq!(specific.space(), WhitespaceRenderValue::Off);
    assert_eq!(specific.nbsp(), WhitespaceRenderValue::All);
    assert_eq!(specific.tab(), WhitespaceRenderValue::All);
    let none = WhitespaceRender::Specific { default: None, space: None, nbsp: None, tab: None, newline: None };
    assert_eq!(none.newline(), WhitespaceRenderValue::Off);
}

#[test]
fn cursor_shape_by_mode() {
    let c = CursorShapeConfig([CursorKind::Block, CursorKind::Underline, CursorKind::Bar]);
    assert_eq!(c.from_mode(Mode::Normal), CursorKind::Block);
    assert_eq!(c.from_mode(Mode::Select), CursorKind::Underline);
    assert_eq!(c.from_mode(Mode::Insert), CursorKind::Bar);
    assert_eq!(CursorKind::default(), CursorKind::Block);
}

#[test]
fn repository_and_config_paths() {
    assert_eq!(join_path("/repo", "VERSION"), "/repo/VERSION");
    assert_eq!(join_path("/repo/", "VERSION"), "/repo/VERSION");
    assert_eq!(join_path("", "VERSION"), "VERSION");
    assert_eq!(version("/h"), "/h/VERSION");
    assert_eq!(book_gen("/h"), "/h/book/src/generated/");
    assert_eq!(ts_queries("/h"), "/h/runtime/queries");
    assert_eq!(themes("/h"), "/h/runtime/themes");
    assert_eq!(default_lang_configs("/h"), "/h/helix-config/src/language_config/languages.toml");
    assert_eq!(default_theme("/h"), "/h/helix-config/src/theme_config/theme.toml");
    assert_eq!(default_base16_theme("/h"), "/h/helix-config/src/theme_config/base16_theme.toml");
    assert_eq!(config_file(None, "/home/u/.config/helix"), "/home/u/.config/helix/config.toml");
    assert_eq!(config_file(Some("/tmp/c.toml".to_string()), "/x"), "/tmp/c.toml");
    assert_eq!(log_file(None, "/home/u/.cache/helix"), "/home/u/.cache/helix/helix.log");
    assert_eq!(lang_config_file("/c"), "/c/languages.toml");
}

#[test]
fn tree_sitter_features() {
    let all = TsFeature::all();
    assert_eq!(all, vec![TsFeature::Highlight, TsFeature::TextObject, TsFeature::AutoIndent]);
    assert_eq!(TsFeature::Highlight.runtime_filename(), "highlights.scm");
    assert_eq!(TsFeature::TextObject.long_title(), "Treesitter Textobjects");
    assert_eq!(TsFeature::AutoIndent.short_title(), "Indent");
}

#[test]
fn rect_edges_and_clipping() {
    let r = Rect::new(10, 20, 30, 40);
    assert_eq!((r.left(), r.right(), r.top(), r.bottom()), (10, 40, 20, 60));
    assert_eq!(r.clip_left(5), Rect::new(15, 20, 25, 40));
    assert_eq!(r.clip_left(50), Rect::new(40, 20, 0, 40));
    assert_eq!(r.clip_bottom(1), Rect::new(10, 20, 30, 39));
    assert_eq!(Rect::new(0, 0, 5, 0).clip_bottom(1).height, 0);
    assert_eq!(Rect::new(65530, 0, 10, 1).right(), 65535);
    assert_eq!(Rect::default(), Rect::new(0, 0, 0, 0));
}

#[test]
fn gutter_widths() {
    assert_eq!(count_digits(0), 1);
    assert_eq!(count_digits(9), 1);
    assert_eq!(count_digits(10), 2);
    assert_eq!(count_digits(usize::MAX), 20);
    let short = Buffer::from("a\nb\n".chars().collect());
    assert_eq!(GutterComponents::LineNumbers.width(&short), 2);
    assert_eq!(GutterComponents::Spacer.width(&short), 1);
    let long: String = (0..150).map(|_| "x\n").collect();
    let long = Buffer::from(long.chars().collect());
    assert_eq!(GutterComponents::LineNumbers.width(&long), 3);
    let long_unterminated: String = (0..99).map(|_| "x\n").collect::<String>() + "y";
    let long_unterminated = Buffer::from(long_unterminated.chars().collect());
    assert_eq!(GutterComponents::LineNumbers.width(&long_unterminated), 3);
}

#[test]
fn tab_widths_from_one_to_sixteen() {
    assert_eq!(helix::config::deserialize_tab_width(1), Ok(1));
    assert_eq!(helix::config::deserialize_tab_width(16), Ok(16));
    let msg = "tab width must be a value from 1 to 16 inclusive".to_string();
    assert_eq!(helix::config::deserialize_tab_width(0), Err(msg.clone()));
    assert_eq!(helix::config::deserialize_tab_width(17), Err(msg));
}
