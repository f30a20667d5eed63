use helix::command::LineEnding;
use helix::selection::{Range, Selection};
use helix::typed::{
    goto_line_step, indent_style_status, line_ending_changes, line_ending_status, parse_indent_style,
    parse_line_ending, sort_changes, sort_fragments, GotoLineError, GotoLineStep, IndentStyle, PromptEvent,
};

fn chars(s: &str) -> Vec<char> {
    s.chars().collect()
}

fn range(anchor: usize, head: usize) -> Range {
    Range { anchor, head, old_visual_position: None }
}

#[test]
fn fragments_are_sorted() {
    let frags = vec![chars("pear"), chars("apple"), chars("fig"), chars("apple"), chars("")];
    let up = sort_fragments(frags.clone(), false);
    assert_eq!(up, vec![chars(""), chars("apple"), chars("apple"), chars("fig"), chars("pear")]);
    let down = sort_fragments(frags, true);
    assert_eq!(down, vec![chars("pear"), chars("fig"), chars("apple"), chars("apple"), chars("")]);
    // a prefix comes first; capitals come before small letters
    assert_eq!(sort_fragments(vec![chars("ab"), chars("a"), chars("B")], false), vec![chars("B"), chars("a"), chars("ab")]);
    // chars beyond ASCII by code point
    assert_eq!(sort_fragments(vec![chars("é"), chars("z")], false), vec![chars("z"), chars("é")]);
    assert!(sort_fragments(vec![], false).is_empty());
}

#[test]
fn selected_fragments_change_places() {
    let text = chars("cc bb aa");
    let sel = Selection { ranges: vec![range(0, 2), range(5, 3), range(6, 8)], primary_index: 0 };
    let changes = sort_changes(&text, &sel, false);
    assert_eq!(changes, vec![(0, 2, chars("aa")), (3, 5, chars("bb")), (6, 8, chars("cc"))]);
    let changes = sort_changes(&text, &sel, true);
    assert_eq!(changes, vec![(0, 2, chars("cc")), (3, 5, chars("bb")), (6, 8, chars("aa"))]);
}

#[test]
fn indent_styles_are_read() {
    assert_eq!(parse_indent_style("tabs"), Some(IndentStyle::Tabs));
    assert_eq!(parse_indent_style("TA"), Some(IndentStyle::Tabs));
    assert_eq!(parse_indent_style("t"), Some(IndentStyle::Tabs));
    assert_eq!(parse_indent_style(""), Some(IndentStyle::Tabs));
    assert_eq!(parse_indent_style("0"), Some(IndentStyle::Tabs));
    assert_eq!(parse_indent_style("4"), Some(IndentStyle::Spaces(4)));
    assert_eq!(parse_indent_style("+8"), Some(IndentStyle::Spaces(8)));
    assert_eq!(parse_indent_style("08"), Some(IndentStyle::Spaces(8)));
    assert_eq!(parse_indent_style("9"), None);
    assert_eq!(parse_indent_style("00"), None);
    assert_eq!(parse_indent_style("tabsx"), None);
    assert_eq!(parse_indent_style("spaces"), None);
    assert_eq!(parse_indent_style("300"), None);
}

#[test]
fn indent_styles_are_reported() {
    assert_eq!(indent_style_status(IndentStyle::Tabs), "tabs");
    assert_eq!(indent_style_status(IndentStyle::Spaces(1)), "1 space");
    assert_eq!(indent_style_status(IndentStyle::Spaces(3)), "3 spaces");
    assert_eq!(indent_style_status(IndentStyle::Spaces(8)), "8 spaces");
}

#[test]
fn line_endings_are_read_and_reported() {
    assert_eq!(parse_line_ending("crlf"), Some(LineEnding::CRLF));
    assert_eq!(parse_line_ending("CrLf-please"), Some(LineEnding::CRLF));
    assert_eq!(parse_line_ending("LF"), Some(LineEnding::LF));
    assert_eq!(parse_line_ending("lfx"), Some(LineEnding::LF));
    assert_eq!(parse_line_ending("cr"), None);
    assert_eq!(parse_line_ending("l"), None);
    assert_eq!(parse_line_ending(""), None);
    assert_eq!(line_ending_status(LineEnding::CRLF), "crlf");
    assert_eq!(line_ending_status(LineEnding::LF), "line feed");
}

#[test]
fn line_endings_to_rewrite() {
    let text = chars("a\r\nb\nc\r\n\nd");
    assert_eq!(line_ending_changes(&text, LineEnding::LF), vec![(1, 3), (6, 8)]);
    assert_eq!(line_ending_changes(&text, LineEnding::CRLF), vec![(4, 5), (8, 9)]);
    assert!(line_ending_changes(&chars("no ending"), LineEnding::CRLF).is_empty());
    // a carriage return alone ends no line
    assert!(line_ending_changes(&chars("a\rb"), LineEnding::LF).is_empty());
    assert_eq!(line_ending_changes(&chars("\n"), LineEnding::CRLF), vec![(0, 1)]);
}

fn step(last: Option<usize>, goto: Option<usize>, error: Option<GotoLineError>) -> GotoLineStep {
    GotoLineStep { last_line_number: last, goto, error }
}

#[test]
fn going_to_a_line_from_the_prompt() {
    let none: Vec<String> = vec![];
    let twelve = vec!["12".to_string()];
    // typing remembers where the cursor was and goes to the line typed
    let s1 = goto_line_step(PromptEvent::Update, &twelve, None, 4);
    assert_eq!(s1, step(Some(5), Some(12), None));
    let s2 = goto_line_step(PromptEvent::Update, &vec!["1".to_string()], s1.last_line_number, 11);
    assert_eq!(s2, step(Some(5), Some(1), None));
    // leaving, or emptying the input, goes back
    assert_eq!(goto_line_step(PromptEvent::Abort, &twelve, s2.last_line_number, 0), step(None, Some(5), None));
    assert_eq!(goto_line_step(PromptEvent::Update, &none, s2.last_line_number, 0), step(None, Some(5), None));
    assert_eq!(goto_line_step(PromptEvent::Abort, &none, None, 3), step(None, None, None));
    // entering goes to the line and forgets the old one
    assert_eq!(goto_line_step(PromptEvent::Validate, &twelve, Some(5), 11), step(None, Some(12), None));
    assert_eq!(
        goto_line_step(PromptEvent::Validate, &none, Some(5), 11),
        step(Some(5), None, Some(GotoLineError::LineNumberRequired))
    );
    assert_eq!(
        goto_line_step(PromptEvent::Validate, &vec!["x".to_string()], None, 0),
        step(None, None, Some(GotoLineError::InvalidNumber))
    );
    assert_eq!(
        goto_line_step(PromptEvent::Update, &vec!["-1".to_string()], None, 2),
        step(Some(3), None, Some(GotoLineError::InvalidNumber))
    );
}

use helix::typed::{workspace_command_action, WorkspaceAction};

#[test]
fn workspace_commands_from_the_prompt() {
    let supported = vec!["organize imports".to_string(), "fix".to_string()];
    let args = |a: &[&str]| a.iter().map(|s| s.to_string()).collect::<Vec<String>>();
    assert!(matches!(workspace_command_action(PromptEvent::Update, true, Some(&supported), &[]), WorkspaceAction::Nothing));
    match workspace_command_action(PromptEvent::Validate, false, Some(&supported), &[]) {
        WorkspaceAction::Status(m) => assert_eq!(m, "Language server not active for current buffer"),
        other => panic!("unexpected {:?}", other),
    }
    match workspace_command_action(PromptEvent::Validate, true, None, &args(&["fix"])) {
        WorkspaceAction::Status(m) => assert_eq!(m, "Workspace commands are not supported for this language server"),
        other => panic!("unexpected {:?}", other),
    }
    match workspace_command_action(PromptEvent::Validate, true, Some(&supported), &[]) {
        WorkspaceAction::Pick(list) => assert_eq!(list, supported),
        other => panic!("unexpected {:?}", other),
    }
    match workspace_command_action(PromptEvent::Validate, true, Some(&supported), &args(&["organize", "imports"])) {
        WorkspaceAction::Execute(c) => assert_eq!(c, "organize imports"),
        other => panic!("unexpected {:?}", other),
    }
    match workspace_command_action(PromptEvent::Validate, true, Some(&supported), &args(&["organize"])) {
        WorkspaceAction::Status(m) => assert_eq!(m, "`organize` is not supported for this language server"),
        other => panic!("unexpected {:?}", other),
    }
}
