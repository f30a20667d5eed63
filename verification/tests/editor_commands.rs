use helix::buffer::{Buffer, BufferID, BufferViewID};
use helix::editor::{
    buffer_gather_all_impl, buffer_gather_others_impl, buffers_remaining_impl, goto_line_start_impl,
    OpenBuffer,
};
use helix::movement::Movement;
use helix::selection::{Range, Selection};

fn id(n: usize) -> BufferID {
    BufferID::new(n).unwrap()
}

#[test]
fn gathering_buffers_to_close() {
    let docs = vec![id(1), id(2), id(3)];
    assert_eq!(buffer_gather_others_impl(&docs, id(2)), vec![id(1), id(3)]);
    assert_eq!(buffer_gather_others_impl(&docs, id(9)), docs);
    assert_eq!(buffer_gather_all_impl(&docs), docs);
}

fn open(n: usize, name: &str, modified: bool) -> OpenBuffer {
    OpenBuffer { id: id(n), display_name: name.to_string(), modified }
}

#[test]
fn unsaved_buffers_keep_the_editor_open() {
    let clean = vec![open(1, "a", false), open(2, "b", false)];
    assert!(buffers_remaining_impl(&clean, id(1)).is_ok());
    let docs = vec![open(1, "a", false), open(2, "b", true), open(3, "c", true)];
    let e = buffers_remaining_impl(&docs, id(1)).unwrap_err();
    assert_eq!(e.names, vec!["b".to_string(), "c".to_string()]);
    assert_eq!(e.switch_to, Some(id(2)));
    assert_eq!(e.message(), "2 unsaved buffer(s) remaining: [\"b\", \"c\"]");
    let e = buffers_remaining_impl(&docs, id(3)).unwrap_err();
    assert_eq!(e.switch_to, None);
    let one = vec![open(7, "notes \"x\"", true)];
    let e = buffers_remaining_impl(&one, id(7)).unwrap_err();
    assert_eq!(e.message(), "1 unsaved buffer(s) remaining: [\"notes \\\"x\\\"\"]");
}

#[test]
fn goto_line_start_moves_each_cursor() {
    let view = BufferViewID::default();
    let mut buffer = Buffer::from("abc\ndefg\nhi".chars().collect());
    buffer.selections.push((
        view,
        Selection { ranges: vec![Range::new(1, 2), Range::new(6, 7), Range::new(10, 11)], primary_index: 1 },
    ));
    let moved = goto_line_start_impl(&buffer, view, Movement::Move);
    assert_eq!(moved.ranges, vec![Range::point(0), Range::point(4), Range::point(9)]);
    assert_eq!(moved.primary_index, 1);
    let extended = goto_line_start_impl(&buffer, view, Movement::Extend);
    assert_eq!(extended.ranges, vec![Range::new(2, 0), Range::new(7, 4), Range::new(11, 9)]);
}

use helix::command::{command_doc, command_mode_action, Command, CommandArgument, CommandArgumentVariants, PromptAction};
use helix::keymap::{CommandParseError, MappableCommand};

fn command_list() -> Vec<Command> {
    vec![
        Command {
            name: "write".to_string(),
            aliases: vec!["w".to_string()],
            description: "Write changes to disk.".to_string(),
            args: vec![CommandArgument::Optional(CommandArgumentVariants::FilePath)],
        },
        Command { name: "quit".to_string(), aliases: vec!["q".to_string()], description: "Quit.".to_string(), args: vec![] },
    ]
}

#[test]
fn commands_are_read_by_name_or_alias() {
    let list = command_list();
    let m = MappableCommand::from_str("w notes.txt", &list).unwrap();
    assert_eq!(m.name(), "write");
    assert_eq!(m.supplied_args, vec!["notes.txt".to_string()]);
    let m = MappableCommand::from_str("quit", &list).unwrap();
    assert_eq!(m.name(), "quit");
    assert!(m.supplied_args.is_empty());
    assert_eq!(MappableCommand::from_str("q now", &list).err(), Some(CommandParseError::TooManyArguments));
    assert_eq!(MappableCommand::from_str("exit", &list).err(), Some(CommandParseError::NoSuchCommand));
    assert_eq!(MappableCommand::from_str("", &list).err(), Some(CommandParseError::NoSuchCommand));
    // two spaces give an empty argument
    assert_eq!(MappableCommand::from_str("write  a", &list).err(), Some(CommandParseError::TooManyArguments));
}

#[test]
fn prompt_input_is_decided() {
    let list = command_list();
    assert!(matches!(command_mode_action("", &list, true), PromptAction::Nothing));
    assert!(matches!(command_mode_action(" \t ", &list, true), PromptAction::Nothing));
    assert!(matches!(command_mode_action(" 42 ", &list, true), PromptAction::GotoLine(42)));
    assert!(matches!(command_mode_action("+7", &list, false), PromptAction::GotoLine(7)));
    match command_mode_action("w  a.txt b", &list, true) {
        PromptAction::Run { command, args } => {
            assert_eq!(command, 0);
            assert_eq!(args, vec!["a.txt".to_string(), "b".to_string()]);
        },
        other => panic!("unexpected {:?}", other),
    }
    match command_mode_action("quit", &list, false) {
        PromptAction::Run { command, args } => {
            assert_eq!(command, 1);
            assert!(args.is_empty());
        },
        other => panic!("unexpected {:?}", other),
    }
    match command_mode_action("exit now", &list, true) {
        PromptAction::NoSuchCommand(name) => assert_eq!(name, "exit"),
        other => panic!("unexpected {:?}", other),
    }
    assert!(matches!(command_mode_action("exit", &list, false), PromptAction::Nothing));
    // a number that does not fit, or with a sign or a second word, names no line
    assert!(matches!(command_mode_action("99999999999999999999999", &list, true), PromptAction::NoSuchCommand(_)));
    assert!(matches!(command_mode_action("-3", &list, true), PromptAction::NoSuchCommand(_)));
    assert!(matches!(command_mode_action("+", &list, true), PromptAction::NoSuchCommand(_)));
    assert!(matches!(command_mode_action("3 4", &list, true), PromptAction::NoSuchCommand(_)));
}

#[test]
fn prompt_shows_command_help() {
    let mut list = command_list();
    assert_eq!(command_doc("w notes.txt", &list), Some("Write changes to disk.\nAliases: w".to_string()));
    assert_eq!(command_doc("quit", &list), Some("Quit.\nAliases: q".to_string()));
    list.push(Command {
        name: "help".to_string(),
        aliases: vec![],
        description: "Open help.".to_string(),
        args: vec![],
    });
    list[0].aliases.push("save".to_string());
    assert_eq!(command_doc("help", &list), Some("Open help.".to_string()));
    assert_eq!(command_doc("save", &list), Some("Write changes to disk.\nAliases: w, save".to_string()));
    // only a space ends the name; a tab does not
    assert_eq!(command_doc("quit\tnow", &list), None);
    assert_eq!(command_doc(" quit", &list), None);
    assert_eq!(command_doc("exit", &list), None);
}

use helix::buffer_view::BufferView;
use helix::editor::{close_plan, write_all_plan, ClosePlan, CloseError, ViewFate, WriteCandidate, WriteStep};

fn view(n: usize, shows: usize, history: &[usize]) -> BufferView {
    let mut v = BufferView::new(id(shows), vec![]);
    v.id = BufferViewID(n);
    v.buffer_access_history = history.iter().map(|&h| id(h)).collect();
    v
}

fn fates(p: &ClosePlan) -> Vec<(usize, ViewFate)> {
    p.views.iter().map(|(v, f)| (v.0, *f)).collect()
}

#[test]
fn closing_a_buffer_plans_each_view() {
    let docs = vec![open(3, "c", false), open(1, "a", true), open(2, "b", false)];
    assert!(matches!(close_plan(&[], &docs, id(9), false), Err(CloseError::DoesNotExist)));
    match close_plan(&[], &docs, id(1), false) {
        Err(CloseError::BufferModified(name)) => assert_eq!(name, "a"),
        other => panic!("unexpected {:?}", other.map(|p| p.views.len())),
    }
    // view 0 shows buffer 2 and showed 3 and 2 before: it goes back to 3;
    // view 1 shows buffer 2 alone and closes; view 2 shows buffer 1
    let views = vec![view(0, 2, &[3, 2]), view(1, 2, &[2]), view(2, 1, &[])];
    let p = close_plan(&views, &docs, id(2), false).unwrap();
    assert_eq!(fates(&p), vec![(0, ViewFate::Show(id(3))), (1, ViewFate::Close)]);
    assert_eq!(p.fallback, None);
    // forced, a modified buffer closes too; with every view closed the
    // smallest other buffer is shown
    let views = vec![view(4, 1, &[1])];
    let p = close_plan(&views, &docs, id(1), true).unwrap();
    assert_eq!(fates(&p), vec![(4, ViewFate::Close)]);
    assert_eq!(p.fallback, Some(Some(id(2))));
    // the last buffer: a new one is made
    let p = close_plan(&[view(0, 5, &[])], &[open(5, "e", false)], id(5), false).unwrap();
    assert_eq!(p.fallback, Some(None));
}

fn candidate(n: usize, modified: bool, has_path: bool, views: &[usize], has_formatter: bool) -> WriteCandidate {
    WriteCandidate { id: id(n), modified, has_path, views: views.iter().map(|&v| BufferViewID(v)).collect(), has_formatter }
}

#[test]
fn writing_all_buffers() {
    let docs = vec![
        candidate(1, true, true, &[2, 7], true),
        candidate(2, false, true, &[7], true),
        candidate(3, true, false, &[7], false),
        candidate(4, true, true, &[5], false),
        candidate(5, true, true, &[], true),
    ];
    let p = write_all_plan(&docs, BufferViewID(7), true, true, false);
    assert_eq!(
        p.steps,
        vec![
            WriteStep { id: id(1), view: BufferViewID(7), init_view: false, format: true },
            WriteStep { id: id(4), view: BufferViewID(5), init_view: false, format: false },
            WriteStep { id: id(5), view: BufferViewID(7), init_view: true, format: true },
        ]
    );
    assert_eq!(p.scratch_errors, 1);
    assert!(p.fails);
    let p = write_all_plan(&docs, BufferViewID(7), false, true, true);
    assert!(p.steps.iter().all(|s| !s.format));
    assert!(!p.fails);
    let p = write_all_plan(&docs, BufferViewID(7), true, false, false);
    assert_eq!(p.scratch_errors, 0);
    assert!(!p.fails);
}

use helix::editor::{switch_replace, CurrentBuffer};

#[test]
fn switching_the_focused_view() {
    let current = |n: usize, modified: bool, has_path: bool, since: bool| CurrentBuffer {
        id: id(n),
        modified,
        has_path,
        modified_since_accessed: since,
    };
    // an empty scratch buffer shown nowhere else is dropped
    let mut v = view(0, 1, &[3, 1]);
    let removed = switch_replace(&mut v, &[view(1, 2, &[])], &current(1, false, false, false), Selection::point(0), id(2));
    assert_eq!(removed, Some(id(1)));
    assert_eq!(v.buffer_id, id(2));
    assert_eq!(v.buffer_access_history, vec![id(3)]);
    // shown in another view, it stays: a jump is recorded and the history grows
    let mut v = view(0, 1, &[3]);
    v.last_modified_buffers = [Some(id(3)), None];
    let removed = switch_replace(&mut v, &[view(1, 1, &[])], &current(1, false, false, true), Selection::point(4), id(2));
    assert_eq!(removed, None);
    assert_eq!(v.buffer_id, id(2));
    assert_eq!(v.buffer_access_history, vec![id(3), id(1)]);
    assert_eq!(v.last_modified_buffers, [Some(id(1)), Some(id(3))]);
    assert_eq!(v.offset.row, 0);
    // switching to the buffer already shown changes no history
    let mut v = view(0, 4, &[3]);
    let removed = switch_replace(&mut v, &[], &current(4, true, true, true), Selection::point(0), id(4));
    assert_eq!(removed, None);
    assert_eq!(v.buffer_access_history, vec![id(3)]);
    assert_eq!(v.last_modified_buffers, [None, None]);
}

use helix::editor::close_document;
use helix::jump_list::JumpList as EditorJumpList;

fn jump_ids(j: &EditorJumpList) -> Vec<usize> {
    j.iter().iter().map(|(b, _)| b.get()).collect()
}

#[test]
fn closing_a_buffer_updates_views_buffers_and_jumps() {
    let mut docs = vec![open(3, "c", false), open(1, "a", true), open(2, "b", false)];
    let mut views = vec![view(0, 2, &[3, 2]), view(1, 2, &[2]), view(2, 1, &[2, 3])];
    let mut jumps = EditorJumpList::new((id(2), Selection::point(0)));
    jumps.push((id(1), Selection::point(0)));
    jumps.push((id(2), Selection::point(5)));
    // a modified buffer stays unless forced
    assert!(matches!(
        close_document(&mut views, &mut docs, &mut jumps, id(1), false, id(9), BufferViewID(7), vec![]),
        Err(CloseError::BufferModified(_))
    ));
    assert_eq!(views.len(), 3);
    assert_eq!(docs.len(), 3);
    assert!(matches!(
        close_document(&mut views, &mut docs, &mut jumps, id(8), false, id(9), BufferViewID(7), vec![]),
        Err(CloseError::DoesNotExist)
    ));
    close_document(&mut views, &mut docs, &mut jumps, id(2), false, id(9), BufferViewID(7), vec![]).unwrap();
    // view 0 goes back to 3 (taken out of its history), view 1 closes, view 2 forgets 2
    assert_eq!(views.iter().map(|v| (v.id.0, v.buffer_id.get())).collect::<Vec<_>>(), vec![(0, 3), (2, 1)]);
    assert!(views[0].buffer_access_history.is_empty());
    assert_eq!(views[1].buffer_access_history, vec![id(3)]);
    assert_eq!(docs.iter().map(|d| d.id.get()).collect::<Vec<_>>(), vec![3, 1]);
    assert_eq!(jump_ids(&jumps), vec![1]);
    // closing the last buffer of the last view makes a new view on a new buffer
    let mut docs = vec![open(5, "e", false)];
    let mut views = vec![view(0, 5, &[])];
    close_document(&mut views, &mut docs, &mut jumps, id(5), false, id(9), BufferViewID(7), vec![]).unwrap();
    assert_eq!(views.len(), 1);
    assert_eq!((views[0].id.0, views[0].buffer_id.get()), (7, 9));
    assert_eq!(docs.iter().map(|d| (d.id.get(), d.display_name.as_str())).collect::<Vec<_>>(), vec![(9, "[scratch]")]);
    // with another buffer open, that one is shown
    let mut docs = vec![open(6, "f", false), open(4, "d", false), open(5, "e", false)];
    let mut views = vec![view(0, 6, &[])];
    close_document(&mut views, &mut docs, &mut jumps, id(6), false, id(9), BufferViewID(7), vec![]).unwrap();
    assert_eq!(views[0].buffer_id.get(), 4);
}

use helix::editor::{switch, Action, SwitchOutcome};

#[test]
fn switching_by_action() {
    let docs = vec![open(1, "a", false), open(2, "b", true)];
    let cur = CurrentBuffer { id: id(1), modified: false, has_path: true, modified_since_accessed: false };
    let mut v = view(0, 1, &[]);
    assert_eq!(switch(&mut v, &[], &docs, &cur, Selection::point(0), id(9), Action::Replace), SwitchOutcome::Missing);
    assert_eq!(v.buffer_id, id(1));
    assert_eq!(switch(&mut v, &[], &docs, &cur, Selection::point(0), id(2), Action::Load), SwitchOutcome::Loaded);
    assert_eq!(switch(&mut v, &[], &docs, &cur, Selection::point(0), id(1), Action::VerticalSplit), SwitchOutcome::Split(true));
    assert_eq!(switch(&mut v, &[], &docs, &cur, Selection::point(0), id(2), Action::HorizontalSplit), SwitchOutcome::Split(false));
    assert_eq!(switch(&mut v, &[], &docs, &cur, Selection::point(0), id(2), Action::Replace), SwitchOutcome::Replaced(None));
    assert_eq!(v.buffer_id, id(2));
}
