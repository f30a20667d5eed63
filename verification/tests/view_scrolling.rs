use helix::buffer::{Buffer, BufferID, BufferViewID};
use helix::buffer_view::{align_view, Align, BufferView};
use helix::graphics::Rect;
use helix::gutter::GutterComponents;
use helix::position::Position;
use helix::selection::Selection;
use helix::config::{CursorKind, CursorShapeConfig, Mode};
use helix::editor::cursor;

fn lines(n: usize) -> Buffer {
    let text: String = (0..n).map(|i| format!("line {:02}\n", i)).collect();
    Buffer::from(text.chars().collect())
}

fn view_with_cursor(buffer: &mut Buffer, pos: usize) -> BufferView {
    let mut view = BufferView::new(BufferID::default(), vec![GutterComponents::Diagnostics]);
    // 10 rows of text below which the status line sits, 41 columns of which 1 is gutter
    view.area = Rect::new(0, 0, 41, 11);
    buffer.selections.push((BufferViewID::default(), Selection::point(pos)));
    view
}

#[test]
fn inner_area_and_height() {
    let buffer = lines(5);
    let mut view = BufferView::new(BufferID::default(), vec![GutterComponents::Diagnostics, GutterComponents::LineNumbers]);
    view.area = Rect::new(2, 3, 40, 20);
    assert_eq!(view.gutter_offset(&buffer), 3);
    assert_eq!(view.inner_area(&buffer), Rect::new(5, 3, 37, 19));
    assert_eq!(view.inner_height(), 19);
    assert_eq!(view.gutters(), &[GutterComponents::Diagnostics, GutterComponents::LineNumbers]);
}

#[test]
fn scrolling_down_keeps_scrolloff_lines_below_the_cursor() {
    let mut buffer = lines(50);
    // the cursor on line 20
    let pos = 20 * 8 + 2;
    let mut view = view_with_cursor(&mut buffer, pos);
    assert!(!view.is_cursor_in_view(&buffer, 3));
    assert_eq!(view.offset_coords_to_in_view(&buffer, 3), Some((14, 0)));
    view.ensure_cursor_in_view(&buffer, 3);
    assert_eq!(view.offset, Position::new(14, 0));
    // once scrolled, the cursor is in view
    assert!(view.is_cursor_in_view(&buffer, 3));
    assert_eq!(view.offset_coords_to_in_view(&buffer, 3), None);
    assert_eq!(view.last_line(&buffer), 23);
}

#[test]
fn scrolling_up_and_centering() {
    let mut buffer = lines(50);
    let mut view = view_with_cursor(&mut buffer, 5 * 8);
    view.offset = Position::new(30, 0);
    assert_eq!(view.offset_coords_to_in_view(&buffer, 2), Some((3, 0)));
    // the cursor is out of view: centering aligns on its line
    view.ensure_cursor_in_view_center(&buffer, 2);
    assert_eq!(view.offset, Position::new(1, 0));
}

#[test]
fn aligning_the_cursor_line() {
    let mut buffer = lines(50);
    let mut view = view_with_cursor(&mut buffer, 30 * 8);
    align_view(&buffer, &mut view, Align::Top);
    assert_eq!(view.offset.row, 30);
    align_view(&buffer, &mut view, Align::Bottom);
    assert_eq!(view.offset.row, 21);
    align_view(&buffer, &mut view, Align::Center);
    assert_eq!(view.offset.row, 26);
}

#[test]
fn screen_coords_of_positions() {
    let mut buffer = lines(50);
    let mut view = view_with_cursor(&mut buffer, 0);
    view.offset = Position::new(10, 2);
    let text: Vec<char> = buffer.text().to_vec();
    assert_eq!(view.screen_coords_at_pos(&buffer, &text, 12 * 8 + 4), Some(Position::new(2, 2)));
    assert_eq!(view.screen_coords_at_pos(&buffer, &text, 12 * 8 + 1), Some(Position::new(2, 0)));
    assert_eq!(view.screen_coords_at_pos(&buffer, &text, 5 * 8), None);
    assert_eq!(view.screen_coords_at_pos(&buffer, &text, 30 * 8), None);
    assert_eq!(view.pos_at_screen_coords(&buffer, 2, 1 + 3), Some(12 * 8 + 5));
    // the gutter is one column wide
    assert_eq!(view.gutter_coords_at_screen_coords(&buffer, 2, 0), Some(Position::new(2, 0)));
    assert_eq!(view.gutter_coords_at_screen_coords(&buffer, 2, 1), None);
    assert_eq!(view.gutter_coords_at_screen_coords(&buffer, 11, 0), None);
    view.area = Rect::new(4, 3, 41, 11);
    assert_eq!(view.gutter_coords_at_screen_coords(&buffer, 3, 4), Some(Position::new(0, 0)));
    assert_eq!(view.gutter_coords_at_screen_coords(&buffer, 3, 3), None);
    assert_eq!(view.gutter_coords_at_screen_coords(&buffer, 3, 5), None);
    // a view without a gutter has no gutter cell
    view.gutters = vec![];
    assert_eq!(view.gutter_coords_at_screen_coords(&buffer, 3, 4), None);
}

#[test]
fn history_and_removal() {
    let one = BufferID::new(1).unwrap();
    let two = BufferID::new(2).unwrap();
    let three = BufferID::new(3).unwrap();
    let mut view = BufferView::new(one, vec![]);
    view.add_to_history(one);
    view.add_to_history(two);
    view.add_to_history(three);
    view.add_to_history(one);
    assert_eq!(view.buffer_access_history, vec![two, three, one]);
    view.remove_buffer(&three);
    assert_eq!(view.buffer_access_history, vec![two, one]);
    view.jumps.push((two, Selection::point(0)));
    view.remove_buffer(&two);
    assert_eq!(view.buffer_access_history, vec![one]);
    assert_eq!(view.jumps.len(), 0);
}

#[test]
fn terminal_cursor_of_a_view() {
    let mut buffer = lines(50);
    // line 3, column 2
    let mut view = view_with_cursor(&mut buffer, 3 * 8 + 2);
    let shapes = CursorShapeConfig([CursorKind::Block, CursorKind::Underline, CursorKind::Bar]);
    // the text area starts one column right of the view's corner, past the gutter
    assert_eq!(cursor(&view, &buffer, &shapes, Mode::Insert), (Some(Position::new(3, 3)), CursorKind::Bar));
    assert_eq!(cursor(&view, &buffer, &shapes, Mode::Select), (Some(Position::new(3, 3)), CursorKind::Underline));
    view.area = Rect::new(5, 7, 41, 11);
    view.offset = Position::new(2, 1);
    assert_eq!(cursor(&view, &buffer, &shapes, Mode::Normal), (Some(Position::new(8, 7)), CursorKind::Block));
    // scrolled past the cursor's line
    view.offset = Position::new(10, 0);
    assert_eq!(cursor(&view, &buffer, &shapes, Mode::Insert), (None, CursorKind::Block));
}

#[test]
fn scrolling_twice_is_scrolling_once() {
    let mut buffer = lines(50);
    let mut view = view_with_cursor(&mut buffer, 33 * 8 + 6);
    view.ensure_cursor_in_view(&buffer, 3);
    let once = view.offset;
    assert!(view.is_cursor_in_view(&buffer, 3));
    view.ensure_cursor_in_view(&buffer, 3);
    assert_eq!(view.offset, once);
}
