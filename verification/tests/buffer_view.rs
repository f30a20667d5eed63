use helix::buffer::{Buffer, BufferID};
use helix::buffer_view::BufferView;
use helix::graphics::Rect;
use helix::gutter::GutterComponents;

// 1 diagnostic + 2 line numbers (< 100 lines)
const OFFSET: u16 = 3;
// 1 diagnostic
const OFFSET_WITHOUT_LINE_NUMBERS: u16 = 1;

fn buffer(text: &str) -> Buffer {
    Buffer::from(text.chars().collect())
}

#[test]
fn test_text_pos_at_screen_coords() {
    let mut buffer_view = BufferView::new(
        BufferID::default(),
        vec![GutterComponents::Diagnostics, GutterComponents::LineNumbers],
    );
    buffer_view.area = Rect::new(40, 40, 40, 40);
    let buffer = buffer("abc\n\tdef");

    assert_eq!(buffer_view.text_pos_at_screen_coords(&buffer, 40, 2, 4), None);

    assert_eq!(buffer_view.text_pos_at_screen_coords(&buffer, 40, 41, 4), None);

    assert_eq!(buffer_view.text_pos_at_screen_coords(&buffer, 0, 2, 4), None);

    assert_eq!(buffer_view.text_pos_at_screen_coords(&buffer, 0, 49, 4), None);

    assert_eq!(buffer_view.text_pos_at_screen_coords(&buffer, 0, 41, 4), None);

    assert_eq!(buffer_view.text_pos_at_screen_coords(&buffer, 40, 81, 4), None);

    assert_eq!(buffer_view.text_pos_at_screen_coords(&buffer, 78, 41, 4), None);

    assert_eq!(
        buffer_view.text_pos_at_screen_coords(&buffer, 40, 40 + OFFSET + 3, 4),
        Some(3)
    );

    assert_eq!(buffer_view.text_pos_at_screen_coords(&buffer, 40, 80, 4), Some(3));

    assert_eq!(
        buffer_view.text_pos_at_screen_coords(&buffer, 41, 40 + OFFSET + 1, 4),
        Some(4)
    );

    assert_eq!(
        buffer_view.text_pos_at_screen_coords(&buffer, 41, 40 + OFFSET + 4, 4),
        Some(5)
    );

    assert_eq!(
        buffer_view.text_pos_at_screen_coords(&buffer, 41, 40 + OFFSET + 7, 4),
        Some(8)
    );

    assert_eq!(buffer_view.text_pos_at_screen_coords(&buffer, 41, 80, 4), Some(8));
}

#[test]
fn test_text_pos_at_screen_coords_without_line_numbers_gutter() {
    let mut buffer_view = BufferView::new(BufferID::default(), vec![GutterComponents::Diagnostics]);
    buffer_view.area = Rect::new(40, 40, 40, 40);
    let buffer = buffer("abc\n\tdef");
    assert_eq!(
        buffer_view.text_pos_at_screen_coords(&buffer, 41, 40 + OFFSET_WITHOUT_LINE_NUMBERS + 1, 4),
        Some(4)
    );
}

#[test]
fn test_text_pos_at_screen_coords_without_any_gutters() {
    let mut buffer_view = BufferView::new(BufferID::default(), vec![]);
    buffer_view.area = Rect::new(40, 40, 40, 40);
    let buffer = buffer("abc\n\tdef");
    assert_eq!(buffer_view.text_pos_at_screen_coords(&buffer, 41, 40 + 1, 4), Some(4));
}

#[test]
fn test_text_pos_at_screen_coords_cjk() {
    let mut buffer_view = BufferView::new(
        BufferID::default(),
        vec![GutterComponents::Diagnostics, GutterComponents::LineNumbers],
    );
    buffer_view.area = Rect::new(40, 40, 40, 40);
    let buffer = buffer("Hi! こんにちは皆さん");

    assert_eq!(
        buffer_view.text_pos_at_screen_coords(&buffer, 40, 40 + OFFSET, 4),
        Some(0)
    );

    assert_eq!(
        buffer_view.text_pos_at_screen_coords(&buffer, 40, 40 + OFFSET + 4, 4),
        Some(4)
    );
    assert_eq!(
        buffer_view.text_pos_at_screen_coords(&buffer, 40, 40 + OFFSET + 5, 4),
        Some(4)
    );

    assert_eq!(
        buffer_view.text_pos_at_screen_coords(&buffer, 40, 40 + OFFSET + 6, 4),
        Some(5)
    );

    assert_eq!(
        buffer_view.text_pos_at_screen_coords(&buffer, 40, 40 + OFFSET + 7, 4),
        Some(5)
    );

    assert_eq!(
        buffer_view.text_pos_at_screen_coords(&buffer, 40, 40 + OFFSET + 8, 4),
        Some(6)
    );
}

#[test]
fn test_text_pos_at_screen_coords_graphemes() {
    let mut buffer_view = BufferView::new(
        BufferID::default(),
        vec![GutterComponents::Diagnostics, GutterComponents::LineNumbers],
    );
    buffer_view.area = Rect::new(40, 40, 40, 40);
    let buffer = buffer("Hèl̀l̀ò world!");

    assert_eq!(
        buffer_view.text_pos_at_screen_coords(&buffer, 40, 40 + OFFSET, 4),
        Some(0)
    );

    assert_eq!(
        buffer_view.text_pos_at_screen_coords(&buffer, 40, 40 + OFFSET + 1, 4),
        Some(1)
    );

    assert_eq!(
        buffer_view.text_pos_at_screen_coords(&buffer, 40, 40 + OFFSET + 2, 4),
        Some(3)
    );

    assert_eq!(
        buffer_view.text_pos_at_screen_coords(&buffer, 40, 40 + OFFSET + 3, 4),
        Some(5)
    );

    assert_eq!(
        buffer_view.text_pos_at_screen_coords(&buffer, 40, 40 + OFFSET + 4, 4),
        Some(7)
    );
}
