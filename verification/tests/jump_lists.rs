use helix::buffer::{Buffer, BufferID, BufferViewID};
use helix::jump::{JumpList, JUMP_LIST_CAPACITY};
use helix::jump_list::JumpList as EditorJumpList;
use helix::selection::Selection;

fn id(n: usize) -> BufferID {
    BufferID::new(n).unwrap()
}

fn jump(n: usize, pos: usize) -> (BufferID, Selection) {
    (id(n), Selection::point(pos))
}

fn positions(list: &JumpList) -> Vec<(usize, usize)> {
    list.iter().iter().map(|(b, s)| (b.get(), s.primary().head)).collect()
}

fn editor_positions(list: &EditorJumpList) -> Vec<(usize, usize)> {
    list.iter().iter().map(|(b, s)| (b.get(), s.primary().head)).collect()
}

#[test]
fn buffer_id_is_never_zero() {
    assert!(BufferID::new(0).is_none());
    assert_eq!(BufferID::new(7).unwrap().get(), 7);
    assert_eq!(BufferID::default().get(), 1);
}

#[test]
fn new_list_holds_the_initial_jump() {
    let list = JumpList::new(jump(1, 0));
    assert_eq!(positions(&list), vec![(1, 0)]);
    assert_eq!(list.len(), 1);
}

#[test]
fn push_drops_jumps_after_the_cursor() {
    let mut list = JumpList::new(jump(1, 0));
    // the cursor starts on the initial jump, so the first push replaces it
    list.push(jump(1, 3));
    list.push(jump(1, 5));
    list.push(jump(1, 9));
    assert_eq!(positions(&list), vec![(1, 3), (1, 5), (1, 9)]);
    // going back from the newest place records it, then lands two back
    let view = BufferViewID::default();
    let mut buffer = Buffer::from("0123456789".chars().collect());
    buffer.selections.push((view, Selection::point(7)));
    let back = list.backward(view, &buffer, 2).map(|(b, s)| (b.get(), s.primary().head));
    assert_eq!(back, Some((1, 5)));
    assert_eq!(positions(&list), vec![(1, 3), (1, 5), (1, 9), (1, 7)]);
    // pushing now drops the jumps after the cursor
    list.push(jump(2, 3));
    assert_eq!(positions(&list), vec![(1, 3), (2, 3)]);
}

#[test]
fn push_does_not_repeat_the_newest_jump() {
    let mut list = JumpList::new(jump(1, 0));
    list.push(jump(1, 2));
    list.push(jump(1, 4));
    list.push(jump(1, 4));
    assert_eq!(positions(&list), vec![(1, 2), (1, 4)]);
}

#[test]
fn list_keeps_at_most_capacity_jumps() {
    let mut list = JumpList::new(jump(1, 0));
    for i in 1..100 {
        list.push(jump(1, i));
    }
    assert_eq!(list.len(), JUMP_LIST_CAPACITY);
    let p = positions(&list);
    assert_eq!(p[0], (1, 70));
    assert_eq!(p[JUMP_LIST_CAPACITY - 1], (1, 99));
}

#[test]
fn backward_from_the_newest_records_the_current_place() {
    let mut list = JumpList::new(jump(1, 0));
    list.push(jump(1, 5));
    let view = BufferViewID::default();
    let mut buffer = Buffer::from("0123456789".chars().collect());
    buffer.selections.push((view, Selection::point(8)));
    let back = list.backward(view, &buffer, 1).map(|(b, s)| (b.get(), s.primary().head));
    assert_eq!(back, Some((1, 5)));
    assert_eq!(positions(&list), vec![(1, 5), (1, 8)]);
    let fwd = list.forward(1).map(|(b, s)| (b.get(), s.primary().head));
    assert_eq!(fwd, Some((1, 8)));
    assert!(list.forward(1).is_none());
    assert!(list.backward(view, &buffer, 5).is_none());
}

#[test]
fn remove_drops_every_jump_into_the_buffer() {
    let mut list = JumpList::new(jump(1, 0));
    list.push(jump(1, 0));
    list.push(jump(2, 1));
    list.push(jump(1, 2));
    list.push(jump(3, 3));
    list.remove(&id(1));
    assert_eq!(positions(&list), vec![(2, 1), (3, 3)]);
    assert_eq!(list.len(), 2);
}

#[test]
fn editor_list_appends_and_moves() {
    let mut list = EditorJumpList::new(jump(1, 0));
    list.push(jump(1, 2));
    list.push(jump(1, 2));
    list.push(jump(2, 7));
    assert_eq!(editor_positions(&list), vec![(1, 0), (1, 2), (2, 7)]);
    // the cursor is past the newest jump
    let back = list.backward(2).map(|(b, s)| (b.get(), s.primary().head));
    assert_eq!(back, Some((1, 2)));
    let fwd = list.forward(1).map(|(b, s)| (b.get(), s.primary().head));
    assert_eq!(fwd, Some((2, 7)));
    assert!(list.forward(1).is_none());
    let back = list.backward(2).map(|(b, s)| (b.get(), s.primary().head));
    assert_eq!(back, Some((1, 0)));
    assert!(list.backward(1).is_none());
    list.remove(&id(1));
    assert_eq!(editor_positions(&list), vec![(2, 7)]);
}
