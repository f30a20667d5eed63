use helix::diff::{hunk_gets_char_diff, hunk_at, next_hunk, nth_hunk, prev_hunk, Hunk};

fn hunk(before: (u32, u32), after: (u32, u32)) -> Hunk {
    Hunk { before: before.0..before.1, after: after.0..after.1 }
}

fn sample() -> Vec<Hunk> {
    vec![hunk((0, 1), (0, 2)), hunk((5, 6), (6, 6)), hunk((9, 12), (10, 14))]
}

fn after(h: Option<Hunk>) -> Option<(u32, u32)> {
    h.map(|h| (h.after.start, h.after.end))
}

#[test]
fn nth_hunk_counts_from_zero() {
    let hunks = sample();
    assert_eq!(after(nth_hunk(&hunks, 0)), Some((0, 2)));
    assert_eq!(after(nth_hunk(&hunks, 2)), Some((10, 14)));
    assert_eq!(after(nth_hunk(&hunks, 3)), None);
}

#[test]
fn next_hunk_starts_below_the_line() {
    let hunks = sample();
    assert_eq!(after(next_hunk(&hunks, 0)), Some((6, 6)));
    assert_eq!(after(next_hunk(&hunks, 3)), Some((6, 6)));
    assert_eq!(after(next_hunk(&hunks, 6)), Some((10, 14)));
    assert_eq!(after(next_hunk(&hunks, 10)), None);
}

#[test]
fn prev_hunk_ends_at_or_above_the_line() {
    let hunks = sample();
    assert_eq!(after(prev_hunk(&hunks, 2)), Some((0, 2)));
    assert_eq!(after(prev_hunk(&hunks, 9)), Some((6, 6)));
    assert_eq!(after(prev_hunk(&hunks, 20)), Some((10, 14)));
    // before every hunk the first one is given
    assert_eq!(after(prev_hunk(&hunks, 0)), Some((0, 2)));
    assert_eq!(after(prev_hunk(&[], 4)), None);
}

#[test]
fn hunk_at_finds_the_hunk_holding_the_line() {
    let hunks = sample();
    assert_eq!(after(hunk_at(&hunks, 1)), Some((0, 2)));
    assert_eq!(after(hunk_at(&hunks, 13)), Some((10, 14)));
    assert_eq!(after(hunk_at(&hunks, 6)), None);
    assert_eq!(after(hunk_at(&hunks, 14)), None);
}

#[test]
fn which_hunks_get_a_char_diff() {
    assert!(hunk_gets_char_diff(3, 4));
    assert!(!hunk_gets_char_diff(0, 4));
    assert!(!hunk_gets_char_diff(4, 0));
    assert!(!hunk_gets_char_diff(2, 11));
    assert!(hunk_gets_char_diff(2, 10));
    assert!(!hunk_gets_char_diff(11, 2));
    assert!(hunk_gets_char_diff(10, 1));
    assert!(!hunk_gets_char_diff(100, 101));
    assert!(hunk_gets_char_diff(100, 100));
}
