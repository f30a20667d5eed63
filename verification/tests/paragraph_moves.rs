use helix::movement::Direction;
use helix::rule::SelectionRule;
use helix::selection::{Range, RuleContext, Selection};

/// Reads a text marked with `#[` and `]#` around the primary range and `|` at its head.
fn print(marked: &str) -> (Vec<char>, Selection) {
    let src: Vec<char> = marked.chars().collect();
    let mut text = Vec::new();
    let (mut start, mut end, mut bar) = (0, 0, 0);
    let mut i = 0;
    while i < src.len() {
        if src[i] == '#' && i + 1 < src.len() && src[i + 1] == '[' {
            start = text.len();
            i += 2;
        } else if src[i] == ']' && i + 1 < src.len() && src[i + 1] == '#' {
            end = text.len();
            i += 2;
        } else if src[i] == '|' {
            bar = text.len();
            i += 1;
        } else {
            text.push(src[i]);
            i += 1;
        }
    }
    let range = if bar == start && end > start {
        Range::new(end, start)
    } else {
        Range::new(start, end)
    };
    (text, Selection::single_range(range))
}

/// Writes the text back with the primary range marked.
fn plain(text: &[char], selection: &Selection) -> String {
    let r = selection.primary();
    let mut out = String::new();
    for i in 0..=text.len() {
        if r.anchor == r.head {
            if i == r.head {
                out.push_str("#[|]#");
            }
        } else if r.head < r.anchor {
            if i == r.head {
                out.push_str("#[|");
            }
            if i == r.anchor {
                out.push_str("]#");
            }
        } else {
            if i == r.anchor {
                out.push_str("#[");
            }
            if i == r.head {
                out.push_str("|]#");
            }
        }
        if i < text.len() {
            out.push(text[i]);
        }
    }
    out
}

fn test_move_paragraph(before: &str, expected: &str, extend: bool, direction: Direction, count: usize) {
    let (text, selection) = print(before);
    let rule = match direction {
        Direction::Forward => SelectionRule::MoveNextParagraph,
        Direction::Backward => SelectionRule::MovePrevParagraph,
    };
    let cx = RuleContext {
        text: &text,
        extend,
        pos_arg: 0,
        ts_textobject: None,
        direction: None,
        find_char: None,
    };
    let selection = selection.transform_pure(rule, &cx, count);
    let actual = plain(&text, &selection);
    assert_eq!(actual, expected, "\nbefore: `{:?}`", before);
}

#[test]
fn move_to_prev_paragraph_single() {
    let tests = [
        ("#[|]#", "#[|]#"),
        ("#[s|]#tart at\nfirst char\n", "#[|s]#tart at\nfirst char\n"),
        ("start at\nlast char#[\n|]#", "#[|start at\nlast char\n]#"),
        (
            "goto\nfirst\n\n#[p|]#aragraph",
            "#[|goto\nfirst\n\n]#paragraph",
        ),
        (
            "goto\nfirst\n#[\n|]#paragraph",
            "#[|goto\nfirst\n\n]#paragraph",
        ),
        (
            "goto\nsecond\n\np#[a|]#ragraph",
            "goto\nsecond\n\n#[|pa]#ragraph",
        ),
        (
            "here\n\nhave\nmultiple\nparagraph\n\n\n\n\n#[|]#",
            "here\n\n#[|have\nmultiple\nparagraph\n\n\n\n\n]#",
        ),
    ];

    for (before, expected) in tests {
        test_move_paragraph(before, expected, false, Direction::Backward, 1)
    }
}

#[test]
fn move_to_prev_paragraph_double() {
    let tests = [
        (
            "on#[e|]#\n\ntwo\n\nthree\n\n",
            "#[|]#one\n\ntwo\n\nthree\n\n",
        ),
        (
            "one\n\ntwo\n\nth#[r|]#ee\n\n",
            "one\n\n#[|two\n\n]#three\n\n",
        ),
    ];

    for (before, expected) in tests {
        test_move_paragraph(before, expected, false, Direction::Backward, 2)
    }
}

#[test]
fn extend_to_prev_paragraph_double() {
    let tests = [
        (
            "on#[e|]#\n\ntwo\n\nthree\n\n",
            "#[|one]#\n\ntwo\n\nthree\n\n",
        ),
        (
            "one\n\ntwo\n\nth#[r|]#ee\n\n",
            "one\n\n#[|two\n\nthr]#ee\n\n",
        ),
    ];

    for (before, expected) in tests {
        test_move_paragraph(before, expected, true, Direction::Backward, 2)
    }
}

#[test]
fn move_to_prev_paragraph_extend() {
    let tests = [
        (
            "one\n\n#[|two\n\n]#three\n\n",
            "#[|one\n\ntwo\n\n]#three\n\n",
        ),
        (
            "#[|one\n\ntwo\n\n]#three\n\n",
            "#[|one\n\ntwo\n\n]#three\n\n",
        ),
    ];

    for (before, expected) in tests {
        test_move_paragraph(before, expected, true, Direction::Backward, 1)
    }
}

#[test]
fn move_to_next_paragraph_single() {
    let tests = [
        ("#[|]#", "#[|]#"),
        ("#[s|]#tart at\nfirst char\n", "#[start at\nfirst char\n|]#"),
        ("start at\nlast char#[\n|]#", "start at\nlast char#[\n|]#"),
        (
            "a\nb\n\n#[g|]#oto\nthird\n\nparagraph",
            "a\nb\n\n#[goto\nthird\n\n|]#paragraph",
        ),
        (
            "a\nb\n#[\n|]#goto\nthird\n\nparagraph",
            "a\nb\n\n#[goto\nthird\n\n|]#paragraph",
        ),
        (
            "a\nb#[\n|]#\ngoto\nsecond\n\nparagraph",
            "a\nb#[\n\n|]#goto\nsecond\n\nparagraph",
        ),
        (
            "here\n\nhave\n#[m|]#ultiple\nparagraph\n\n\n\n\n",
            "here\n\nhave\n#[multiple\nparagraph\n\n\n\n\n|]#",
        ),
        (
            "#[t|]#ext\n\n\nafter two blank lines\n\nmore text\n",
            "#[text\n\n\n|]#after two blank lines\n\nmore text\n",
        ),
        (
            "#[text\n\n\n|]#after two blank lines\n\nmore text\n",
            "text\n\n\n#[after two blank lines\n\n|]#more text\n",
        ),
    ];

    for (before, expected) in tests {
        test_move_paragraph(before, expected, false, Direction::Forward, 1)
    }
}

#[test]
fn move_to_next_paragraph_double() {
    let tests = [
        (
            "one\n\ntwo\n\nth#[r|]#ee\n\n",
            "one\n\ntwo\n\nthree\n#[\n|]#",
        ),
        (
            "on#[e|]#\n\ntwo\n\nthree\n\n",
            "one\n\n#[two\n\n|]#three\n\n",
        ),
    ];

    for (before, expected) in tests {
        test_move_paragraph(before, expected, false, Direction::Forward, 2)
    }
}

#[test]
fn extend_to_next_paragraph_double() {
    let tests = [
        (
            "one\n\ntwo\n\nth#[r|]#ee\n\n",
            "one\n\ntwo\n\nth#[ree\n\n|]#",
        ),
        (
            "on#[e|]#\n\ntwo\n\nthree\n\n",
            "on#[e\n\ntwo\n\n|]#three\n\n",
        ),
    ];

    for (before, expected) in tests {
        test_move_paragraph(before, expected, true, Direction::Forward, 2)
    }
}

#[test]
fn test_behaviour_when_moving_to_next_paragraph_extend() {
    let tests = [
        (
            "one\n\n#[two\n\n|]#three\n\n",
            "one\n\n#[two\n\nthree\n\n|]#",
        ),
        (
            "one\n\n#[two\n\nthree\n\n|]#",
            "one\n\n#[two\n\nthree\n\n|]#",
        ),
    ];

    for (before, expected) in tests {
        test_move_paragraph(before, expected, true, Direction::Forward, 1)
    }
}
