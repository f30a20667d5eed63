use helix::rule::SelectionRule;
use helix::textobject::TextObject;
use helix::selection::{Range, RuleContext, Selection};

/// Reads a text marked with `#[` and `]#` around the primary range and `|` at its head.
fn print(marked: &str) -> (Vec<char>, Selection) {
    let src: Vec<char> = marked.chars().collect();
    let mut text = Vec::new();
    let (mut start, mut end, mut bar) = (0, 0, 0);
    let mut i = 0;
    while i < src.len() {
        if src[i] == '#' && i + 1 < src.len() && src[i + 1] == '[' {
            start = text.len();
            i += 2;
        } else if src[i] == ']' && i + 1 < src.len() && src[i + 1] == '#' {
            end = text.len();
            i += 2;
        } else if src[i] == '|' {
            bar = text.len();
            i += 1;
        } else {
            text.push(src[i]);
            i += 1;
        }
    }
    let range = if bar == start && end > start {
        Range::new(end, start)
    } else {
        Range::new(start, end)
    };
    (text, Selection::single_range(range))
}

/// Writes the text back with the primary range marked.
fn plain(text: &[char], selection: &Selection) -> String {
    let r = selection.primary();
    let mut out = String::new();
    for i in 0..=text.len() {
        if r.anchor == r.head {
            if i == r.head {
                out.push_str("#[|]#");
            }
        } else if r.head < r.anchor {
            if i == r.head {
                out.push_str("#[|");
            }
            if i == r.anchor {
                out.push_str("]#");
            }
        } else {
            if i == r.anchor {
                out.push_str("#[");
            }
            if i == r.head {
                out.push_str("|]#");
            }
        }
        if i < text.len() {
            out.push(text[i]);
        }
    }
    out
}

fn test_textobj_paragraph(before: &str, expected: &str, textobject: TextObject, count: usize) {
    let (text, selection) = print(before);
    let cx = RuleContext {
        text: &text,
        extend: false,
        pos_arg: count,
        ts_textobject: Some(textobject),
        direction: None,
        find_char: None,
    };
    let selection = selection.transform_pure(SelectionRule::Paragraph, &cx, 1);
    let actual = plain(&text, &selection);
    assert_eq!(actual, expected, "\nbefore: `{:?}`", before);
}

#[test]
fn paragraph_inside_single() {
    let tests = [
        ("#[|]#", "#[|]#"),
        ("firs#[t|]#\n\nparagraph\n\n", "#[first\n|]#\nparagraph\n\n"),
        (
            "second\n\npa#[r|]#agraph\n\n",
            "second\n\n#[paragraph\n|]#\n",
        ),
        ("#[f|]#irst char\n\n", "#[first char\n|]#\n"),
        ("last char\n#[\n|]#", "#[last char\n|]#\n"),
        (
            "empty to line\n#[\n|]#paragraph boundary\n\n",
            "#[empty to line\n|]#\nparagraph boundary\n\n",
        ),
        (
            "line to empty\n\n#[p|]#aragraph boundary\n\n",
            "line to empty\n\n#[paragraph boundary\n|]#\n",
        ),
    ];

    for (before, expected) in tests {
        test_textobj_paragraph(before, expected, TextObject::Inside, 1);
    }
}

#[test]
fn paragraph_around_single() {
    let tests = [
        ("#[|]#", "#[|]#"),
        ("firs#[t|]#\n\nparagraph\n\n", "#[first\n\n|]#paragraph\n\n"),
        (
            "second\n\npa#[r|]#agraph\n\n",
            "second\n\n#[paragraph\n\n|]#",
        ),
        ("#[f|]#irst char\n\n", "#[first char\n\n|]#"),
        ("last char\n#[\n|]#", "#[last char\n\n|]#"),
        (
            "empty to line\n#[\n|]#paragraph boundary\n\n",
            "#[empty to line\n\n|]#paragraph boundary\n\n",
        ),
        (
            "line to empty\n\n#[p|]#aragraph boundary\n\n",
            "line to empty\n\n#[paragraph boundary\n\n|]#",
        ),
    ];

    for (before, expected) in tests {
        test_textobj_paragraph(before, expected, TextObject::Around, 1);
    }
}
