use helix::selection::Range;
use helix::textobject::word_impl;
use helix::textobject::TextObject::{Around, Inside};

#[test]
fn word() {
    // (text, [(char position, textobject, final range), ...])
    let tests = &[
        (
            "cursor at beginning of doc",
            vec![(0, Inside, (0, 6)), (0, Around, (0, 7))],
        ),
        (
            "cursor at middle of word",
            vec![
                (13, Inside, (10, 16)),
                (10, Inside, (10, 16)),
                (15, Inside, (10, 16)),
                (13, Around, (10, 17)),
                (10, Around, (10, 17)),
                (15, Around, (10, 17)),
            ],
        ),
        (
            "cursor between word whitespace",
            vec![(6, Inside, (0, 6)), (6, Around, (0, 7))],
        ),
        (
            "cursor on word before newline\n",
            vec![
                (22, Inside, (22, 29)),
                (28, Inside, (22, 29)),
                (25, Inside, (22, 29)),
                (22, Around, (22, 29)),
                (28, Around, (22, 29)),
                (25, Around, (22, 29)),
            ],
        ),
        (
            "cursor on newline\nnext line",
            vec![(17, Inside, (17, 17)), (17, Around, (17, 17))],
        ),
        (
            "cursor on word after newline\nnext line",
            vec![
                (29, Inside, (29, 33)),
                (30, Inside, (29, 33)),
                (32, Inside, (29, 33)),
                (29, Around, (29, 34)),
                (30, Around, (29, 34)),
                (32, Around, (29, 34)),
            ],
        ),
        (
            "cursor on #$%:;* punctuation",
            vec![
                (13, Inside, (10, 16)),
                (10, Inside, (10, 16)),
                (15, Inside, (10, 16)),
                (13, Around, (10, 17)),
                (10, Around, (10, 17)),
                (15, Around, (10, 17)),
            ],
        ),
        (
            "cursor on punc%^#$:;.tuation",
            vec![
                (14, Inside, (14, 21)),
                (20, Inside, (14, 21)),
                (17, Inside, (14, 21)),
                (14, Around, (14, 21)),
                (20, Around, (14, 21)),
                (17, Around, (14, 21)),
            ],
        ),
        (
            "cursor in   extra whitespace",
            vec![
                (9, Inside, (7, 9)),
                (10, Inside, (7, 9)),
                (11, Inside, (7, 9)),
                (9, Around, (7, 12)),
                (10, Around, (7, 12)),
                (11, Around, (7, 12)),
            ],
        ),
        (
            "cursor on word   with extra whitespace",
            vec![(11, Inside, (10, 14)), (11, Around, (10, 17))],
        ),
        (
            "cursor at end with extra   whitespace",
            vec![(28, Inside, (27, 37)), (28, Around, (27, 37))],
        ),
        (
            "cursor at end of doc",
            vec![(19, Inside, (17, 20)), (19, Around, (17, 20))],
        ),
    ];

    for (sample, scenario) in tests {
        let doc: Vec<char> = sample.chars().collect();
        let slice = &doc[..];
        for &case in scenario {
            let (pos, textobject, expected_range) = case;
            // cursor is a single width selection
            let range = Range::new(pos, pos + 1);
            let result = word_impl(range, slice, Some(textobject), false);
            assert_eq!(
                result,
                Range::new(expected_range.0, expected_range.1),
                "\nCase failed: {:?} - {:?}",
                sample,
                case
            );
        }
    }
}

