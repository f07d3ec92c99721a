use highlight::line_index::{LineCol, LineIndex, Utf16Char};
use highlight::text_range::TextRange;

fn index_of(text: &str) -> LineIndex {
    LineIndex::new(&text.as_bytes().to_vec())
}

#[test]
fn test_line_index() {
    let text = "hello\nworld";
    let index = index_of(text);
    assert_eq!(index.line_col(0), LineCol { line: 0, col_utf16: 0 });
    assert_eq!(index.line_col(1), LineCol { line: 0, col_utf16: 1 });
    assert_eq!(index.line_col(5), LineCol { line: 0, col_utf16: 5 });
    assert_eq!(index.line_col(6), LineCol { line: 1, col_utf16: 0 });
    assert_eq!(index.line_col(7), LineCol { line: 1, col_utf16: 1 });
    assert_eq!(index.line_col(8), LineCol { line: 1, col_utf16: 2 });
    assert_eq!(index.line_col(10), LineCol { line: 1, col_utf16: 4 });
    assert_eq!(index.line_col(11), LineCol { line: 1, col_utf16: 5 });
    assert_eq!(index.line_col(12), LineCol { line: 1, col_utf16: 6 });

    let text = "\nhello\nworld";
    let index = index_of(text);
    assert_eq!(index.line_col(0), LineCol { line: 0, col_utf16: 0 });
    assert_eq!(index.line_col(1), LineCol { line: 1, col_utf16: 0 });
    assert_eq!(index.line_col(2), LineCol { line: 1, col_utf16: 1 });
    assert_eq!(index.line_col(6), LineCol { line: 1, col_utf16: 5 });
    assert_eq!(index.line_col(7), LineCol { line: 2, col_utf16: 0 });
}

#[test]
fn test_char_len() {
    assert_eq!('\u{30e1}'.len_utf8(), 3);
    assert_eq!('\u{30e1}'.len_utf16(), 1);
}

#[test]
fn test_empty_index() {
    let col_index = index_of("\nconst C: char = 'x';\n");
    assert_eq!(col_index.utf16_lines.len(), 0);
}

#[test]
fn test_single_char() {
    let col_index = index_of("\nconst C: char = '\u{30e1}';\n");

    assert_eq!(col_index.utf16_lines.len(), 1);
    assert_eq!(col_index.utf16_lines[0].0, 1);
    assert_eq!(col_index.utf16_lines[0].1.len(), 1);
    assert_eq!(col_index.utf16_lines[0].1[0], Utf16Char { start: 17, end: 20 });

    // UTF-8 to UTF-16, no changes
    assert_eq!(col_index.utf8_to_utf16_col(1, 15), 15);

    // UTF-8 to UTF-16
    assert_eq!(col_index.utf8_to_utf16_col(1, 22), 20);

    // UTF-16 to UTF-8, no changes
    assert_eq!(col_index.utf16_to_utf8_col(1, 15), 15);

    // UTF-16 to UTF-8
    assert_eq!(col_index.utf16_to_utf8_col(1, 19), 21);
}

#[test]
fn test_string() {
    let col_index = index_of("\nconst C: char = \"\u{30e1} \u{30e1}\";\n");

    assert_eq!(col_index.utf16_lines.len(), 1);
    assert_eq!(col_index.utf16_lines[0].0, 1);
    assert_eq!(col_index.utf16_lines[0].1.len(), 2);
    assert_eq!(col_index.utf16_lines[0].1[0], Utf16Char { start: 17, end: 20 });
    assert_eq!(col_index.utf16_lines[0].1[1], Utf16Char { start: 21, end: 24 });

    // UTF-8 to UTF-16
    assert_eq!(col_index.utf8_to_utf16_col(1, 15), 15);

    assert_eq!(col_index.utf8_to_utf16_col(1, 21), 19);
    assert_eq!(col_index.utf8_to_utf16_col(1, 25), 21);

    assert!(col_index.utf8_to_utf16_col(2, 15) == 15);

    // UTF-16 to UTF-8
    assert_eq!(col_index.utf16_to_utf8_col(1, 15), 15);

    assert_eq!(col_index.utf16_to_utf8_col(1, 18), 20);
    assert_eq!(col_index.utf16_to_utf8_col(1, 19), 23);

    assert_eq!(col_index.utf16_to_utf8_col(2, 15), 15);
}

#[test]
fn test_splitlines() {
    fn r(lo: u32, hi: u32) -> TextRange {
        TextRange { start: lo, end: hi }
    }

    let text = "a\nbb\nccc\n";
    let line_index = index_of(text);

    let actual = line_index.lines(r(0, 9));
    let expected = vec![r(0, 2), r(2, 5), r(5, 9)];
    assert_eq!(actual, expected);

    let text = "";
    let line_index = index_of(text);

    let actual = line_index.lines(r(0, 0));
    let expected: Vec<TextRange> = vec![];
    assert_eq!(actual, expected);

    let text = "\n";
    let line_index = index_of(text);

    let actual = line_index.lines(r(0, 1));
    let expected = vec![r(0, 1)];
    assert_eq!(actual, expected)
}
