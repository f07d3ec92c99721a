use highlight::kind::SyntaxKind;
use highlight::text_edit::AtomTextEdit;
use highlight::text_range::TextRange;
use highlight::tokens::{
    Comment, CommentKind, CommentPlacement, CommentShape, HasQuotes, HasStringValue, QuoteOffsets,
    RawString, StringToken, SyntaxToken, Whitespace,
};

fn token(kind: SyntaxKind, offset: u32, text: &str) -> SyntaxToken {
    SyntaxToken { kind, offset, text: text.as_bytes().to_vec() }
}

#[test]
fn quote_offsets_of_plain_literal() {
    let offsets = QuoteOffsets::new(&b"\"abc\"".to_vec()).unwrap();
    assert_eq!(offsets.open_quote, TextRange { start: 0, end: 1 });
    assert_eq!(offsets.close_quote, TextRange { start: 4, end: 5 });
    assert_eq!(offsets.contents, TextRange { start: 1, end: 4 });
}

#[test]
fn quote_offsets_need_two_quotes() {
    assert!(QuoteOffsets::new(&b"\"abc".to_vec()).is_none());
    assert!(QuoteOffsets::new(&b"abc".to_vec()).is_none());
}

#[test]
fn comment_kinds_by_prefix() {
    let line = Comment::cast(token(SyntaxKind::Comment, 0, "// plain")).unwrap();
    assert_eq!(line.kind(), CommentKind { shape: CommentShape::Line, doc: None });
    assert_eq!(line.prefix(), b"//".to_vec());

    let doc = Comment::cast(token(SyntaxKind::Comment, 0, "/// docs")).unwrap();
    assert_eq!(
        doc.kind(),
        CommentKind { shape: CommentShape::Line, doc: Some(CommentPlacement::Outer) }
    );
    assert_eq!(doc.prefix(), b"///".to_vec());

    let inner = Comment::cast(token(SyntaxKind::Comment, 0, "/*! inner */")).unwrap();
    assert_eq!(
        inner.kind(),
        CommentKind { shape: CommentShape::Block, doc: Some(CommentPlacement::Inner) }
    );
    assert!(inner.kind().shape.is_block());
    assert!(!inner.kind().shape.is_line());
}

#[test]
fn comment_cast_rejects_other_kinds() {
    assert!(Comment::cast(token(SyntaxKind::Whitespace, 0, "  ")).is_none());
}

#[test]
fn whitespace_line_spans() {
    let one = Whitespace::cast(token(SyntaxKind::Whitespace, 0, " \n ")).unwrap();
    assert!(!one.spans_multiple_lines());
    let two = Whitespace::cast(token(SyntaxKind::Whitespace, 0, " \n \n")).unwrap();
    assert!(two.spans_multiple_lines());
    let none = Whitespace::cast(token(SyntaxKind::Whitespace, 0, "   ")).unwrap();
    assert!(!none.spans_multiple_lines());
}

#[test]
fn string_value_decodes_escapes() {
    let lit = StringToken::cast(token(SyntaxKind::Str, 0, "\"a\\nb\"")).unwrap();
    assert_eq!(lit.value(), Some(b"a\nb".to_vec()));
}

#[test]
fn string_value_rejects_bad_escape() {
    let lit = StringToken::cast(token(SyntaxKind::Str, 0, "\"a\\qb\"")).unwrap();
    assert_eq!(lit.value(), None);
}

#[test]
fn raw_string_value_is_verbatim() {
    let lit = RawString::cast(token(SyntaxKind::RawStr, 0, "r\"a\\nb\"")).unwrap();
    assert_eq!(lit.value(), Some(b"a\\nb".to_vec()));
}

#[test]
fn quote_ranges_use_document_offsets() {
    let lit = RawString::cast(token(SyntaxKind::RawStr, 10, "\"abc\"")).unwrap();
    assert_eq!(lit.open_quote_text_range(), Some(TextRange { start: 10, end: 11 }));
    assert_eq!(lit.close_quote_text_range(), Some(TextRange { start: 14, end: 15 }));
    assert_eq!(lit.text_range_between_quotes(), Some(TextRange { start: 11, end: 14 }));
}

#[test]
fn map_range_up_adds_content_start() {
    let lit = RawString::cast(token(SyntaxKind::RawStr, 11, "\"fn f() {}\"")).unwrap();
    assert_eq!(
        lit.map_range_up(TextRange { start: 0, end: 2 }),
        Some(TextRange { start: 12, end: 14 })
    );
}

#[test]
fn text_edit_apply_splices() {
    let edit = AtomTextEdit::replace(TextRange { start: 2, end: 4 }, b"XY".to_vec());
    assert_eq!(edit.apply(b"abcdef".to_vec()), b"abXYef".to_vec());

    let del = AtomTextEdit::delete(TextRange { start: 0, end: 3 });
    assert_eq!(del.apply(b"abcdef".to_vec()), b"def".to_vec());

    let ins = AtomTextEdit::insert(3, b"--".to_vec());
    assert_eq!(ins.apply(b"abcdef".to_vec()), b"abc--def".to_vec());
}
