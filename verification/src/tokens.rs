//! Token-level primitives: comment classification, whitespace shape, quote
//! boundaries of string literals, and literal values.

use vstd::prelude::*;
use crate::bytes::{is_prefix_of, starts_with, slice_bytes};
use crate::kind::SyntaxKind;
use crate::text_range::TextRange;

verus! {

/// One lexical token: its kind, its start offset in the document, and its
/// raw text.
#[derive(Debug, Clone, PartialEq, Eq, Hash)]
pub struct SyntaxToken {
    pub kind: SyntaxKind,
    pub offset: u32,
    pub text: Vec<u8>,
}

impl SyntaxToken {
    /// The token's end offset stays representable.
    pub open spec fn wf(self) -> bool {
        self.offset + self.text@.len() <= u32::MAX
    }

    pub open spec fn spec_text_range(self) -> TextRange {
        TextRange { start: self.offset, end: (self.offset + self.text@.len()) as u32 }
    }

    pub fn text_range(&self) -> (r: TextRange)
        requires
            self.wf(),
        ensures
            r == self.spec_text_range(),
            r.wf(),
    {
        TextRange { start: self.offset, end: self.offset + self.text.len() as u32 }
    }
}

// ---------------------------------------------------------------------------
// Comments

/// Comment text always starts with `//` or `/*`.
pub open spec fn is_comment_text(s: Seq<u8>) -> bool {
    is_prefix_of(seq![47u8, 47u8], s) || is_prefix_of(seq![47u8, 42u8], s)
}

#[derive(Debug, Clone, PartialEq, Eq, Hash)]
pub struct Comment(pub SyntaxToken);

impl Comment {
    pub fn cast(token: SyntaxToken) -> (r: Option<Comment>)
        ensures
            r is Some <==> token.kind == SyntaxKind::Comment,
            r is Some ==> (r->0).0 == token,
    {
        match token.kind {
            SyntaxKind::Comment => Some(Comment(token)),
            _ => None,
        }
    }

    pub fn syntax(&self) -> (r: &SyntaxToken)
        ensures
            *r == self.0,
    {
        &self.0
    }

    pub fn kind(&self) -> (r: CommentKind)
        requires
            is_comment_text(self.0.text@),
        ensures
            r == spec_kind_by_prefix(self.0.text@),
    {
        kind_by_prefix(&self.0.text)
    }

    pub fn prefix(&self) -> (r: Vec<u8>)
        requires
            is_comment_text(self.0.text@),
        ensures
            r@ == spec_prefix_by_kind(spec_kind_by_prefix(self.0.text@)),
    {
        prefix_by_kind(self.kind())
    }
}

/// Shape and doc-placement of a comment.
#[derive(Debug, PartialEq, Eq, Structural, Clone, Copy)]
pub struct CommentKind {
    pub shape: CommentShape,
    pub doc: Option<CommentPlacement>,
}

#[derive(Debug, PartialEq, Eq, Structural, Clone, Copy)]
pub enum CommentShape {
    Line,
    Block,
}

impl CommentShape {
    pub fn is_line(self) -> (r: bool)
        ensures
            r == (self == CommentShape::Line),
    {
        match self {
            CommentShape::Line => true,
            CommentShape::Block => false,
        }
    }

    pub fn is_block(self) -> (r: bool)
        ensures
            r == (self == CommentShape::Block),
    {
        match self {
            CommentShape::Line => false,
            CommentShape::Block => true,
        }
    }
}

#[derive(Debug, PartialEq, Eq, Structural, Clone, Copy)]
pub enum CommentPlacement {
    Inner,
    Outer,
}

/// The comment kind named by the longest matching prefix, trying doc
/// prefixes before the plain ones.
pub open spec fn spec_kind_by_prefix(s: Seq<u8>) -> CommentKind {
    if is_prefix_of(seq![47u8, 47u8, 47u8], s) {
        CommentKind { shape: CommentShape::Line, doc: Some(CommentPlacement::Outer) }
    } else if is_prefix_of(seq![47u8, 47u8, 33u8], s) {
        CommentKind { shape: CommentShape::Line, doc: Some(CommentPlacement::Inner) }
    } else if is_prefix_of(seq![47u8, 42u8, 42u8], s) {
        CommentKind { shape: CommentShape::Block, doc: Some(CommentPlacement::Outer) }
    } else if is_prefix_of(seq![47u8, 42u8, 33u8], s) {
        CommentKind { shape: CommentShape::Block, doc: Some(CommentPlacement::Inner) }
    } else if is_prefix_of(seq![47u8, 47u8], s) {
        CommentKind { shape: CommentShape::Line, doc: None }
    } else {
        CommentKind { shape: CommentShape::Block, doc: None }
    }
}

/// The prefix that introduces comments of the given kind.
pub open spec fn spec_prefix_by_kind(kind: CommentKind) -> Seq<u8> {
    match (kind.shape, kind.doc) {
        (CommentShape::Line, Some(CommentPlacement::Outer)) => seq![47u8, 47u8, 47u8],
        (CommentShape::Line, Some(CommentPlacement::Inner)) => seq![47u8, 47u8, 33u8],
        (CommentShape::Block, Some(CommentPlacement::Outer)) => seq![47u8, 42u8, 42u8],
        (CommentShape::Block, Some(CommentPlacement::Inner)) => seq![47u8, 42u8, 33u8],
        (CommentShape::Line, None) => seq![47u8, 47u8],
        (CommentShape::Block, None) => seq![47u8, 42u8],
    }
}

pub fn kind_by_prefix(text: &Vec<u8>) -> (r: CommentKind)
    requires
        is_comment_text(text@),
    ensures
        r == spec_kind_by_prefix(text@),
{
    let line_outer: Vec<u8> = vec![47u8, 47u8, 47u8];
    let line_inner: Vec<u8> = vec![47u8, 47u8, 33u8];
    let block_outer: Vec<u8> = vec![47u8, 42u8, 42u8];
    let block_inner: Vec<u8> = vec![47u8, 42u8, 33u8];
    let line_plain: Vec<u8> = vec![47u8, 47u8];
    if starts_with(text, &line_outer) {
        CommentKind { shape: CommentShape::Line, doc: Some(CommentPlacement::Outer) }
    } else if starts_with(text, &line_inner) {
        CommentKind { shape: CommentShape::Line, doc: Some(CommentPlacement::Inner) }
    } else if starts_with(text, &block_outer) {
        CommentKind { shape: CommentShape::Block, doc: Some(CommentPlacement::Outer) }
    } else if starts_with(text, &block_inner) {
        CommentKind { shape: CommentShape::Block, doc: Some(CommentPlacement::Inner) }
    } else if starts_with(text, &line_plain) {
        CommentKind { shape: CommentShape::Line, doc: None }
    } else {
        CommentKind { shape: CommentShape::Block, doc: None }
    }
}

pub fn prefix_by_kind(kind: CommentKind) -> (r: Vec<u8>)
    ensures
        r@ == spec_prefix_by_kind(kind),
{
    match (kind.shape, kind.doc) {
        (CommentShape::Line, Some(CommentPlacement::Outer)) => vec![47u8, 47u8, 47u8],
        (CommentShape::Line, Some(CommentPlacement::Inner)) => vec![47u8, 47u8, 33u8],
        (CommentShape::Block, Some(CommentPlacement::Outer)) => vec![47u8, 42u8, 42u8],
        (CommentShape::Block, Some(CommentPlacement::Inner)) => vec![47u8, 42u8, 33u8],
        (CommentShape::Line, None) => vec![47u8, 47u8],
        (CommentShape::Block, None) => vec![47u8, 42u8],
    }
}

// ---------------------------------------------------------------------------
// Whitespace

/// The text holds at least two newline bytes.
pub open spec fn has_two_newlines(s: Seq<u8>) -> bool {
    exists|i: int, j: int| 0 <= i < j < s.len() && s[i] == 10 && s[j] == 10
}

pub struct Whitespace(pub SyntaxToken);

impl Whitespace {
    pub fn cast(token: SyntaxToken) -> (r: Option<Whitespace>)
        ensures
            r is Some <==> token.kind == SyntaxKind::Whitespace,
            r is Some ==> (r->0).0 == token,
    {
        match token.kind {
            SyntaxKind::Whitespace => Some(Whitespace(token)),
            _ => None,
        }
    }

    pub fn syntax(&self) -> (r: &SyntaxToken)
        ensures
            *r == self.0,
    {
        &self.0
    }

    /// Whether the token's text has a second newline after its first one.
    pub fn spans_multiple_lines(&self) -> (r: bool)
        ensures
            r == has_two_newlines(self.0.text@),
    {
        let text = &self.0.text;
        let mut i: usize = 0;
        while i < text.len()
            invariant
                text@ == self.0.text@,
                i <= text@.len(),
                forall|k: int| 0 <= k < i ==> text@[k] != 10,
            decreases text@.len() - i,
        {
            if text[i] == 10 {
                let mut j: usize = i + 1;
                while j < text.len()
                    invariant
                        text@ == self.0.text@,
                        i < j <= text@.len(),
                        text@[i as int] == 10,
                        forall|k: int| i < k < j ==> text@[k] != 10,
                    decreases text@.len() - j,
                {
                    if text[j] == 10 {
                        proof {
                            assert((i as int) < (j as int) && (j as int) < self.0.text@.len());
                            assert(self.0.text@[i as int] == 10 && self.0.text@[j as int] == 10);
                            assert(has_two_newlines(self.0.text@));
                        }
                        return true;
                    }
                    j += 1;
                }
                proof {
                    assert forall|a: int, b: int| !(0 <= a < b < text@.len() && text@[a] == 10
                        && text@[b] == 10) by {
                        if 0 <= a && a < b && b < text@.len() && text@[a] == 10 && text@[b] == 10 {
                            assert(a >= i);
                            assert(i < b < text@.len());
                            assert(text@[b] != 10);
                        }
                    }
                    assert(!has_two_newlines(self.0.text@));
                }
                return false;
            }
            i += 1;
        }
        false
    }
}

// ---------------------------------------------------------------------------
// Quote offsets

/// The text holds two distinct quote bytes.
pub open spec fn has_two_quotes(s: Seq<u8>) -> bool {
    exists|i: int, j: int| 0 <= i < j < s.len() && s[i] == 34 && s[j] == 34
}

/// `i` is the position of the first quote byte.
pub open spec fn is_first_quote(s: Seq<u8>, i: int) -> bool {
    0 <= i < s.len() && s[i] == 34 && (forall|k: int| 0 <= k < i ==> s[k] != 34)
}

/// `j` is the position of the last quote byte.
pub open spec fn is_last_quote(s: Seq<u8>, j: int) -> bool {
    0 <= j < s.len() && s[j] == 34 && (forall|k: int| j < k < s.len() ==> s[k] != 34)
}

proof fn lemma_first_quote_exists(s: Seq<u8>, k: int)
    requires
        0 <= k < s.len(),
        s[k] == 34,
    ensures
        exists|i: int| is_first_quote(s, i),
    decreases k,
{
    if forall|m: int| 0 <= m < k ==> s[m] != 34 {
        assert(is_first_quote(s, k));
    } else {
        let m = choose|m: int| 0 <= m < k && s[m] == 34;
        lemma_first_quote_exists(s, m);
    }
}

proof fn lemma_last_quote_exists(s: Seq<u8>, k: int)
    requires
        0 <= k < s.len(),
        s[k] == 34,
    ensures
        exists|j: int| is_last_quote(s, j),
    decreases s.len() - k,
{
    if forall|m: int| k < m < s.len() ==> s[m] != 34 {
        assert(is_last_quote(s, k));
    } else {
        let m = choose|m: int| k < m < s.len() && s[m] == 34;
        lemma_last_quote_exists(s, m);
    }
}

/// A text with two quotes has a well-defined first and last quote.
pub proof fn lemma_quote_witnesses(s: Seq<u8>)
    requires
        has_two_quotes(s),
    ensures
        exists|i: int, j: int| i < j && is_first_quote(s, i) && is_last_quote(s, j),
{
    let (a, b) = choose|a: int, b: int| 0 <= a < b < s.len() && s[a] == 34 && s[b] == 34;
    lemma_first_quote_exists(s, a);
    lemma_last_quote_exists(s, b);
    let i = choose|i: int| is_first_quote(s, i);
    let j = choose|j: int| is_last_quote(s, j);
    assert(i <= a);
    assert(b <= j);
    assert(i < j && is_first_quote(s, i) && is_last_quote(s, j));
}

/// The ranges of a quoted literal: everything through the opening quote,
/// the interior contents, and everything from the closing quote on.
#[derive(Debug, Clone, Copy, PartialEq, Eq, Structural)]
pub struct QuoteOffsets {
    pub open_quote: TextRange,
    pub close_quote: TextRange,
    pub contents: TextRange,
}

fn find_first_quote(v: &Vec<u8>) -> (r: Option<usize>)
    ensures
        r is Some <==> exists|i: int| 0 <= i < v@.len() && v@[i] == 34,
        r is Some ==> is_first_quote(v@, r->0 as int),
{
    let mut i: usize = 0;
    while i < v.len()
        invariant
            i <= v@.len(),
            forall|k: int| 0 <= k < i ==> v@[k] != 34,
        decreases v@.len() - i,
    {
        if v[i] == 34 {
            return Some(i);
        }
        i += 1;
    }
    None
}

fn find_last_quote(v: &Vec<u8>) -> (r: Option<usize>)
    ensures
        r is Some <==> exists|i: int| 0 <= i < v@.len() && v@[i] == 34,
        r is Some ==> is_last_quote(v@, r->0 as int),
{
    let mut i: usize = v.len();
    while i > 0
        invariant
            i <= v@.len(),
            forall|k: int| i <= k < v@.len() ==> v@[k] != 34,
        decreases i,
    {
        i -= 1;
        if v[i] == 34 {
            return Some(i);
        }
    }
    None
}

impl QuoteOffsets {
    /// Locate the first and last quote of a literal's text; absent when the
    /// text has fewer than two quotes.
    pub fn new(literal: &Vec<u8>) -> (r: Option<QuoteOffsets>)
        requires
            literal@.len() <= u32::MAX,
        ensures
            r is Some <==> has_two_quotes(literal@),
            r is Some ==> exists|i: int, j: int|
                i < j && is_first_quote(literal@, i) && is_last_quote(literal@, j),
            forall|i: int, j: int|
                is_first_quote(literal@, i) && is_last_quote(literal@, j) && i < j ==> r
                    == Some(
                    QuoteOffsets {
                        open_quote: TextRange { start: 0, end: (i + 1) as u32 },
                        close_quote: TextRange { start: j as u32, end: literal@.len() as u32 },
                        contents: TextRange { start: (i + 1) as u32, end: j as u32 },
                    },
                ),
    {
        let first = find_first_quote(literal);
        let last = find_last_quote(literal);
        match (first, last) {
            (Some(f), Some(l)) => {
                if f == l {
                    proof {
                        assert forall|i: int, j: int|
                            !(0 <= i < j < literal@.len() && literal@[i] == 34 && literal@[j]
                                == 34) by {
                            if 0 <= i < j < literal@.len() && literal@[i] == 34 && literal@[j]
                                == 34 {
                                assert(i != f || j != f);
                            }
                        }
                    }
                    None
                } else {
                    let r = QuoteOffsets {
                        open_quote: TextRange { start: 0, end: (f + 1) as u32 },
                        close_quote: TextRange { start: l as u32, end: literal.len() as u32 },
                        contents: TextRange { start: (f + 1) as u32, end: l as u32 },
                    };
                    proof {
                        assert(f < l);
                        assert(has_two_quotes(literal@));
                        assert forall|i: int, j: int|
                            is_first_quote(literal@, i) && is_last_quote(literal@, j) && i
                                < j implies i == f && j == l by {
                            if i < f {
                                assert(literal@[i] != 34);
                            }
                            if f < i {
                                assert(literal@[f as int] != 34);
                            }
                            if j < l {
                                assert(literal@[l as int] != 34);
                            }
                            if l < j {
                                assert(literal@[j] != 34);
                            }
                        }
                    }
                    Some(r)
                }
            },
            _ => {
                proof {
                    assert(!has_two_quotes(literal@));
                }
                None
            },
        }
    }
}

// ---------------------------------------------------------------------------
// Quoted tokens

/// The decoded value of an escaped string literal's contents: the bytes of
/// the string the escapes describe, absent when an escape is malformed.
pub uninterp spec fn unescaped_str_of(s: Seq<u8>) -> Option<Seq<u8>>;

/// The contents of a quoted literal's text: the bytes strictly between its
/// first and last quote.  Meaningful only when the text has two quotes.
pub open spec fn spec_contents(s: Seq<u8>) -> Seq<u8> {
    let (i, j) = choose|i: int, j: int| i < j && is_first_quote(s, i) && is_last_quote(s, j);
    s.subrange(i + 1, j)
}

/// Relies on rustc_lexer's `unescape_literal` in string mode: decodes the
/// escape sequences of a string literal's contents, reporting malformed
/// escapes through the callback.  Absent on a malformed escape, or when the
/// bytes are not UTF-8.
#[verifier::external_body]
fn unescape_str_bytes(text: &Vec<u8>) -> (r: Option<Vec<u8>>)
    ensures
        r is Some <==> unescaped_str_of(text@) is Some,
        r is Some ==> (r->0)@ == unescaped_str_of(text@)->0,
{
    let s = match std::str::from_utf8(text.as_slice()) {
        Ok(s) => s,
        Err(_) => return None,
    };
    let mut buf = std::string::String::new();
    let mut has_error = false;
    let mut cb = |_range, c: Result<char, rustc_ap_rustc_lexer::unescape::EscapeError>| match c {
        Ok(c) => buf.push(c),
        Err(_) => has_error = true,
    };
    rustc_ap_rustc_lexer::unescape::unescape_literal(s, rustc_ap_rustc_lexer::unescape::Mode::Str, &mut cb);
    if has_error { None } else { Some(buf.into_bytes()) }
}

/// Tokens whose text is a quoted literal.
pub trait HasQuotes: Sized {
    spec fn spec_token(&self) -> SyntaxToken;

    fn token(&self) -> (r: &SyntaxToken)
        ensures
            *r == self.spec_token(),
    ;

    /// The quote and content ranges, in document coordinates.
    fn quote_offsets(&self) -> (r: Option<QuoteOffsets>)
        requires
            self.spec_token().wf(),
        ensures
            r is Some <==> has_two_quotes(self.spec_token().text@),
            forall|i: int, j: int|
                is_first_quote(self.spec_token().text@, i) && is_last_quote(
                    self.spec_token().text@,
                    j,
                ) && i < j ==> r == Some(
                    QuoteOffsets {
                        open_quote: TextRange {
                            start: self.spec_token().offset,
                            end: (self.spec_token().offset + i + 1) as u32,
                        },
                        close_quote: TextRange {
                            start: (self.spec_token().offset + j) as u32,
                            end: (self.spec_token().offset + self.spec_token().text@.len()) as u32,
                        },
                        contents: TextRange {
                            start: (self.spec_token().offset + i + 1) as u32,
                            end: (self.spec_token().offset + j) as u32,
                        },
                    },
                ),
    {
        let t = self.token();
        let offsets = QuoteOffsets::new(&t.text);
        match offsets {
            None => None,
            Some(o) => {
                let r = QuoteOffsets {
                    open_quote: o.open_quote.shift(t.offset),
                    close_quote: o.close_quote.shift(t.offset),
                    contents: o.contents.shift(t.offset),
                };
                Some(r)
            },
        }
    }

    fn open_quote_text_range(&self) -> (r: Option<TextRange>)
        requires
            self.spec_token().wf(),
        ensures
            r is Some <==> has_two_quotes(self.spec_token().text@),
            forall|i: int, j: int|
                is_first_quote(self.spec_token().text@, i) && is_last_quote(
                    self.spec_token().text@,
                    j,
                ) && i < j ==> r == Some(
                    TextRange {
                        start: self.spec_token().offset,
                        end: (self.spec_token().offset + i + 1) as u32,
                    },
                ),
    {
        match self.quote_offsets() {
            None => None,
            Some(o) => Some(o.open_quote),
        }
    }

    fn close_quote_text_range(&self) -> (r: Option<TextRange>)
        requires
            self.spec_token().wf(),
        ensures
            r is Some <==> has_two_quotes(self.spec_token().text@),
            forall|i: int, j: int|
                is_first_quote(self.spec_token().text@, i) && is_last_quote(
                    self.spec_token().text@,
                    j,
                ) && i < j ==> r == Some(
                    TextRange {
                        start: (self.spec_token().offset + j) as u32,
                        end: (self.spec_token().offset + self.spec_token().text@.len()) as u32,
                    },
                ),
    {
        match self.quote_offsets() {
            None => None,
            Some(o) => Some(o.close_quote),
        }
    }

    fn text_range_between_quotes(&self) -> (r: Option<TextRange>)
        requires
            self.spec_token().wf(),
        ensures
            r is Some <==> has_two_quotes(self.spec_token().text@),
            forall|i: int, j: int|
                is_first_quote(self.spec_token().text@, i) && is_last_quote(
                    self.spec_token().text@,
                    j,
                ) && i < j ==> r == Some(
                    TextRange {
                        start: (self.spec_token().offset + i + 1) as u32,
                        end: (self.spec_token().offset + j) as u32,
                    },
                ),
    {
        match self.quote_offsets() {
            None => None,
            Some(o) => Some(o.contents),
        }
    }
}

/// Tokens that decode to a string value.
pub trait HasStringValue: HasQuotes {
    /// The decoded value of the literal, absent when it cannot be decoded.
    fn value(&self) -> (r: Option<Vec<u8>>)
        requires
            self.spec_token().wf(),
    ;
}

/// An escaped string literal token.
#[derive(Debug, Clone, PartialEq, Eq, Hash)]
pub struct StringToken(pub SyntaxToken);

impl StringToken {
    pub fn cast(token: SyntaxToken) -> (r: Option<StringToken>)
        ensures
            r is Some <==> token.kind == SyntaxKind::Str,
            r is Some ==> (r->0).0 == token,
    {
        match token.kind {
            SyntaxKind::Str => Some(StringToken(token)),
            _ => None,
        }
    }

    pub fn syntax(&self) -> (r: &SyntaxToken)
        ensures
            *r == self.0,
    {
        &self.0
    }
}

impl HasQuotes for StringToken {
    open spec fn spec_token(&self) -> SyntaxToken {
        self.0
    }

    fn token(&self) -> (r: &SyntaxToken) {
        &self.0
    }
}

impl HasStringValue for StringToken {
    fn value(&self) -> (r: Option<Vec<u8>>)
        ensures
            r is Some <==> has_two_quotes(self.0.text@) && unescaped_str_of(
                spec_contents(self.0.text@),
            ) is Some,
            r is Some ==> (r->0)@ == unescaped_str_of(spec_contents(self.0.text@))->0,
    {
        match self.text_range_between_quotes() {
            None => None,
            Some(contents) => {
                proof {
                    lemma_quote_witnesses(self.0.text@);
                    let (i, j) = choose|i: int, j: int|
                        i < j && is_first_quote(self.0.text@, i) && is_last_quote(self.0.text@, j);
                    assert(contents == (TextRange {
                        start: (self.0.offset + i + 1) as u32,
                        end: (self.0.offset + j) as u32,
                    }));
                    assert(spec_contents(self.0.text@) == self.0.text@.subrange(i + 1, j));
                }
                let lo = (contents.start - self.0.offset) as usize;
                let hi = (contents.end - self.0.offset) as usize;
                let inner = slice_bytes(&self.0.text, lo, hi);
                unescape_str_bytes(&inner)
            },
        }
    }
}

/// A raw string literal token: its value is the text between the quotes,
/// verbatim.
#[derive(Debug, Clone, PartialEq, Eq, Hash)]
pub struct RawString(pub SyntaxToken);

impl RawString {
    pub fn cast(token: SyntaxToken) -> (r: Option<RawString>)
        ensures
            r is Some <==> token.kind == SyntaxKind::RawStr,
            r is Some ==> (r->0).0 == token,
    {
        match token.kind {
            SyntaxKind::RawStr => Some(RawString(token)),
            _ => None,
        }
    }

    pub fn syntax(&self) -> (r: &SyntaxToken)
        ensures
            *r == self.0,
    {
        &self.0
    }

    /// Translate a range of the decoded contents into document coordinates.
    /// The nested range must fit inside the contents.
    pub fn map_range_up(&self, range: TextRange) -> (r: Option<TextRange>)
        requires
            self.0.wf(),
            range.wf(),
            forall|i: int, j: int|
                is_first_quote(self.0.text@, i) && is_last_quote(self.0.text@, j) && i < j
                    ==> range.end <= j - i - 1,
        ensures
            r is Some <==> has_two_quotes(self.0.text@),
            forall|i: int, j: int|
                is_first_quote(self.0.text@, i) && is_last_quote(self.0.text@, j) && i < j ==> r
                    == Some(range.spec_shift((self.0.offset + i + 1) as u32)),
    {
        match self.text_range_between_quotes() {
            None => None,
            Some(contents) => {
                proof {
                    lemma_quote_witnesses(self.0.text@);
                    let (i, j) = choose|i: int, j: int|
                        i < j && is_first_quote(self.0.text@, i) && is_last_quote(self.0.text@, j);
                    assert(contents == (TextRange {
                        start: (self.0.offset + i + 1) as u32,
                        end: (self.0.offset + j) as u32,
                    }));
                    assert(range.end <= j - i - 1);
                }
                Some(range.shift(contents.start))
            },
        }
    }
}

impl HasQuotes for RawString {
    open spec fn spec_token(&self) -> SyntaxToken {
        self.0
    }

    fn token(&self) -> (r: &SyntaxToken) {
        &self.0
    }
}

impl HasStringValue for RawString {
    fn value(&self) -> (r: Option<Vec<u8>>)
        ensures
            r is Some <==> has_two_quotes(self.0.text@),
            forall|i: int, j: int|
                is_first_quote(self.0.text@, i) && is_last_quote(self.0.text@, j) && i < j ==> (r
                    matches Some(v) && v@ == self.0.text@.subrange(i + 1, j)),
    {
        match self.text_range_between_quotes() {
            None => None,
            Some(contents) => {
                proof {
                    lemma_quote_witnesses(self.0.text@);
                    let (i, j) = choose|i: int, j: int|
                        i < j && is_first_quote(self.0.text@, i) && is_last_quote(self.0.text@, j);
                    assert(contents == (TextRange {
                        start: (self.0.offset + i + 1) as u32,
                        end: (self.0.offset + j) as u32,
                    }));
                }
                let lo = (contents.start - self.0.offset) as usize;
                let hi = (contents.end - self.0.offset) as usize;
                Some(slice_bytes(&self.0.text, lo, hi))
            },
        }
    }
}

} // verus!
