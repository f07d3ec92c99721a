//! The closed set of syntax-element kinds the highlighter distinguishes.

use vstd::prelude::*;

verus! {

/// Kind of a node or token in the document tree.  Only the kinds the
/// highlighter reacts to are distinguished; everything else is `OtherNode`
/// or `OtherToken`.
#[derive(Clone, Copy, PartialEq, Eq, Structural, Debug, Hash)]
pub enum SyntaxKind {
    // Node kinds.
    Name,
    NameRef,
    FnDef,
    MacroCall,
    TokenTree,
    Path,
    PathSegment,
    Attr,
    StructDef,
    EnumDef,
    UnionDef,
    TraitDef,
    TypeAliasDef,
    TypeParam,
    RecordFieldDef,
    LifetimeParam,
    Label,
    OtherNode,
    // Token kinds.
    Ident,
    Bang,
    Comment,
    Whitespace,
    Str,
    RawStr,
    ByteStr,
    RawByteStr,
    IntNumber,
    FloatNumber,
    Byte,
    Char,
    Lifetime,
    KwBreak,
    KwContinue,
    KwElse,
    KwFor,
    KwIf,
    KwLoop,
    KwMatch,
    KwReturn,
    KwWhile,
    KwUnsafe,
    KwOther,
    OtherToken,
}

impl SyntaxKind {
    /// Whether the kind is one of the keyword tokens.
    pub open spec fn spec_is_keyword(self) -> bool {
        match self {
            SyntaxKind::KwBreak
            | SyntaxKind::KwContinue
            | SyntaxKind::KwElse
            | SyntaxKind::KwFor
            | SyntaxKind::KwIf
            | SyntaxKind::KwLoop
            | SyntaxKind::KwMatch
            | SyntaxKind::KwReturn
            | SyntaxKind::KwWhile
            | SyntaxKind::KwUnsafe
            | SyntaxKind::KwOther => true,
            _ => false,
        }
    }

    /// Whether the kind is a keyword governing control flow.
    pub open spec fn spec_is_control_flow_keyword(self) -> bool {
        match self {
            SyntaxKind::KwBreak
            | SyntaxKind::KwContinue
            | SyntaxKind::KwElse
            | SyntaxKind::KwFor
            | SyntaxKind::KwIf
            | SyntaxKind::KwLoop
            | SyntaxKind::KwMatch
            | SyntaxKind::KwReturn
            | SyntaxKind::KwWhile => true,
            _ => false,
        }
    }

    pub fn is_keyword(&self) -> (r: bool)
        ensures
            r == self.spec_is_keyword(),
    {
        match self {
            SyntaxKind::KwBreak
            | SyntaxKind::KwContinue
            | SyntaxKind::KwElse
            | SyntaxKind::KwFor
            | SyntaxKind::KwIf
            | SyntaxKind::KwLoop
            | SyntaxKind::KwMatch
            | SyntaxKind::KwReturn
            | SyntaxKind::KwWhile
            | SyntaxKind::KwUnsafe
            | SyntaxKind::KwOther => true,
            _ => false,
        }
    }
}

} // verus!
