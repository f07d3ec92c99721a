//! Highlight tags and modifiers: the vocabulary of the output.

use vstd::prelude::*;

verus! {

/// The semantic role assigned to a highlighted element.
#[derive(Clone, Copy, PartialEq, Eq, Structural, Debug)]
pub enum HighlightTag {
    Attribute,
    BuiltinType,
    ByteLiteral,
    CharLiteral,
    Comment,
    Constant,
    Enum,
    EnumVariant,
    Field,
    Function,
    Keyword,
    Lifetime,
    Local,
    Macro,
    Module,
    NumericLiteral,
    SelfType,
    Static,
    StringLiteral,
    Struct,
    Trait,
    TypeAlias,
    TypeParam,
    Union,
}

/// An orthogonal boolean trait of a highlighted element.
#[derive(Clone, Copy, PartialEq, Eq, Structural, Debug)]
pub enum HighlightModifier {
    ControlFlow,
    Definition,
    Mutable,
    Unsafe,
}

/// The set of modifiers attached to a highlight, one flag per modifier.
#[derive(Clone, Copy, PartialEq, Eq, Structural, Debug)]
pub struct HighlightModifiers {
    pub control_flow: bool,
    pub definition: bool,
    pub mutable: bool,
    pub is_unsafe: bool,
}

impl HighlightModifiers {
    /// The empty modifier set.
    pub open spec fn spec_none() -> HighlightModifiers {
        HighlightModifiers { control_flow: false, definition: false, mutable: false, is_unsafe: false }
    }

    /// The set with `m` added.
    pub open spec fn spec_with(self, m: HighlightModifier) -> HighlightModifiers {
        match m {
            HighlightModifier::ControlFlow => HighlightModifiers { control_flow: true, ..self },
            HighlightModifier::Definition => HighlightModifiers { definition: true, ..self },
            HighlightModifier::Mutable => HighlightModifiers { mutable: true, ..self },
            HighlightModifier::Unsafe => HighlightModifiers { is_unsafe: true, ..self },
        }
    }

    /// Whether `m` is in the set.
    pub open spec fn spec_contains(self, m: HighlightModifier) -> bool {
        match m {
            HighlightModifier::ControlFlow => self.control_flow,
            HighlightModifier::Definition => self.definition,
            HighlightModifier::Mutable => self.mutable,
            HighlightModifier::Unsafe => self.is_unsafe,
        }
    }

    pub fn none() -> (r: HighlightModifiers)
        ensures
            r == HighlightModifiers::spec_none(),
    {
        HighlightModifiers { control_flow: false, definition: false, mutable: false, is_unsafe: false }
    }

    pub fn with(self, m: HighlightModifier) -> (r: HighlightModifiers)
        ensures
            r == self.spec_with(m),
    {
        match m {
            HighlightModifier::ControlFlow => HighlightModifiers { control_flow: true, ..self },
            HighlightModifier::Definition => HighlightModifiers { definition: true, ..self },
            HighlightModifier::Mutable => HighlightModifiers { mutable: true, ..self },
            HighlightModifier::Unsafe => HighlightModifiers { is_unsafe: true, ..self },
        }
    }

    pub fn contains(self, m: HighlightModifier) -> (r: bool)
        ensures
            r == self.spec_contains(m),
    {
        match m {
            HighlightModifier::ControlFlow => self.control_flow,
            HighlightModifier::Definition => self.definition,
            HighlightModifier::Mutable => self.mutable,
            HighlightModifier::Unsafe => self.is_unsafe,
        }
    }
}

/// A tag together with its modifier set.
#[derive(Clone, Copy, PartialEq, Eq, Structural, Debug)]
pub struct Highlight {
    pub tag: HighlightTag,
    pub mods: HighlightModifiers,
}

impl Highlight {
    /// A bare highlight: the tag with no modifiers.
    pub open spec fn spec_new(tag: HighlightTag) -> Highlight {
        Highlight { tag, mods: HighlightModifiers::spec_none() }
    }

    /// The same highlight with one more modifier.
    pub open spec fn spec_with(self, m: HighlightModifier) -> Highlight {
        Highlight { tag: self.tag, mods: self.mods.spec_with(m) }
    }

    pub fn new(tag: HighlightTag) -> (r: Highlight)
        ensures
            r == Highlight::spec_new(tag),
    {
        Highlight { tag, mods: HighlightModifiers::none() }
    }

    pub fn with(self, m: HighlightModifier) -> (r: Highlight)
        ensures
            r == self.spec_with(m),
    {
        Highlight { tag: self.tag, mods: self.mods.with(m) }
    }
}

} // verus!
