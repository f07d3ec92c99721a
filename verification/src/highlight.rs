//! The highlighting pass: a single preorder walk of a document that tags
//! every element it recognizes, tracks local-binding shadowing, descends
//! into macro expansions, and recursively highlights embedded fixture
//! source.

use vstd::prelude::*;
use crate::bytes::{is_prefix_of, starts_with};
use crate::kind::SyntaxKind;
use crate::shadow::{binding_hash, spec_binding_hash, lemma_name_hash_bounded, ShadowTracker};
use crate::syntax::{
    doc_wf, doc_wf_shallow, elem_wf, in_attr, injection_fit, lemma_macro_call_range_bounded,
    macro_call_range, spec_descend, spec_in_attr, spec_macro_call_range, Definition, Document,
    NameClass, NameRefClass,
};
use crate::tags::{Highlight, HighlightModifier, HighlightTag};
use crate::text_range::TextRange;
use crate::tokens::{
    has_two_quotes, is_first_quote, is_last_quote, lemma_quote_witnesses, HasQuotes, RawString,
    SyntaxToken,
};

verus! {

/// One tagged range of the output: where, what, and — for local-variable
/// occurrences — which binding it belongs to.
#[derive(Debug, Clone, Copy, PartialEq, Eq, Structural)]
pub struct HighlightedRange {
    pub range: TextRange,
    pub highlight: Highlight,
    pub binding_hash: Option<u64>,
}

/// The generation a shadow map records for a name; 0 when none is recorded.
pub open spec fn map_gen(m: Map<Seq<u8>, u32>, name: Seq<u8>) -> u32 {
    if m.dom().contains(name) {
        m[name]
    } else {
        0
    }
}

/// The generation after one more definition; saturates at the top.
pub open spec fn spec_next_gen(g: u32) -> u32 {
    if g < u32::MAX {
        (g + 1) as u32
    } else {
        g
    }
}

/// The executable tracker records exactly the generations of the model map.
pub open spec fn tracker_matches(t: ShadowTracker, m: Map<Seq<u8>, u32>) -> bool {
    forall|n: Seq<u8>| t.spec_gen(n) == map_gen(m, n)
}

/// The bytes of the fixture parameter-name prefix.
pub open spec fn fixture_prefix() -> Seq<u8> {
    seq![114u8, 97u8, 95u8, 102u8, 105u8, 120u8, 116u8, 117u8, 114u8, 101u8]
}

/// The tag an entity's definition kind maps to, with the mutability
/// modifier for mutable locals.
pub open spec fn spec_highlight_name(def: Definition) -> Highlight {
    match def {
        Definition::Macro => Highlight::spec_new(HighlightTag::Macro),
        Definition::StructField => Highlight::spec_new(HighlightTag::Field),
        Definition::Module => Highlight::spec_new(HighlightTag::Module),
        Definition::Function => Highlight::spec_new(HighlightTag::Function),
        Definition::Struct => Highlight::spec_new(HighlightTag::Struct),
        Definition::Enum => Highlight::spec_new(HighlightTag::Enum),
        Definition::Union => Highlight::spec_new(HighlightTag::Union),
        Definition::EnumVariant => Highlight::spec_new(HighlightTag::EnumVariant),
        Definition::Const => Highlight::spec_new(HighlightTag::Constant),
        Definition::Static => Highlight::spec_new(HighlightTag::Static),
        Definition::Trait => Highlight::spec_new(HighlightTag::Trait),
        Definition::TypeAlias => Highlight::spec_new(HighlightTag::TypeAlias),
        Definition::BuiltinType => Highlight::spec_new(HighlightTag::BuiltinType),
        Definition::SelfType => Highlight::spec_new(HighlightTag::SelfType),
        Definition::TypeParam => Highlight::spec_new(HighlightTag::TypeParam),
        Definition::Local(local) => {
            let h = Highlight::spec_new(HighlightTag::Local);
            if local.is_mut || local.is_mut_ref {
                h.spec_with(HighlightModifier::Mutable)
            } else {
                h
            }
        },
    }
}

/// The fallback tag for an unresolvable name, read off the structural
/// parent of the name node.
pub open spec fn spec_name_by_syntax(doc: Document, i: int) -> Highlight {
    match doc.elem(i).parent {
        None => Highlight::spec_new(HighlightTag::Function),
        Some(p) => match doc.elem(p as int).kind {
            SyntaxKind::StructDef => Highlight::spec_new(HighlightTag::Struct),
            SyntaxKind::EnumDef => Highlight::spec_new(HighlightTag::Enum),
            SyntaxKind::UnionDef => Highlight::spec_new(HighlightTag::Union),
            SyntaxKind::TraitDef => Highlight::spec_new(HighlightTag::Trait),
            SyntaxKind::TypeAliasDef => Highlight::spec_new(HighlightTag::TypeAlias),
            SyntaxKind::TypeParam => Highlight::spec_new(HighlightTag::TypeParam),
            SyntaxKind::RecordFieldDef => Highlight::spec_new(HighlightTag::Field),
            _ => Highlight::spec_new(HighlightTag::Function),
        },
    }
}

/// What classifying element `i` does: the shadow map afterwards, and the
/// highlight (with binding identity) it yields, if any.
pub open spec fn spec_classify(doc: Document, m: Map<Seq<u8>, u32>, i: int) -> (
    Map<Seq<u8>, u32>,
    Option<(Highlight, Option<u64>)>,
) {
    let e = doc.elem(i);
    match e.kind {
        SyntaxKind::FnDef => (Map::empty(), None),
        SyntaxKind::Name => {
            let adv = (e.name_class matches Some(NameClass::Definition(Definition::Local(local)))
                && local.name is Some);
            let m1 = if adv {
                let nm = name_of_class(e.name_class);
                m.insert(nm, spec_next_gen(map_gen(m, nm)))
            } else {
                m
            };
            let bh = if adv {
                let nm = name_of_class(e.name_class);
                Some(spec_binding_hash(nm, spec_next_gen(map_gen(m, nm))) as u64)
            } else {
                None
            };
            match e.name_class {
                Some(NameClass::Definition(def)) => (
                    m1,
                    Some((spec_highlight_name(def).spec_with(HighlightModifier::Definition), bh)),
                ),
                Some(NameClass::ConstReference(def)) => (m1, Some((spec_highlight_name(def), bh))),
                None => (
                    m1,
                    Some(
                        (spec_name_by_syntax(doc, i).spec_with(HighlightModifier::Definition), bh),
                    ),
                ),
            }
        },
        SyntaxKind::NameRef => {
            if spec_in_attr(doc, i) {
                (m, None)
            } else {
                match e.name_ref_class {
                    None => (m, None),
                    Some(NameRefClass::Definition(def)) => {
                        let bh = match def {
                            Definition::Local(local) => match local.name {
                                Some(nm) => Some(
                                    spec_binding_hash(nm@, map_gen(m, nm@)) as u64,
                                ),
                                None => None,
                            },
                            _ => None,
                        };
                        (m, Some((spec_highlight_name(def), bh)))
                    },
                    Some(NameRefClass::FieldShorthand) => (
                        m,
                        Some((Highlight::spec_new(HighlightTag::Field), None)),
                    ),
                }
            }
        },
        SyntaxKind::Comment => (m, Some((Highlight::spec_new(HighlightTag::Comment), None))),
        SyntaxKind::Str | SyntaxKind::RawStr | SyntaxKind::RawByteStr | SyntaxKind::ByteStr => (
            m,
            Some((Highlight::spec_new(HighlightTag::StringLiteral), None)),
        ),
        SyntaxKind::Attr => (m, Some((Highlight::spec_new(HighlightTag::Attribute), None))),
        SyntaxKind::IntNumber | SyntaxKind::FloatNumber => (
            m,
            Some((Highlight::spec_new(HighlightTag::NumericLiteral), None)),
        ),
        SyntaxKind::Byte => (m, Some((Highlight::spec_new(HighlightTag::ByteLiteral), None))),
        SyntaxKind::Char => (m, Some((Highlight::spec_new(HighlightTag::CharLiteral), None))),
        SyntaxKind::Lifetime => {
            let h = Highlight::spec_new(HighlightTag::Lifetime);
            match e.parent {
                Some(p) => if doc.elem(p as int).kind == SyntaxKind::LifetimeParam || doc.elem(
                    p as int,
                ).kind == SyntaxKind::Label {
                    (m, Some((h.spec_with(HighlightModifier::Definition), None)))
                } else {
                    (m, Some((h, None)))
                },
                None => (m, Some((h, None))),
            }
        },
        SyntaxKind::KwBreak | SyntaxKind::KwContinue | SyntaxKind::KwElse | SyntaxKind::KwFor
            | SyntaxKind::KwIf | SyntaxKind::KwLoop | SyntaxKind::KwMatch | SyntaxKind::KwReturn
            | SyntaxKind::KwWhile => (
            m,
            Some(
                (
                    Highlight::spec_new(HighlightTag::Keyword).spec_with(
                        HighlightModifier::ControlFlow,
                    ),
                    None,
                ),
            ),
        ),
        SyntaxKind::KwUnsafe => (
            m,
            Some(
                (
                    Highlight::spec_new(HighlightTag::Keyword).spec_with(HighlightModifier::Unsafe),
                    None,
                ),
            ),
        ),
        SyntaxKind::KwOther => (m, Some((Highlight::spec_new(HighlightTag::Keyword), None))),
        _ => (m, None),
    }
}

/// The name carried by a local-definition name class.
pub open spec fn name_of_class(nc: Option<NameClass>) -> Seq<u8> {
    match nc {
        Some(NameClass::Definition(Definition::Local(local))) => local.name->0@,
        _ => Seq::empty(),
    }
}

/// The element classification targets when the walk is inside a macro: a
/// macro-expanded identifier in name position is classified as its parent
/// name node.
pub open spec fn spec_retarget(doc: Document, x: int) -> int {
    if doc.elem(x).kind == SyntaxKind::Ident {
        match doc.elem(x).parent {
            Some(p) => if doc.elem(p as int).kind == SyntaxKind::Name || doc.elem(p as int).kind
                == SyntaxKind::NameRef {
                p as int
            } else {
                x
            },
            None => x,
        }
    } else {
        x
    }
}

/// Zero or one highlighted range for a classification result.
pub open spec fn spec_emit(res: Option<(Highlight, Option<u64>)>, range: TextRange) -> Seq<
    HighlightedRange,
> {
    match res {
        Some(hb) => seq![
            HighlightedRange { range, highlight: hb.0, binding_hash: hb.1 },
        ],
        None => Seq::empty(),
    }
}

/// The position of a literal text's first quote.
pub open spec fn first_quote_of(s: Seq<u8>) -> int {
    choose|i: int| is_first_quote(s, i)
}

/// The walk of element `i`: the shadow map afterwards and the ranges the
/// subtree contributes, in emission order.
pub open spec fn spec_walk(
    doc: Document,
    vp: TextRange,
    i: int,
    in_macro: bool,
    m: Map<Seq<u8>, u32>,
    fuel: nat,
) -> (Map<Seq<u8>, u32>, Seq<HighlightedRange>)
    decreases fuel, doc.len_i() - i, doc.elem(i).children@.len() + 1,
{
    if !(0 <= i < doc.len_i()) {
        (m, Seq::empty())
    } else {
        let e = doc.elem(i);
        if !vp.spec_intersects(e.range) {
            (m, Seq::empty())
        } else if e.kind == SyntaxKind::MacroCall && !e.is_token {
            let head = match spec_macro_call_range(doc, i) {
                Some(r) => seq![
                    HighlightedRange {
                        range: r,
                        highlight: Highlight::spec_new(HighlightTag::Macro),
                        binding_hash: None,
                    },
                ],
                None => Seq::empty(),
            };
            let mb = spec_walk_children(doc, vp, i, 0, true, m, fuel);
            (mb.0, head + mb.1)
        } else if in_macro {
            if !e.is_token {
                spec_walk_children(doc, vp, i, 0, true, m, fuel)
            } else if e.parent matches Some(p) && doc.elem(p as int).kind == SyntaxKind::TokenTree {
                let x = spec_descend(doc, i);
                if e.kind == SyntaxKind::RawStr && spec_injection(doc, i, x, fuel) is Some {
                    (m, spec_injection(doc, i, x, fuel)->0)
                } else {
                    let mr = spec_classify(doc, m, spec_retarget(doc, x));
                    (mr.0, spec_emit(mr.1, e.range))
                }
            } else {
                (m, Seq::empty())
            }
        } else {
            if e.is_token && e.kind == SyntaxKind::RawStr && spec_injection(doc, i, i, fuel)
                is Some {
                (m, spec_injection(doc, i, i, fuel)->0)
            } else {
                let mr = spec_classify(doc, m, i);
                let head = spec_emit(mr.1, e.range);
                let mb = spec_walk_children(doc, vp, i, 0, false, mr.0, fuel);
                (mb.0, head + mb.1)
            }
        }
    }
}

/// The walk of children `k..` of element `i`, left to right.
pub open spec fn spec_walk_children(
    doc: Document,
    vp: TextRange,
    i: int,
    k: int,
    in_macro: bool,
    m: Map<Seq<u8>, u32>,
    fuel: nat,
) -> (Map<Seq<u8>, u32>, Seq<HighlightedRange>)
    decreases fuel, doc.len_i() - i, doc.elem(i).children@.len() - k,
{
    if !(0 <= i < doc.len_i()) || k < 0 || k >= doc.elem(i).children@.len() {
        (m, Seq::empty())
    } else {
        let c = doc.elem(i).children@[k] as int;
        let first = if i < c < doc.len_i() {
            spec_walk(doc, vp, c, in_macro, m, fuel)
        } else {
            (m, Seq::empty())
        };
        let rest = spec_walk_children(doc, vp, i, k + 1, in_macro, first.0, fuel);
        (rest.0, first.1 + rest.1)
    }
}

/// A successful injection's output: the opening quote, the nested pass's
/// ranges moved into the literal's contents, the closing quote.  Absent when
/// any condition fails: no fuel, no call information, no active parameter,
/// a parameter name without the fixture prefix, an undecodable literal, or
/// no parsed contents.
pub open spec fn spec_injection(doc: Document, i: int, x: int, fuel: nat) -> Option<
    Seq<HighlightedRange>,
>
    decreases fuel, 0int, 0int,
{
    if fuel == 0 || !(0 <= i < doc.len_i()) || !(0 <= x < doc.len_i()) {
        None
    } else {
        let e = doc.elem(i);
        match doc.elem(x).call_info {
            None => None,
            Some(ci) => match ci.active_parameter {
                None => None,
                Some(idx) => if idx >= ci.parameter_names@.len() {
                    None
                } else if !is_prefix_of(fixture_prefix(), ci.parameter_names@[idx as int]@) {
                    None
                } else if !has_two_quotes(e.text@) {
                    None
                } else {
                    match e.injected {
                        None => None,
                        Some(nd) => {
                            let nested = spec_walk(
                                nd,
                                nd.extent(),
                                nd.root as int,
                                false,
                                Map::empty(),
                                (fuel - 1) as nat,
                            ).1;
                            let fq = first_quote_of(e.text@);
                            let cstart = (e.range.start + fq + 1) as u32;
                            let open = HighlightedRange {
                                range: TextRange { start: e.range.start, end: cstart },
                                highlight: Highlight::spec_new(HighlightTag::StringLiteral),
                                binding_hash: None,
                            };
                            let close = HighlightedRange {
                                range: TextRange {
                                    start: (cstart + nd.text_len) as u32,
                                    end: e.range.end,
                                },
                                highlight: Highlight::spec_new(HighlightTag::StringLiteral),
                                binding_hash: None,
                            };
                            Some(
                                seq![open] + nested.map_values(
                                    |h: HighlightedRange| HighlightedRange {
                                        range: h.range.spec_shift(cstart),
                                        highlight: h.highlight,
                                        binding_hash: h.binding_hash,
                                    },
                                ) + seq![close],
                            )
                        },
                    }
                },
            },
        }
    }
}

/// The tag for a resolved entity.
pub fn highlight_name(def: &Definition) -> (r: Highlight)
    ensures
        r == spec_highlight_name(*def),
{
    match def {
        Definition::Macro => Highlight::new(HighlightTag::Macro),
        Definition::StructField => Highlight::new(HighlightTag::Field),
        Definition::Module => Highlight::new(HighlightTag::Module),
        Definition::Function => Highlight::new(HighlightTag::Function),
        Definition::Struct => Highlight::new(HighlightTag::Struct),
        Definition::Enum => Highlight::new(HighlightTag::Enum),
        Definition::Union => Highlight::new(HighlightTag::Union),
        Definition::EnumVariant => Highlight::new(HighlightTag::EnumVariant),
        Definition::Const => Highlight::new(HighlightTag::Constant),
        Definition::Static => Highlight::new(HighlightTag::Static),
        Definition::Trait => Highlight::new(HighlightTag::Trait),
        Definition::TypeAlias => Highlight::new(HighlightTag::TypeAlias),
        Definition::BuiltinType => Highlight::new(HighlightTag::BuiltinType),
        Definition::SelfType => Highlight::new(HighlightTag::SelfType),
        Definition::TypeParam => Highlight::new(HighlightTag::TypeParam),
        Definition::Local(local) => {
            let h = Highlight::new(HighlightTag::Local);
            if local.is_mut || local.is_mut_ref {
                h.with(HighlightModifier::Mutable)
            } else {
                h
            }
        },
    }
}

/// The fallback tag for a name the resolver cannot classify, from its
/// structural parent.
pub fn highlight_name_by_syntax(doc: &Document, i: usize) -> (r: Highlight)
    requires
        doc_wf_shallow(*doc),
        i < doc.elements@.len(),
    ensures
        r == spec_name_by_syntax(*doc, i as int),
{
    proof {
        assert(elem_wf(*doc, i as int));
    }
    match doc.elements[i].parent {
        None => Highlight::new(HighlightTag::Function),
        Some(p) => match doc.elements[p].kind {
            SyntaxKind::StructDef => Highlight::new(HighlightTag::Struct),
            SyntaxKind::EnumDef => Highlight::new(HighlightTag::Enum),
            SyntaxKind::UnionDef => Highlight::new(HighlightTag::Union),
            SyntaxKind::TraitDef => Highlight::new(HighlightTag::Trait),
            SyntaxKind::TypeAliasDef => Highlight::new(HighlightTag::TypeAlias),
            SyntaxKind::TypeParam => Highlight::new(HighlightTag::TypeParam),
            SyntaxKind::RecordFieldDef => Highlight::new(HighlightTag::Field),
            _ => Highlight::new(HighlightTag::Function),
        },
    }
}

/// Classify one element: enter it as the walker would, updating the shadow
/// tracker, and return its highlight (with binding identity), if any.
pub fn highlight_element(
    doc: &Document,
    tracker: &mut ShadowTracker,
    i: usize,
    Ghost(m): Ghost<Map<Seq<u8>, u32>>,
) -> (r: Option<(Highlight, Option<u64>)>)
    requires
        doc_wf_shallow(*doc),
        i < doc.elements@.len(),
        tracker_matches(*old(tracker), m),
    ensures
        tracker_matches(*final(tracker), spec_classify(*doc, m, i as int).0),
        r == spec_classify(*doc, m, i as int).1,
{
    proof {
        assert(elem_wf(*doc, i as int));
    }
    match doc.elements[i].kind {
        SyntaxKind::FnDef => {
            tracker.clear();
            proof {
                assert forall|n: Seq<u8>|
                    final(tracker).spec_gen(n) == map_gen(
                        Map::<Seq<u8>, u32>::empty(),
                        n,
                    ) by {
                    tracker.lemma_empty_gen_zero(n);
                }
            }
            None
        },
        SyntaxKind::Name => {
            let mut bh: Option<u64> = None;
            if let Some(NameClass::Definition(Definition::Local(local))) = &doc.elements[i]
                .name_class {
                if let Some(name) = &local.name {
                    let g = tracker.advance(name);
                    proof {
                        lemma_name_hash_bounded(name@);
                        assert forall|n: Seq<u8>|
                            final(tracker).spec_gen(n) == map_gen(
                                m.insert(name@, spec_next_gen(map_gen(m, name@))),
                                n,
                            ) by {
                            if n != name@ {
                                assert(final(tracker).spec_gen(n) == old(tracker).spec_gen(n));
                            }
                        }
                    }
                    bh = Some(binding_hash(name, g));
                }
            }
            match &doc.elements[i].name_class {
                Some(NameClass::Definition(def)) => Some(
                    (highlight_name(def).with(HighlightModifier::Definition), bh),
                ),
                Some(NameClass::ConstReference(def)) => Some((highlight_name(def), bh)),
                None => Some(
                    (highlight_name_by_syntax(doc, i).with(HighlightModifier::Definition), bh),
                ),
            }
        },
        SyntaxKind::NameRef => {
            if in_attr(doc, i) {
                return None;
            }
            match &doc.elements[i].name_ref_class {
                None => None,
                Some(NameRefClass::Definition(def)) => {
                    let mut bh: Option<u64> = None;
                    if let Definition::Local(local) = def {
                        if let Some(name) = &local.name {
                            let g = tracker.current(name);
                            proof {
                                lemma_name_hash_bounded(name@);
                            }
                            bh = Some(binding_hash(name, g));
                        }
                    }
                    Some((highlight_name(def), bh))
                },
                Some(NameRefClass::FieldShorthand) => Some(
                    (Highlight::new(HighlightTag::Field), None),
                ),
            }
        },
        SyntaxKind::Comment => Some((Highlight::new(HighlightTag::Comment), None)),
        SyntaxKind::Str | SyntaxKind::RawStr | SyntaxKind::RawByteStr | SyntaxKind::ByteStr => Some(
            (Highlight::new(HighlightTag::StringLiteral), None),
        ),
        SyntaxKind::Attr => Some((Highlight::new(HighlightTag::Attribute), None)),
        SyntaxKind::IntNumber | SyntaxKind::FloatNumber => Some(
            (Highlight::new(HighlightTag::NumericLiteral), None),
        ),
        SyntaxKind::Byte => Some((Highlight::new(HighlightTag::ByteLiteral), None)),
        SyntaxKind::Char => Some((Highlight::new(HighlightTag::CharLiteral), None)),
        SyntaxKind::Lifetime => {
            let h = Highlight::new(HighlightTag::Lifetime);
            match doc.elements[i].parent {
                Some(p) => if doc.elements[p].kind == SyntaxKind::LifetimeParam
                    || doc.elements[p].kind == SyntaxKind::Label {
                    Some((h.with(HighlightModifier::Definition), None))
                } else {
                    Some((h, None))
                },
                None => Some((h, None)),
            }
        },
        SyntaxKind::KwBreak | SyntaxKind::KwContinue | SyntaxKind::KwElse | SyntaxKind::KwFor
            | SyntaxKind::KwIf | SyntaxKind::KwLoop | SyntaxKind::KwMatch | SyntaxKind::KwReturn
            | SyntaxKind::KwWhile => Some(
            (Highlight::new(HighlightTag::Keyword).with(HighlightModifier::ControlFlow), None),
        ),
        SyntaxKind::KwUnsafe => Some(
            (Highlight::new(HighlightTag::Keyword).with(HighlightModifier::Unsafe), None),
        ),
        SyntaxKind::KwOther => Some((Highlight::new(HighlightTag::Keyword), None)),
        _ => None,
    }
}

/// The whole pass: the ranges emitted for a document, restricted to the
/// viewport when one is given.
pub open spec fn spec_highlight(
    doc: Document,
    range_to_highlight: Option<TextRange>,
    fuel: nat,
) -> Seq<HighlightedRange> {
    let vp = match range_to_highlight {
        Some(r) => r,
        None => doc.extent(),
    };
    spec_walk(doc, vp, doc.root as int, false, Map::empty(), fuel).1
}

/// Walk one element: skip it when it misses the viewport, track macro
/// context, classify it (or inject), and walk its children.
fn walk_element(
    doc: &Document,
    vp: TextRange,
    i: usize,
    in_macro: bool,
    tracker: &mut ShadowTracker,
    out: &mut Vec<HighlightedRange>,
    Ghost(m): Ghost<Map<Seq<u8>, u32>>,
    fuel: u32,
)
    requires
        doc_wf(*doc, fuel as nat),
        i < doc.elements@.len(),
        tracker_matches(*old(tracker), m),
    ensures
        tracker_matches(
            *final(tracker),
            spec_walk(*doc, vp, i as int, in_macro, m, fuel as nat).0,
        ),
        final(out)@ == old(out)@ + spec_walk(*doc, vp, i as int, in_macro, m, fuel as nat).1,
    decreases fuel as int, doc.elements@.len() - i, doc.elem(i as int).children@.len() + 1,
{
    proof {
        assert(elem_wf(*doc, i as int));
    }
    let er = doc.elements[i].range;
    if vp.intersect(&er).is_none() {
        proof {
            assert(out@ =~= old(out)@ + spec_walk(*doc, vp, i as int, in_macro, m, fuel as nat).1);
        }
        return;
    }
    if doc.elements[i].kind == SyntaxKind::MacroCall && !doc.elements[i].is_token {
        match macro_call_range(doc, i) {
            Some(rg) => {
                out.push(
                    HighlightedRange {
                        range: rg,
                        highlight: Highlight::new(HighlightTag::Macro),
                        binding_hash: None,
                    },
                );
            },
            None => {},
        }
        walk_children(doc, vp, i, 0, true, tracker, out, Ghost(m), fuel);
        proof {
            assert(out@ =~= old(out)@ + spec_walk(*doc, vp, i as int, in_macro, m, fuel as nat).1);
        }
        return;
    }
    if in_macro {
        if !doc.elements[i].is_token {
            walk_children(doc, vp, i, 0, true, tracker, out, Ghost(m), fuel);
            return;
        }
        let parent_is_tt = match doc.elements[i].parent {
            Some(p) => doc.elements[p].kind == SyntaxKind::TokenTree,
            None => false,
        };
        if !parent_is_tt {
            proof {
                assert(out@ =~= old(out)@ + spec_walk(
                    *doc,
                    vp,
                    i as int,
                    in_macro,
                    m,
                    fuel as nat,
                ).1);
            }
            return;
        }
        let x = match doc.elements[i].expanded_to {
            Some(x) => x,
            None => i,
        };
        proof {
            assert(x as int == spec_descend(*doc, i as int));
            assert(x < doc.elements@.len());
            assert(elem_wf(*doc, x as int));
        }
        if doc.elements[i].kind == SyntaxKind::RawStr {
            if highlight_injection(doc, i, x, out, fuel) {
                return;
            }
        }
        let target = if doc.elements[x].kind == SyntaxKind::Ident {
            match doc.elements[x].parent {
                Some(p) => {
                    if doc.elements[p].kind == SyntaxKind::Name || doc.elements[p].kind
                        == SyntaxKind::NameRef {
                        p
                    } else {
                        x
                    }
                },
                None => x,
            }
        } else {
            x
        };
        proof {
            assert(target as int == spec_retarget(*doc, x as int));
            assert(target < doc.elements@.len());
        }
        let res = highlight_element(doc, tracker, target, Ghost(m));
        match res {
            Some((h, bh)) => {
                out.push(HighlightedRange { range: er, highlight: h, binding_hash: bh });
            },
            None => {},
        }
        proof {
            assert(out@ =~= old(out)@ + spec_walk(*doc, vp, i as int, in_macro, m, fuel as nat).1);
        }
        return;
    }
    if doc.elements[i].is_token && doc.elements[i].kind == SyntaxKind::RawStr {
        if highlight_injection(doc, i, i, out, fuel) {
            return;
        }
    }
    let res = highlight_element(doc, tracker, i, Ghost(m));
    match res {
        Some((h, bh)) => {
            out.push(HighlightedRange { range: er, highlight: h, binding_hash: bh });
        },
        None => {},
    }
    let ghost m2 = spec_classify(*doc, m, i as int).0;
    walk_children(doc, vp, i, 0, false, tracker, out, Ghost(m2), fuel);
    proof {
        assert(out@ =~= old(out)@ + spec_walk(*doc, vp, i as int, in_macro, m, fuel as nat).1);
    }
}

/// Walk the children of `i` from position `k` on, left to right.
fn walk_children(
    doc: &Document,
    vp: TextRange,
    i: usize,
    k: usize,
    in_macro: bool,
    tracker: &mut ShadowTracker,
    out: &mut Vec<HighlightedRange>,
    Ghost(m): Ghost<Map<Seq<u8>, u32>>,
    fuel: u32,
)
    requires
        doc_wf(*doc, fuel as nat),
        i < doc.elements@.len(),
        tracker_matches(*old(tracker), m),
    ensures
        tracker_matches(
            *final(tracker),
            spec_walk_children(*doc, vp, i as int, k as int, in_macro, m, fuel as nat).0,
        ),
        final(out)@ == old(out)@ + spec_walk_children(
            *doc,
            vp,
            i as int,
            k as int,
            in_macro,
            m,
            fuel as nat,
        ).1,
    decreases fuel as int, doc.elements@.len() - i, doc.elem(i as int).children@.len() - k,
{
    if k >= doc.elements[i].children.len() {
        proof {
            assert(out@ =~= old(out)@ + spec_walk_children(
                *doc,
                vp,
                i as int,
                k as int,
                in_macro,
                m,
                fuel as nat,
            ).1);
        }
        return;
    }
    proof {
        assert(elem_wf(*doc, i as int));
    }
    let c = doc.elements[i].children[k];
    walk_element(doc, vp, c, in_macro, tracker, out, Ghost(m), fuel);
    let ghost m2 = spec_walk(*doc, vp, c as int, in_macro, m, fuel as nat).0;
    walk_children(doc, vp, i, k + 1, in_macro, tracker, out, Ghost(m2), fuel);
    proof {
        assert(out@ =~= old(out)@ + spec_walk_children(
            *doc,
            vp,
            i as int,
            k as int,
            in_macro,
            m,
            fuel as nat,
        ).1);
    }
}

/// Highlight a document: walk it (restricted to `range_to_highlight` when
/// given) and return every tagged range in emission order.  `fuel` bounds
/// how deeply fixture injections may nest; the pass needs the document to be
/// well-formed to that depth.
pub fn highlight(
    doc: &Document,
    range_to_highlight: Option<TextRange>,
    fuel: u32,
) -> (r: Vec<HighlightedRange>)
    requires
        doc_wf(*doc, fuel as nat),
    ensures
        r@ == spec_highlight(*doc, range_to_highlight, fuel as nat),
    decreases fuel as int, doc.elements@.len() + 1, 0int,
{
    let vp = match range_to_highlight {
        Some(rg) => rg,
        None => TextRange { start: 0, end: doc.text_len },
    };
    let mut tracker = ShadowTracker::new();
    let mut out: Vec<HighlightedRange> = Vec::new();
    proof {
        assert forall|n: Seq<u8>|
            tracker.spec_gen(n) == map_gen(Map::<Seq<u8>, u32>::empty(), n) by {
            tracker.lemma_empty_gen_zero(n);
        }
    }
    let root = doc.root;
    walk_element(doc, vp, root, false, &mut tracker, &mut out, Ghost(Map::empty()), fuel);
    out
}

/// Every range a walk emits is well-formed and lies inside the document.
pub proof fn lemma_walk_bounded(
    doc: Document,
    vp: TextRange,
    i: int,
    in_macro: bool,
    m: Map<Seq<u8>, u32>,
    fuel: nat,
)
    requires
        doc_wf(doc, fuel),
    ensures
        ({
            let out = spec_walk(doc, vp, i, in_macro, m, fuel).1;
            forall|t: int|
                0 <= t < out.len() ==> (#[trigger] out[t]).range.wf()
                    && doc.extent().spec_contains_range(out[t].range)
        }),
    decreases fuel, doc.len_i() - i, doc.elem(i).children@.len() + 1,
{
    if !(0 <= i < doc.len_i()) {
    } else {
        let e = doc.elem(i);
        assert(elem_wf(doc, i));
        if !vp.spec_intersects(e.range) {
        } else if e.kind == SyntaxKind::MacroCall && !e.is_token {
            lemma_macro_call_range_bounded(doc, i);
            lemma_walk_children_bounded(doc, vp, i, 0, true, m, fuel);
        } else if in_macro {
            if !e.is_token {
                lemma_walk_children_bounded(doc, vp, i, 0, true, m, fuel);
            } else if e.parent matches Some(p) && doc.elem(p as int).kind == SyntaxKind::TokenTree {
                let x = spec_descend(doc, i);
                if e.kind == SyntaxKind::RawStr && spec_injection(doc, i, x, fuel) is Some {
                    lemma_injection_bounded(doc, i, x, fuel);
                }
            } else {
            }
        } else {
            if e.is_token && e.kind == SyntaxKind::RawStr && spec_injection(doc, i, i, fuel)
                is Some {
                lemma_injection_bounded(doc, i, i, fuel);
            } else {
                lemma_walk_children_bounded(doc, vp, i, 0, false, spec_classify(doc, m, i).0, fuel);
            }
        }
    }
}

proof fn lemma_walk_children_bounded(
    doc: Document,
    vp: TextRange,
    i: int,
    k: int,
    in_macro: bool,
    m: Map<Seq<u8>, u32>,
    fuel: nat,
)
    requires
        doc_wf(doc, fuel),
    ensures
        ({
            let out = spec_walk_children(doc, vp, i, k, in_macro, m, fuel).1;
            forall|t: int|
                0 <= t < out.len() ==> (#[trigger] out[t]).range.wf()
                    && doc.extent().spec_contains_range(out[t].range)
        }),
    decreases fuel, doc.len_i() - i, doc.elem(i).children@.len() - k,
{
    if !(0 <= i < doc.len_i()) || k < 0 || k >= doc.elem(i).children@.len() {
    } else {
        let c = doc.elem(i).children@[k] as int;
        if i < c < doc.len_i() {
            lemma_walk_bounded(doc, vp, c, in_macro, m, fuel);
        }
        let first = if i < c < doc.len_i() {
            spec_walk(doc, vp, c, in_macro, m, fuel)
        } else {
            (m, Seq::<HighlightedRange>::empty())
        };
        lemma_walk_children_bounded(doc, vp, i, k + 1, in_macro, first.0, fuel);
    }
}

/// Attempt injection for the raw string token `i` whose expanded
/// counterpart is `x`.  On success the fixture's ranges are appended and the
/// literal's own classification is skipped; on failure nothing changes.
fn highlight_injection(
    doc: &Document,
    i: usize,
    x: usize,
    out: &mut Vec<HighlightedRange>,
    fuel: u32,
) -> (r: bool)
    requires
        doc_wf(*doc, fuel as nat),
        i < doc.elements@.len(),
        x < doc.elements@.len(),
        doc.elem(i as int).kind == SyntaxKind::RawStr,
        doc.elem(i as int).is_token,
    ensures
        r == (spec_injection(*doc, i as int, x as int, fuel as nat) is Some),
        r ==> final(out)@ == old(out)@ + spec_injection(*doc, i as int, x as int, fuel as nat)->0,
        !r ==> final(out)@ == old(out)@,
    decreases fuel as int, 0int, 0int,
{
    if fuel == 0 {
        return false;
    }
    let ci = match &doc.elements[x].call_info {
        None => {
            return false;
        },
        Some(ci) => ci,
    };
    let idx = match ci.active_parameter {
        None => {
            return false;
        },
        Some(idx) => idx,
    };
    if idx >= ci.parameter_names.len() {
        return false;
    }
    let prefix: Vec<u8> = vec![114u8, 97u8, 95u8, 102u8, 105u8, 120u8, 116u8, 117u8, 114u8, 101u8];
    proof {
        assert(prefix@ =~= fixture_prefix());
    }
    if !starts_with(&ci.parameter_names[idx], &prefix) {
        return false;
    }
    proof {
        assert(elem_wf(*doc, i as int));
    }
    let text_copy = crate::bytes::clone_bytes(&doc.elements[i].text);
    let tok = SyntaxToken {
        kind: doc.elements[i].kind,
        offset: doc.elements[i].range.start,
        text: text_copy,
    };
    let ghost tok_spec = tok;
    let lit = match RawString::cast(tok) {
        None => {
            proof {
                assert(false);
            }
            return false;
        },
        Some(lit) => lit,
    };
    proof {
        assert(lit.0 == tok_spec);
        assert(tok_spec.text@ == doc.elem(i as int).text@);
        assert(lit.0.offset == doc.elem(i as int).range.start);
        assert(lit.0.text@ == doc.elem(i as int).text@);
        assert(doc.elem(i as int).range.spec_len() == doc.elem(i as int).text@.len());
        assert(doc.extent().spec_contains_range(doc.elem(i as int).range));
        assert(lit.0.wf());
    }
    let open_range = match lit.open_quote_text_range() {
        None => {
            return false;
        },
        Some(rg) => rg,
    };
    let nd = match &doc.elements[i].injected {
        None => {
            return false;
        },
        Some(nd) => nd,
    };
    let ghost spec_out = spec_injection(*doc, i as int, x as int, fuel as nat)->0;
    proof {
        assert(doc.elem(i as int).injected is Some);
        assert(doc_wf(*nd, (fuel - 1) as nat));
        assert(injection_fit(*doc, i as int));
        lemma_quote_witnesses(lit.0.text@);
        let (fq0, lq) = choose|fq0: int, lq: int|
            fq0 < lq && is_first_quote(lit.0.text@, fq0) && is_last_quote(lit.0.text@, lq);
        assert(is_first_quote(lit.0.text@, first_quote_of(lit.0.text@)));
        assert(first_quote_of(lit.0.text@) == fq0);
        assert(nd.text_len == lq - fq0 - 1);
        assert(doc.elem(i as int).range.spec_len() == lit.0.text@.len());
        lemma_walk_bounded(
            *nd,
            nd.extent(),
            nd.root as int,
            false,
            Map::empty(),
            (fuel - 1) as nat,
        );
    }
    let nested = highlight(nd, None, fuel - 1);
    let ghost fq = first_quote_of(lit.0.text@);
    let ghost cstart = (doc.elem(i as int).range.start + fq + 1) as u32;
    out.push(
        HighlightedRange {
            range: open_range,
            highlight: Highlight::new(HighlightTag::StringLiteral),
            binding_hash: None,
        },
    );
    proof {
        assert(open_range == spec_out[0].range);
        assert(out@ =~= old(out)@ + spec_out.take(1));
    }
    let mut t: usize = 0;
    while t < nested.len()
        invariant
            doc_wf(*doc, fuel as nat),
            i < doc.elements@.len(),
            x < doc.elements@.len(),
            fuel >= 1,
            spec_injection(*doc, i as int, x as int, fuel as nat) is Some,
            spec_out == spec_injection(*doc, i as int, x as int, fuel as nat)->0,
            lit.0.text@ == doc.elem(i as int).text@,
            lit.0.offset == doc.elem(i as int).range.start,
            lit.0.wf(),
            doc.elem(i as int).injected is Some,
            nested@ == spec_walk(
                doc.elem(i as int).injected->0,
                doc.elem(i as int).injected->0.extent(),
                doc.elem(i as int).injected->0.root as int,
                false,
                Map::empty(),
                (fuel - 1) as nat,
            ).1,
            forall|u: int|
                0 <= u < nested@.len() ==> (#[trigger] nested@[u]).range.wf() && doc.elem(
                    i as int,
                ).injected->0.extent().spec_contains_range(nested@[u].range),
            spec_out.len() == 2 + nested@.len(),
            fq == first_quote_of(lit.0.text@),
            is_first_quote(lit.0.text@, fq),
            forall|lq: int|
                is_last_quote(lit.0.text@, lq) && fq < lq ==> doc.elem(
                    i as int,
                ).injected->0.text_len == lq - fq - 1,
            cstart == (doc.elem(i as int).range.start + fq + 1) as u32,
            forall|u: int|
                1 <= u < 1 + nested@.len() ==> (#[trigger] spec_out[u]).range == nested@[u
                    - 1].range.spec_shift(cstart) && spec_out[u].highlight == nested@[u
                    - 1].highlight && spec_out[u].binding_hash == nested@[u - 1].binding_hash,
            t <= nested@.len(),
            out@ == old(out)@ + spec_out.take(1 + t as int),
        decreases nested@.len() - t,
    {
        let h = nested[t];
        proof {
            lemma_quote_witnesses(lit.0.text@);
            let (fq0, lq) = choose|fq0: int, lq: int|
                fq0 < lq && is_first_quote(lit.0.text@, fq0) && is_last_quote(lit.0.text@, lq);
            assert(fq0 == fq);
            assert(doc.elem(i as int).injected->0.text_len == lq - fq - 1);
            assert(h.range.end <= lq - fq - 1);
        }
        let mapped = match lit.map_range_up(h.range) {
            None => {
                proof {
                    assert(false);
                }
                h.range
            },
            Some(rg) => rg,
        };
        out.push(
            HighlightedRange { range: mapped, highlight: h.highlight, binding_hash: h.binding_hash },
        );
        proof {
            assert(mapped == spec_out[1 + t as int].range);
            assert(spec_out.take(1 + t as int + 1) =~= spec_out.take(1 + t as int) + seq![
                spec_out[1 + t as int],
            ]);
            assert(out@ =~= old(out)@ + spec_out.take(1 + t as int + 1));
        }
        t += 1;
    }
    let close_range = match lit.close_quote_text_range() {
        None => {
            proof {
                assert(false);
            }
            return false;
        },
        Some(rg) => rg,
    };
    out.push(
        HighlightedRange {
            range: close_range,
            highlight: Highlight::new(HighlightTag::StringLiteral),
            binding_hash: None,
        },
    );
    proof {
        lemma_quote_witnesses(lit.0.text@);
        let (fq0, lq) = choose|fq0: int, lq: int|
            fq0 < lq && is_first_quote(lit.0.text@, fq0) && is_last_quote(lit.0.text@, lq);
        assert(fq0 == fq);
        assert(close_range == spec_out[spec_out.len() - 1].range);
        assert(spec_out.take(spec_out.len() as int) =~= spec_out);
        assert(out@ =~= old(out)@ + spec_out);
    }
    true
}

/// Every control-flow keyword token is classified Keyword with the
/// ControlFlow modifier, and never mutates the shadow state.
pub proof fn lemma_control_flow_keyword(doc: Document, m: Map<Seq<u8>, u32>, i: int)
    requires
        doc.elem(i).kind.spec_is_control_flow_keyword(),
    ensures
        spec_classify(doc, m, i).0 == m,
        spec_classify(doc, m, i).1 matches Some(hb) && hb.0.tag == HighlightTag::Keyword
            && hb.0.mods.control_flow && hb.1 is None,
{
}

/// The `unsafe` keyword is classified Keyword with the Unsafe modifier; no
/// other keyword token carries Unsafe.
pub proof fn lemma_unsafe_keyword(doc: Document, m: Map<Seq<u8>, u32>, i: int)
    requires
        doc.elem(i).kind.spec_is_keyword(),
    ensures
        spec_classify(doc, m, i).1 matches Some(hb) && hb.0.tag == HighlightTag::Keyword,
        doc.elem(i).kind == SyntaxKind::KwUnsafe <==> (spec_classify(doc, m, i).1->0).0.mods.is_unsafe,
{
}

/// Two successive definitions of one local name get distinct binding
/// identities, and a reference classified after the second definition
/// shares the second identity, never the first.
pub proof fn lemma_shadowed_definitions_distinct(
    doc: Document,
    m: Map<Seq<u8>, u32>,
    i: int,
    j: int,
    k: int,
)
    requires
        doc.elem(i).kind == SyntaxKind::Name,
        doc.elem(j).kind == SyntaxKind::Name,
        doc.elem(i).name_class matches Some(NameClass::Definition(Definition::Local(l1)))
            && l1.name is Some,
        doc.elem(j).name_class matches Some(NameClass::Definition(Definition::Local(l2)))
            && l2.name is Some,
        name_of_class(doc.elem(i).name_class) == name_of_class(doc.elem(j).name_class),
        doc.elem(k).kind == SyntaxKind::NameRef,
        !spec_in_attr(doc, k),
        doc.elem(k).name_ref_class matches Some(NameRefClass::Definition(Definition::Local(l3)))
            && l3.name is Some && l3.name->0@ == name_of_class(doc.elem(i).name_class),
        map_gen(m, name_of_class(doc.elem(i).name_class)) < u32::MAX - 1,
    ensures
        ({
            let first = spec_classify(doc, m, i);
            let second = spec_classify(doc, first.0, j);
            let reference = spec_classify(doc, second.0, k);
            &&& (first.1->0).1 is Some
            &&& (second.1->0).1 is Some
            &&& (first.1->0).1 != (second.1->0).1
            &&& (reference.1->0).1 == (second.1->0).1
        }),
{
    let name = name_of_class(doc.elem(i).name_class);
    let g1 = spec_next_gen(map_gen(m, name));
    let m1 = m.insert(name, g1);
    let g2 = spec_next_gen(map_gen(m1, name));
    crate::shadow::lemma_distinct_generations_distinct_identities(name, g1, g2);
    crate::shadow::lemma_name_hash_bounded(name);
}

/// Entering a function definition resets the shadow state: whatever was
/// tracked before, the next definition of any local name is generation one,
/// so equal names defined in sibling functions get equal, first-generation
/// identities.
pub proof fn lemma_function_entry_resets(
    doc: Document,
    ma: Map<Seq<u8>, u32>,
    mb: Map<Seq<u8>, u32>,
    f: int,
    i: int,
)
    requires
        doc.elem(f).kind == SyntaxKind::FnDef,
        doc.elem(i).kind == SyntaxKind::Name,
        doc.elem(i).name_class matches Some(NameClass::Definition(Definition::Local(l)))
            && l.name is Some,
    ensures
        spec_classify(doc, ma, f).0 == Map::<Seq<u8>, u32>::empty(),
        ({
            let after_a = spec_classify(doc, spec_classify(doc, ma, f).0, i);
            let after_b = spec_classify(doc, spec_classify(doc, mb, f).0, i);
            &&& (after_a.1->0).1 == Some(
                spec_binding_hash(name_of_class(doc.elem(i).name_class), 1u32) as u64,
            )
            &&& (after_a.1->0).1 == (after_b.1->0).1
        }),
{
    let name = name_of_class(doc.elem(i).name_class);
    assert(map_gen(Map::<Seq<u8>, u32>::empty(), name) == 0);
}

/// A subtree whose range does not intersect the viewport contributes no
/// ranges and leaves the shadow state alone.
pub proof fn lemma_viewport_miss(
    doc: Document,
    vp: TextRange,
    i: int,
    in_macro: bool,
    m: Map<Seq<u8>, u32>,
    fuel: nat,
)
    requires
        0 <= i < doc.len_i(),
        !vp.spec_intersects(doc.elem(i).range),
    ensures
        spec_walk(doc, vp, i, in_macro, m, fuel).0 == m,
        spec_walk(doc, vp, i, in_macro, m, fuel).1 == Seq::<HighlightedRange>::empty(),
{
}

/// The token kinds whose classification never needs resolution.
pub open spec fn is_plain_literal_kind(k: SyntaxKind) -> bool {
    match k {
        SyntaxKind::Comment | SyntaxKind::Str | SyntaxKind::RawStr | SyntaxKind::ByteStr
            | SyntaxKind::RawByteStr | SyntaxKind::IntNumber | SyntaxKind::FloatNumber
            | SyntaxKind::Byte | SyntaxKind::Char => true,
        _ => false,
    }
}

/// Round trip for plain literal and comment tokens: the one range emitted
/// for such a token (outside macro context, and with no injection taking
/// over for a raw string) is exactly the token's own range.
pub proof fn lemma_token_range_round_trip(
    doc: Document,
    vp: TextRange,
    m: Map<Seq<u8>, u32>,
    fuel: nat,
    i: int,
)
    requires
        doc_wf_shallow(doc),
        0 <= i < doc.len_i(),
        doc.elem(i).is_token,
        is_plain_literal_kind(doc.elem(i).kind),
        vp.spec_intersects(doc.elem(i).range),
        doc.elem(i).kind == SyntaxKind::RawStr ==> spec_injection(doc, i, i, fuel) is None,
    ensures
        ({
            let out = spec_walk(doc, vp, i, false, m, fuel).1;
            &&& out.len() == 1
            &&& out[0].range == doc.elem(i).range
            &&& out[0].binding_hash is None
        }),
{
    assert(elem_wf(doc, i));
    assert(doc.elem(i).children@.len() == 0);
}

proof fn lemma_injection_bounded(doc: Document, i: int, x: int, fuel: nat)
    requires
        doc_wf(doc, fuel),
    ensures
        spec_injection(doc, i, x, fuel) matches Some(out) ==> forall|t: int|
            0 <= t < out.len() ==> (#[trigger] out[t]).range.wf()
                && doc.extent().spec_contains_range(out[t].range),
    decreases fuel, 0int, 0int,
{
    if spec_injection(doc, i, x, fuel) is Some {
        let e = doc.elem(i);
        assert(elem_wf(doc, i));
        let nd = e.injected->0;
        assert(doc_wf(nd, (fuel - 1) as nat));
        assert(injection_fit(doc, i));
        lemma_quote_witnesses(e.text@);
        let (fq0, lq) = choose|fq0: int, lq: int|
            fq0 < lq && is_first_quote(e.text@, fq0) && is_last_quote(e.text@, lq);
        let fq = first_quote_of(e.text@);
        assert(is_first_quote(e.text@, fq));
        assert(fq == fq0);
        assert(nd.text_len == lq - fq - 1);
        lemma_walk_bounded(nd, nd.extent(), nd.root as int, false, Map::empty(), (fuel - 1) as nat);
        let nested = spec_walk(
            nd,
            nd.extent(),
            nd.root as int,
            false,
            Map::empty(),
            (fuel - 1) as nat,
        ).1;
        let cstart = (e.range.start + fq + 1) as u32;
        let out = spec_injection(doc, i, x, fuel)->0;
        assert(e.range.spec_len() == e.text@.len());
        assert forall|t: int|
            0 <= t < out.len() implies (#[trigger] out[t]).range.wf()
            && doc.extent().spec_contains_range(out[t].range) by {
            if 1 <= t < 1 + nested.len() {
                assert(out[t].range == nested[t - 1].range.spec_shift(cstart));
                assert(nested[t - 1].range.wf());
                assert(nd.extent().spec_contains_range(nested[t - 1].range));
            }
        }
    }
}

} // verus!
