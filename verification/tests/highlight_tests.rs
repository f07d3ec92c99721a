use highlight::highlight::{highlight, HighlightedRange};
use highlight::kind::SyntaxKind;
use highlight::syntax::{
    macro_call_range, CallInfo, Definition, Document, Element, Local, NameClass, NameRefClass,
};
use highlight::tags::HighlightTag;
use highlight::text_range::TextRange;

fn node(kind: SyntaxKind, start: u32, end: u32) -> Element {
    Element {
        kind,
        range: TextRange { start, end },
        is_token: false,
        text: Vec::new(),
        parent: None,
        children: Vec::new(),
        name_class: None,
        name_ref_class: None,
        expanded_to: None,
        call_info: None,
        injected: None,
    }
}

fn token(kind: SyntaxKind, start: u32, text: &str) -> Element {
    let mut e = node(kind, start, start + text.len() as u32);
    e.is_token = true;
    e.text = text.as_bytes().to_vec();
    e
}

fn link(elements: &mut Vec<Element>, parent: usize, child: usize) {
    elements[parent].children.push(child);
    elements[child].parent = Some(parent);
}

fn local_x() -> Definition {
    Definition::Local(Local { name: Some(b"x".to_vec()), is_mut: false, is_mut_ref: false })
}

const GEN1_X: u64 = 763185623728129;
const GEN2_X: u64 = 763185623728130;

#[test]
fn control_flow_keywords_get_the_modifier() {
    let mut elements = vec![node(SyntaxKind::OtherNode, 0, 7), token(SyntaxKind::KwIf, 0, "if")];
    link(&mut elements, 0, 1);
    let doc = Document { elements, root: 0, text_len: 7 };
    let out = highlight(&doc, None, 0);
    assert_eq!(out.len(), 1);
    assert_eq!(out[0].range, TextRange { start: 0, end: 2 });
    assert_eq!(out[0].highlight.tag, HighlightTag::Keyword);
    assert!(out[0].highlight.mods.control_flow);
    assert!(!out[0].highlight.mods.is_unsafe);
    assert_eq!(out[0].binding_hash, None);
}

#[test]
fn only_unsafe_keyword_gets_unsafe() {
    let mut elements = vec![
        node(SyntaxKind::OtherNode, 0, 9),
        token(SyntaxKind::KwUnsafe, 0, "unsafe"),
        token(SyntaxKind::Whitespace, 6, " "),
        token(SyntaxKind::KwOther, 7, "fn"),
    ];
    link(&mut elements, 0, 1);
    link(&mut elements, 0, 2);
    link(&mut elements, 0, 3);
    let doc = Document { elements, root: 0, text_len: 9 };
    let out = highlight(&doc, None, 0);
    assert_eq!(out.len(), 2);
    assert_eq!(out[0].highlight.tag, HighlightTag::Keyword);
    assert!(out[0].highlight.mods.is_unsafe);
    assert!(!out[0].highlight.mods.control_flow);
    assert_eq!(out[1].highlight.tag, HighlightTag::Keyword);
    assert!(!out[1].highlight.mods.is_unsafe);
    assert!(!out[1].highlight.mods.control_flow);
}

#[test]
fn shadowed_bindings_get_distinct_identities() {
    let mut elements = vec![
        node(SyntaxKind::FnDef, 0, 35),
        node(SyntaxKind::Name, 13, 14),
        node(SyntaxKind::Name, 24, 25),
        node(SyntaxKind::NameRef, 31, 32),
    ];
    elements[1].name_class = Some(NameClass::Definition(local_x()));
    elements[2].name_class = Some(NameClass::Definition(local_x()));
    elements[3].name_ref_class = Some(NameRefClass::Definition(local_x()));
    link(&mut elements, 0, 1);
    link(&mut elements, 0, 2);
    link(&mut elements, 0, 3);
    let doc = Document { elements, root: 0, text_len: 35 };
    let out = highlight(&doc, None, 0);
    assert_eq!(out.len(), 3);
    assert_eq!(out[0].binding_hash, Some(GEN1_X));
    assert_eq!(out[1].binding_hash, Some(GEN2_X));
    assert_eq!(out[2].binding_hash, Some(GEN2_X));
    assert_ne!(out[0].binding_hash, out[1].binding_hash);
    assert_eq!(out[0].highlight.tag, HighlightTag::Local);
    assert!(out[0].highlight.mods.definition);
    assert!(!out[2].highlight.mods.definition);
}

#[test]
fn sibling_functions_reset_shadowing() {
    let mut elements = vec![
        node(SyntaxKind::OtherNode, 0, 40),
        node(SyntaxKind::FnDef, 0, 18),
        node(SyntaxKind::Name, 4, 5),
        node(SyntaxKind::FnDef, 20, 38),
        node(SyntaxKind::Name, 24, 25),
    ];
    elements[2].name_class = Some(NameClass::Definition(local_x()));
    elements[4].name_class = Some(NameClass::Definition(local_x()));
    link(&mut elements, 0, 1);
    link(&mut elements, 1, 2);
    link(&mut elements, 0, 3);
    link(&mut elements, 3, 4);
    let doc = Document { elements, root: 0, text_len: 40 };
    let out = highlight(&doc, None, 0);
    assert_eq!(out.len(), 2);
    assert_eq!(out[0].binding_hash, Some(GEN1_X));
    assert_eq!(out[1].binding_hash, Some(GEN1_X));
}

#[test]
fn missed_viewport_yields_nothing() {
    let mut elements = vec![node(SyntaxKind::FnDef, 0, 35), node(SyntaxKind::Name, 13, 14)];
    elements[1].name_class = Some(NameClass::Definition(local_x()));
    link(&mut elements, 0, 1);
    let doc = Document { elements, root: 0, text_len: 40 };
    let out = highlight(&doc, Some(TextRange { start: 36, end: 40 }), 0);
    assert_eq!(out, Vec::<HighlightedRange>::new());
}

#[test]
fn viewport_restricts_the_walk() {
    let mut elements = vec![
        node(SyntaxKind::FnDef, 0, 35),
        node(SyntaxKind::Name, 13, 14),
        node(SyntaxKind::Name, 24, 25),
    ];
    elements[1].name_class = Some(NameClass::Definition(local_x()));
    elements[2].name_class = Some(NameClass::Definition(local_x()));
    link(&mut elements, 0, 1);
    link(&mut elements, 0, 2);
    let doc = Document { elements, root: 0, text_len: 35 };
    let out = highlight(&doc, Some(TextRange { start: 13, end: 15 }), 0);
    assert_eq!(out.len(), 1);
    assert_eq!(out[0].range, TextRange { start: 13, end: 14 });
}

#[test]
fn literal_tokens_keep_their_full_range() {
    let mut elements = vec![
        node(SyntaxKind::OtherNode, 0, 20),
        token(SyntaxKind::Comment, 0, "//abc"),
        token(SyntaxKind::IntNumber, 6, "42"),
        token(SyntaxKind::Str, 9, "\"abc\""),
        node(SyntaxKind::Attr, 15, 20),
    ];
    link(&mut elements, 0, 1);
    link(&mut elements, 0, 2);
    link(&mut elements, 0, 3);
    link(&mut elements, 0, 4);
    let doc = Document { elements, root: 0, text_len: 20 };
    let out = highlight(&doc, None, 0);
    assert_eq!(out.len(), 4);
    assert_eq!(out[0].highlight.tag, HighlightTag::Comment);
    assert_eq!(out[0].range, TextRange { start: 0, end: 5 });
    assert_eq!(out[1].highlight.tag, HighlightTag::NumericLiteral);
    assert_eq!(out[1].range, TextRange { start: 6, end: 8 });
    assert_eq!(out[2].highlight.tag, HighlightTag::StringLiteral);
    assert_eq!(out[2].range, TextRange { start: 9, end: 14 });
    assert_eq!(out[3].highlight.tag, HighlightTag::Attribute);
    assert_eq!(out[3].range, TextRange { start: 15, end: 20 });
}

fn macro_doc() -> Document {
    let mut elements = vec![
        node(SyntaxKind::MacroCall, 0, 9),
        node(SyntaxKind::Path, 0, 3),
        node(SyntaxKind::PathSegment, 0, 3),
        node(SyntaxKind::NameRef, 0, 3),
        token(SyntaxKind::Bang, 3, "!"),
        node(SyntaxKind::TokenTree, 4, 9),
        token(SyntaxKind::Ident, 5, "bar"),
        node(SyntaxKind::Name, 0, 3),
        token(SyntaxKind::Ident, 0, "bar"),
    ];
    elements[7].name_class = Some(NameClass::Definition(Definition::Function));
    link(&mut elements, 0, 1);
    link(&mut elements, 1, 2);
    link(&mut elements, 2, 3);
    link(&mut elements, 0, 4);
    link(&mut elements, 0, 5);
    link(&mut elements, 5, 6);
    link(&mut elements, 7, 8);
    elements[6].expanded_to = Some(8);
    Document { elements, root: 0, text_len: 9 }
}

#[test]
fn macro_call_gets_its_own_range_first() {
    let doc = macro_doc();
    assert_eq!(macro_call_range(&doc, 0), Some(TextRange { start: 0, end: 4 }));
    let out = highlight(&doc, None, 0);
    assert_eq!(out.len(), 2);
    assert_eq!(out[0].highlight.tag, HighlightTag::Macro);
    assert_eq!(out[0].range, TextRange { start: 0, end: 4 });
}

#[test]
fn macro_argument_identifiers_classify_through_expansion() {
    let doc = macro_doc();
    let out = highlight(&doc, None, 0);
    assert_eq!(out.len(), 2);
    assert_eq!(out[1].highlight.tag, HighlightTag::Function);
    assert!(out[1].highlight.mods.definition);
    assert_eq!(out[1].range, TextRange { start: 5, end: 8 });
}

fn fixture_doc(parameter_name: &str) -> Document {
    let nested_elements = {
        let mut es = vec![
            node(SyntaxKind::FnDef, 0, 9),
            token(SyntaxKind::KwOther, 0, "fn"),
            node(SyntaxKind::Name, 3, 4),
            token(SyntaxKind::Ident, 3, "f"),
        ];
        link(&mut es, 0, 1);
        link(&mut es, 0, 2);
        link(&mut es, 2, 3);
        es
    };
    let nested = Document { elements: nested_elements, root: 0, text_len: 9 };
    let mut elements = vec![
        node(SyntaxKind::OtherNode, 0, 22),
        token(SyntaxKind::RawStr, 11, "\"fn f() {}\""),
    ];
    link(&mut elements, 0, 1);
    elements[1].call_info = Some(CallInfo {
        active_parameter: Some(0),
        parameter_names: vec![parameter_name.as_bytes().to_vec()],
    });
    elements[1].injected = Some(nested);
    Document { elements, root: 0, text_len: 22 }
}

#[test]
fn fixture_literals_are_highlighted_recursively() {
    let doc = fixture_doc("ra_fixture");
    let out = highlight(&doc, None, 1);
    assert_eq!(out.len(), 4);
    assert_eq!(out[0].highlight.tag, HighlightTag::StringLiteral);
    assert_eq!(out[0].range, TextRange { start: 11, end: 12 });
    assert_eq!(out[1].highlight.tag, HighlightTag::Keyword);
    assert_eq!(out[1].range, TextRange { start: 12, end: 14 });
    assert_eq!(out[2].highlight.tag, HighlightTag::Function);
    assert!(out[2].highlight.mods.definition);
    assert_eq!(out[2].range, TextRange { start: 15, end: 16 });
    assert_eq!(out[3].highlight.tag, HighlightTag::StringLiteral);
    assert_eq!(out[3].range, TextRange { start: 21, end: 22 });
    // The nested ranges fall strictly inside the literal's contents.
    assert!(12 <= out[1].range.start && out[1].range.end <= 21);
    assert!(12 <= out[2].range.start && out[2].range.end <= 21);
}

#[test]
fn fixture_prefix_suffixes_also_inject() {
    let doc = fixture_doc("ra_fixture_snippet");
    let out = highlight(&doc, None, 1);
    assert_eq!(out.len(), 4);
}

#[test]
fn other_parameter_names_do_not_inject() {
    let doc = fixture_doc("source");
    let out = highlight(&doc, None, 1);
    assert_eq!(out.len(), 1);
    assert_eq!(out[0].highlight.tag, HighlightTag::StringLiteral);
    assert_eq!(out[0].range, TextRange { start: 11, end: 22 });
    assert_eq!(out[0].binding_hash, None);
}

#[test]
fn mutable_locals_get_the_mutable_modifier() {
    let mut elements = vec![node(SyntaxKind::FnDef, 0, 20), node(SyntaxKind::Name, 4, 5)];
    elements[1].name_class = Some(NameClass::Definition(Definition::Local(Local {
        name: Some(b"x".to_vec()),
        is_mut: true,
        is_mut_ref: false,
    })));
    link(&mut elements, 0, 1);
    let doc = Document { elements, root: 0, text_len: 20 };
    let out = highlight(&doc, None, 0);
    assert_eq!(out.len(), 1);
    assert_eq!(out[0].highlight.tag, HighlightTag::Local);
    assert!(out[0].highlight.mods.mutable);
    assert!(out[0].highlight.mods.definition);
}

#[test]
fn references_inside_attributes_are_skipped() {
    let mut elements = vec![
        node(SyntaxKind::OtherNode, 0, 12),
        node(SyntaxKind::Attr, 0, 10),
        node(SyntaxKind::NameRef, 2, 6),
    ];
    elements[2].name_ref_class = Some(NameRefClass::Definition(Definition::Function));
    link(&mut elements, 0, 1);
    link(&mut elements, 1, 2);
    let doc = Document { elements, root: 0, text_len: 12 };
    let out = highlight(&doc, None, 0);
    assert_eq!(out.len(), 1);
    assert_eq!(out[0].highlight.tag, HighlightTag::Attribute);
    assert_eq!(out[0].range, TextRange { start: 0, end: 10 });
}

#[test]
fn field_shorthand_references_are_fields() {
    let mut elements = vec![node(SyntaxKind::OtherNode, 0, 10), node(SyntaxKind::NameRef, 2, 5)];
    elements[1].name_ref_class = Some(NameRefClass::FieldShorthand);
    link(&mut elements, 0, 1);
    let doc = Document { elements, root: 0, text_len: 10 };
    let out = highlight(&doc, None, 0);
    assert_eq!(out.len(), 1);
    assert_eq!(out[0].highlight.tag, HighlightTag::Field);
    assert_eq!(out[0].binding_hash, None);
}

#[test]
fn const_references_drop_the_definition_modifier() {
    let mut elements = vec![node(SyntaxKind::OtherNode, 0, 10), node(SyntaxKind::Name, 2, 5)];
    elements[1].name_class = Some(NameClass::ConstReference(Definition::Const));
    link(&mut elements, 0, 1);
    let doc = Document { elements, root: 0, text_len: 10 };
    let out = highlight(&doc, None, 0);
    assert_eq!(out.len(), 1);
    assert_eq!(out[0].highlight.tag, HighlightTag::Constant);
    assert!(!out[0].highlight.mods.definition);
}

#[test]
fn unresolvable_names_fall_back_to_their_parent() {
    let mut elements = vec![node(SyntaxKind::StructDef, 0, 10), node(SyntaxKind::Name, 2, 5)];
    link(&mut elements, 0, 1);
    let doc = Document { elements, root: 0, text_len: 10 };
    let out = highlight(&doc, None, 0);
    assert_eq!(out.len(), 1);
    assert_eq!(out[0].highlight.tag, HighlightTag::Struct);
    assert!(out[0].highlight.mods.definition);
}

#[test]
fn lifetimes_in_definition_position_get_the_modifier() {
    let mut elements = vec![
        node(SyntaxKind::OtherNode, 0, 12),
        node(SyntaxKind::LifetimeParam, 0, 5),
        token(SyntaxKind::Lifetime, 1, "'a"),
        token(SyntaxKind::Lifetime, 8, "'a"),
    ];
    link(&mut elements, 0, 1);
    link(&mut elements, 1, 2);
    link(&mut elements, 0, 3);
    let doc = Document { elements, root: 0, text_len: 12 };
    let out = highlight(&doc, None, 0);
    assert_eq!(out.len(), 2);
    assert_eq!(out[0].highlight.tag, HighlightTag::Lifetime);
    assert!(out[0].highlight.mods.definition);
    assert_eq!(out[1].highlight.tag, HighlightTag::Lifetime);
    assert!(!out[1].highlight.mods.definition);
}

#[test]
fn macro_calls_without_a_path_get_no_macro_range() {
    let mut elements = vec![
        node(SyntaxKind::MacroCall, 0, 6),
        node(SyntaxKind::TokenTree, 0, 6),
        token(SyntaxKind::IntNumber, 1, "7"),
    ];
    link(&mut elements, 0, 1);
    link(&mut elements, 1, 2);
    let doc = Document { elements, root: 0, text_len: 6 };
    assert_eq!(macro_call_range(&doc, 0), None);
    let out = highlight(&doc, None, 0);
    assert_eq!(out.len(), 1);
    assert_eq!(out[0].highlight.tag, HighlightTag::NumericLiteral);
    assert_eq!(out[0].range, TextRange { start: 1, end: 2 });
}
