//! The document model the highlighter walks: a tree of nodes and tokens,
//! annotated with the name-resolution facts the host has computed.
//!
//! The parser and the name-resolution oracle live outside this library; a
//! `Document` carries their answers as plain values: each name node holds the
//! class it resolved to, each token inside a macro argument holds its
//! expanded counterpart, and a fixture literal holds the parsed tree of its
//! contents.

use vstd::prelude::*;
use crate::kind::SyntaxKind;
use crate::text_range::TextRange;
use crate::tokens::{has_two_quotes, is_first_quote, is_last_quote};

verus! {

/// What the resolver knows of a local binding.
#[derive(Debug, Clone)]
pub struct Local {
    /// The binding's name, when it has one.
    pub name: Option<Vec<u8>>,
    /// Declared `mut`.
    pub is_mut: bool,
    /// Its type is a mutable reference.
    pub is_mut_ref: bool,
}

/// The closed set of entities a name can resolve to.
#[derive(Debug, Clone)]
pub enum Definition {
    Macro,
    StructField,
    Module,
    Function,
    Struct,
    Enum,
    Union,
    EnumVariant,
    Const,
    Static,
    Trait,
    TypeAlias,
    BuiltinType,
    SelfType,
    TypeParam,
    Local(Local),
}

/// The resolver's answer for a name-introducing node.
#[derive(Debug, Clone)]
pub enum NameClass {
    Definition(Definition),
    ConstReference(Definition),
}

/// The resolver's answer for a name-reference node.
#[derive(Debug, Clone)]
pub enum NameRefClass {
    Definition(Definition),
    FieldShorthand,
}

/// Call-signature information around a token: which parameter the token is
/// an argument of, and the formal parameter names.
#[derive(Debug, Clone)]
pub struct CallInfo {
    pub active_parameter: Option<usize>,
    pub parameter_names: Vec<Vec<u8>>,
}

/// One element of the tree: a node or a token, with the oracle's answers
/// attached where the host computed them.
#[derive(Debug)]
pub struct Element {
    pub kind: SyntaxKind,
    pub range: TextRange,
    pub is_token: bool,
    /// A token's raw text; empty for nodes.
    pub text: Vec<u8>,
    pub parent: Option<usize>,
    pub children: Vec<usize>,
    /// For `Name` nodes: how the name classifies.
    pub name_class: Option<NameClass>,
    /// For `NameRef` nodes: what the reference resolves to.
    pub name_ref_class: Option<NameRefClass>,
    /// For tokens inside a macro argument: the expanded counterpart.
    pub expanded_to: Option<usize>,
    /// For tokens: the enclosing call's signature, when there is one.
    pub call_info: Option<CallInfo>,
    /// For raw string literals: the parsed tree of the decoded contents.
    pub injected: Option<Document>,
}

/// A parsed document: an arena of elements, the root's index, and the
/// text's length in bytes.
#[derive(Debug)]
pub struct Document {
    pub elements: Vec<Element>,
    pub root: usize,
    pub text_len: u32,
}

impl Document {
    pub open spec fn len_i(self) -> int {
        self.elements@.len() as int
    }

    pub open spec fn elem(self, i: int) -> Element {
        self.elements@[i]
    }

    /// The whole document's range.
    pub open spec fn extent(self) -> TextRange {
        TextRange { start: 0, end: self.text_len }
    }
}

/// Structural well-formedness of one element: its range is inside the
/// document, children come after it, point back to it and stay inside its
/// range in source order, and a token's text matches its range.
pub open spec fn elem_wf(doc: Document, i: int) -> bool {
    let e = doc.elem(i);
    &&& e.range.wf()
    &&& doc.extent().spec_contains_range(e.range)
    &&& (e.parent matches Some(p) ==> p < i)
    &&& forall|k: int|
        0 <= k < e.children@.len() ==> i < #[trigger] e.children@[k] < doc.len_i()
            && doc.elem(e.children@[k] as int).parent == Some(i as usize)
            && e.range.spec_contains_range(doc.elem(e.children@[k] as int).range)
    &&& forall|k1: int, k2: int|
        0 <= k1 < k2 < e.children@.len() ==> doc.elem(#[trigger] e.children@[k1] as int).range.end
            <= doc.elem(#[trigger] e.children@[k2] as int).range.start
    &&& (e.is_token ==> e.children@.len() == 0 && e.range.spec_len() == e.text@.len())
    &&& (e.expanded_to matches Some(x) ==> 0 <= x < doc.len_i() && doc.elem(x as int).is_token)
}

/// `a` lies on the parent chain of `i`.
pub open spec fn is_strict_ancestor(doc: Document, a: int, i: int) -> bool
    decreases i,
{
    if 0 <= i < doc.len_i() {
        match doc.elem(i).parent {
            None => false,
            Some(p) => p == a || (p < i && is_strict_ancestor(doc, a, p as int)),
        }
    } else {
        false
    }
}

/// The walker tracks one macro invocation at a time: a well-formed document
/// never nests one macro call inside another.
pub open spec fn no_nested_macros(doc: Document) -> bool {
    forall|a: int, i: int|
        0 <= a < doc.len_i() && 0 <= i < doc.len_i() && doc.elem(a).kind == SyntaxKind::MacroCall
            && doc.elem(i).kind == SyntaxKind::MacroCall ==> !is_strict_ancestor(doc, a, i)
}

/// A fixture literal's parsed contents cover exactly the text between the
/// literal's quotes.
pub open spec fn injection_fit(doc: Document, i: int) -> bool {
    let e = doc.elem(i);
    e.injected matches Some(nd) ==> e.is_token && e.kind == SyntaxKind::RawStr
        && (forall|fq: int, lq: int|
        is_first_quote(e.text@, fq) && is_last_quote(e.text@, lq) && fq < lq ==> nd.text_len == lq
            - fq - 1)
}

/// Well-formedness that does not look inside injected documents.
pub open spec fn doc_wf_shallow(doc: Document) -> bool {
    &&& 0 < doc.elements@.len() < u32::MAX
    &&& doc.root < doc.elements@.len()
    &&& forall|i: int| 0 <= i < doc.len_i() ==> elem_wf(doc, i)
    &&& no_nested_macros(doc)
}

/// Well-formedness to a nesting depth: the document itself, and every
/// injected document one level less deep.  A pass run with fuel `d` only
/// relies on well-formedness to depth `d`.
pub open spec fn doc_wf(doc: Document, depth: nat) -> bool
    decreases depth,
{
    &&& doc_wf_shallow(doc)
    &&& forall|i: int|
        0 <= i < doc.len_i() && #[trigger] doc.elem(i).injected is Some ==> depth > 0 && doc_wf(
            doc.elem(i).injected->0,
            (depth - 1) as nat,
        ) && injection_fit(doc, i)
}

/// The macro-expanded counterpart of a token: where the host recorded an
/// expansion, that element; otherwise the token itself.
pub open spec fn spec_descend(doc: Document, i: int) -> int {
    match doc.elem(i).expanded_to {
        Some(x) => x as int,
        None => i,
    }
}

/// Whether an attribute node lies on the parent chain of `i`.
pub open spec fn spec_in_attr(doc: Document, i: int) -> bool
    decreases i,
{
    if 0 <= i < doc.len_i() {
        match doc.elem(i).parent {
            None => false,
            Some(p) => doc.elem(p as int).kind == SyntaxKind::Attr || (p < i && spec_in_attr(
                doc,
                p as int,
            )),
        }
    } else {
        false
    }
}

/// Executable check for an enclosing attribute.
pub fn in_attr(doc: &Document, i: usize) -> (r: bool)
    requires
        doc_wf_shallow(*doc),
        i < doc.elements@.len(),
    ensures
        r == spec_in_attr(*doc, i as int),
    decreases i,
{
    proof {
        assert(elem_wf(*doc, i as int));
    }
    match doc.elements[i].parent {
        None => false,
        Some(p) => {
            if doc.elements[p].kind == SyntaxKind::Attr {
                true
            } else {
                in_attr(doc, p)
            }
        },
    }
}

/// The position in `children` of the first child of the given kind.
pub open spec fn first_pos(doc: Document, children: Seq<usize>, idx: int, kind: SyntaxKind) -> Option<
    int,
>
    decreases children.len() - idx,
{
    if idx < 0 || idx >= children.len() {
        None
    } else if doc.elem(children[idx] as int).kind == kind {
        Some(idx)
    } else {
        first_pos(doc, children, idx + 1, kind)
    }
}

/// The end of the last `!` or identifier among `children[idx..]`, or `cur`
/// when there is none.
pub open spec fn spec_last_end(doc: Document, children: Seq<usize>, idx: int, cur: u32) -> u32
    decreases children.len() - idx,
{
    if idx < 0 || idx >= children.len() {
        cur
    } else {
        let c = children[idx] as int;
        let cur2 = if doc.elem(c).kind == SyntaxKind::Bang || doc.elem(c).kind == SyntaxKind::Ident {
            doc.elem(c).range.end
        } else {
            cur
        };
        spec_last_end(doc, children, idx + 1, cur2)
    }
}

/// The range a macro invocation is highlighted with: from the start of the
/// path's name through the trailing `!` (or identifier), when the call has a
/// well-formed path.
pub open spec fn spec_macro_call_range(doc: Document, i: int) -> Option<TextRange> {
    let mc = doc.elem(i);
    match first_pos(doc, mc.children@, 0, SyntaxKind::Path) {
        None => None,
        Some(ppos) => {
            let p = mc.children@[ppos] as int;
            match first_pos(doc, doc.elem(p).children@, 0, SyntaxKind::PathSegment) {
                None => None,
                Some(spos) => {
                    let s = doc.elem(p).children@[spos] as int;
                    match first_pos(doc, doc.elem(s).children@, 0, SyntaxKind::NameRef) {
                        None => None,
                        Some(npos) => {
                            let n = doc.elem(s).children@[npos] as int;
                            let start = doc.elem(n).range.start;
                            let end = spec_last_end(
                                doc,
                                mc.children@,
                                ppos + 1,
                                doc.elem(n).range.end,
                            );
                            Some(TextRange { start, end })
                        },
                    }
                },
            }
        },
    }
}

proof fn lemma_first_pos_props(doc: Document, children: Seq<usize>, idx: int, kind: SyntaxKind)
    ensures
        first_pos(doc, children, idx, kind) matches Some(p) ==> idx <= p < children.len() && doc.elem(
            children[p] as int,
        ).kind == kind,
    decreases children.len() - idx,
{
    if idx < 0 || idx >= children.len() {
    } else if doc.elem(children[idx] as int).kind == kind {
    } else {
        lemma_first_pos_props(doc, children, idx + 1, kind);
    }
}

proof fn lemma_last_end_props(doc: Document, children: Seq<usize>, idx: int, cur: u32)
    ensures
        spec_last_end(doc, children, idx, cur) == cur || exists|k: int|
            idx <= k < children.len() && spec_last_end(doc, children, idx, cur) == doc.elem(
                #[trigger] children[k] as int,
            ).range.end,
    decreases children.len() - idx,
{
    if idx < 0 || idx >= children.len() {
    } else {
        let c = children[idx] as int;
        let cur2 = if doc.elem(c).kind == SyntaxKind::Bang || doc.elem(c).kind
            == SyntaxKind::Ident {
            doc.elem(c).range.end
        } else {
            cur
        };
        lemma_last_end_props(doc, children, idx + 1, cur2);
        if spec_last_end(doc, children, idx, cur) == cur2 && cur2 != cur {
            assert(cur2 == doc.elem(children[idx] as int).range.end);
        }
    }
}

/// A computed macro-call range is a well-formed sub-range of the macro-call
/// node itself.
pub proof fn lemma_macro_call_range_bounded(doc: Document, i: int)
    requires
        doc_wf_shallow(doc),
        0 <= i < doc.len_i(),
    ensures
        spec_macro_call_range(doc, i) matches Some(r) ==> r.wf() && doc.elem(
            i,
        ).range.spec_contains_range(r),
{
    let mc = doc.elem(i);
    lemma_first_pos_props(doc, mc.children@, 0, SyntaxKind::Path);
    let ppos_opt = first_pos(doc, mc.children@, 0, SyntaxKind::Path);
    if ppos_opt is Some {
        let ppos = ppos_opt->0;
        assert(elem_wf(doc, i));
        let p = mc.children@[ppos] as int;
        lemma_first_pos_props(doc, doc.elem(p).children@, 0, SyntaxKind::PathSegment);
        let spos_opt = first_pos(doc, doc.elem(p).children@, 0, SyntaxKind::PathSegment);
        if spos_opt is Some {
            let spos = spos_opt->0;
            assert(elem_wf(doc, p));
            let s = doc.elem(p).children@[spos] as int;
            lemma_first_pos_props(doc, doc.elem(s).children@, 0, SyntaxKind::NameRef);
            let npos_opt = first_pos(doc, doc.elem(s).children@, 0, SyntaxKind::NameRef);
            if npos_opt is Some {
                let npos = npos_opt->0;
                assert(elem_wf(doc, s));
                let n = doc.elem(s).children@[npos] as int;
                assert(elem_wf(doc, n));
                let start = doc.elem(n).range.start;
                let end0 = doc.elem(n).range.end;
                // The name lies inside the path, which lies inside the call.
                assert(doc.elem(p).range.spec_contains_range(doc.elem(s).range));
                assert(doc.elem(s).range.spec_contains_range(doc.elem(n).range));
                assert(mc.range.spec_contains_range(doc.elem(p).range));
                lemma_last_end_props(doc, mc.children@, ppos + 1, end0);
                let end = spec_last_end(doc, mc.children@, ppos + 1, end0);
                if end != end0 {
                    let k = choose|k: int|
                        ppos + 1 <= k < mc.children@.len() && end == doc.elem(
                            #[trigger] mc.children@[k] as int,
                        ).range.end;
                    let c = mc.children@[k] as int;
                    assert(elem_wf(doc, c));
                    // Siblings after the path start no earlier than the path ends.
                    assert(doc.elem(p).range.end <= doc.elem(c).range.start);
                    assert(mc.range.spec_contains_range(doc.elem(c).range));
                }
            }
        }
    }
}

/// Find the first child of the given kind; the executable side of
/// `first_pos`.
fn find_child_pos(doc: &Document, owner: usize, kind: SyntaxKind) -> (r: Option<usize>)
    requires
        doc_wf_shallow(*doc),
        owner < doc.elements@.len(),
    ensures
        r is Some <==> first_pos(*doc, doc.elem(owner as int).children@, 0, kind) is Some,
        r matches Some(p) ==> Some(p as int) == first_pos(
            *doc,
            doc.elem(owner as int).children@,
            0,
            kind,
        ),
{
    let ghost children = doc.elem(owner as int).children@;
    let n = doc.elements[owner].children.len();
    let mut m: usize = 0;
    while m < n
        invariant
            doc_wf_shallow(*doc),
            owner < doc.elements@.len(),
            children == doc.elem(owner as int).children@,
            n == children.len(),
            m <= n,
            first_pos(*doc, children, 0, kind) == first_pos(*doc, children, m as int, kind),
        decreases n - m,
    {
        proof {
            assert(elem_wf(*doc, owner as int));
        }
        let c = doc.elements[owner].children[m];
        if doc.elements[c].kind == kind {
            return Some(m);
        }
        m += 1;
    }
    None
}

/// The highlighted range of a macro invocation: the path's name through the
/// trailing `!`, absent when the call has no name to span.
pub fn macro_call_range(doc: &Document, i: usize) -> (r: Option<TextRange>)
    requires
        doc_wf_shallow(*doc),
        i < doc.elements@.len(),
    ensures
        r == spec_macro_call_range(*doc, i as int),
{
    proof {
        assert(elem_wf(*doc, i as int));
    }
    let ppos = match find_child_pos(doc, i, SyntaxKind::Path) {
        None => {
            return None;
        },
        Some(p) => p,
    };
    proof {
        lemma_first_pos_props(*doc, doc.elem(i as int).children@, 0, SyntaxKind::Path);
    }
    let p = doc.elements[i].children[ppos];
    let spos = match find_child_pos(doc, p, SyntaxKind::PathSegment) {
        None => {
            return None;
        },
        Some(s) => s,
    };
    proof {
        assert(elem_wf(*doc, p as int));
        lemma_first_pos_props(*doc, doc.elem(p as int).children@, 0, SyntaxKind::PathSegment);
    }
    let s = doc.elements[p].children[spos];
    let npos = match find_child_pos(doc, s, SyntaxKind::NameRef) {
        None => {
            return None;
        },
        Some(x) => x,
    };
    proof {
        assert(elem_wf(*doc, s as int));
        lemma_first_pos_props(*doc, doc.elem(s as int).children@, 0, SyntaxKind::NameRef);
    }
    let n = doc.elements[s].children[npos];
    let range_start = doc.elements[n].range.start;
    let mut range_end = doc.elements[n].range.end;
    let ghost children = doc.elem(i as int).children@;
    let cn = doc.elements[i].children.len();
    let mut m: usize = ppos + 1;
    while m < cn
        invariant
            doc_wf_shallow(*doc),
            i < doc.elements@.len(),
            children == doc.elem(i as int).children@,
            cn == children.len(),
            ppos < m <= cn || (ppos + 1 > cn && m == ppos + 1),
            spec_last_end(*doc, children, ppos + 1, doc.elem(n as int).range.end) == spec_last_end(
                *doc,
                children,
                m as int,
                range_end,
            ),
        decreases cn - m,
    {
        proof {
            assert(elem_wf(*doc, i as int));
        }
        let c = doc.elements[i].children[m];
        if doc.elements[c].kind == SyntaxKind::Bang || doc.elements[c].kind == SyntaxKind::Ident {
            range_end = doc.elements[c].range.end;
        }
        m += 1;
    }
    Some(TextRange { start: range_start, end: range_end })
}

} // verus!
