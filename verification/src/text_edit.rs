//! Atomic text edits: delete a range, splice in replacement bytes.

use vstd::prelude::*;
use crate::bytes::{clone_bytes, slice_bytes};
use crate::text_range::TextRange;

verus! {

/// One edit: delete `delete` from the original text and put `insert` in its
/// place.  Must not overlap with other edits applied to the same text.
#[derive(Debug, Clone)]
pub struct AtomTextEdit {
    /// Refers to offsets in the original text.
    pub delete: TextRange,
    pub insert: Vec<u8>,
}

impl AtomTextEdit {
    pub fn replace(range: TextRange, replace_with: Vec<u8>) -> (r: AtomTextEdit)
        ensures
            r.delete == range,
            r.insert@ == replace_with@,
    {
        AtomTextEdit { delete: range, insert: replace_with }
    }

    pub fn delete(range: TextRange) -> (r: AtomTextEdit)
        ensures
            r.delete == range,
            r.insert@ == Seq::<u8>::empty(),
    {
        AtomTextEdit::replace(range, Vec::new())
    }

    pub fn insert(offset: u32, text: Vec<u8>) -> (r: AtomTextEdit)
        ensures
            r.delete == (TextRange { start: offset, end: offset }),
            r.insert@ == text@,
    {
        AtomTextEdit::replace(TextRange { start: offset, end: offset }, text)
    }

    /// The text with the deleted range replaced by the insertion.
    pub fn apply(&self, text: Vec<u8>) -> (r: Vec<u8>)
        requires
            self.delete.wf(),
            self.delete.end <= text@.len(),
        ensures
            r@ == text@.subrange(0, self.delete.start as int) + self.insert@ + text@.subrange(
                self.delete.end as int,
                text@.len() as int,
            ),
    {
        let start = self.delete.start as usize;
        let end = self.delete.end as usize;
        let mut out = slice_bytes(&text, 0, start);
        let mut middle = clone_bytes(&self.insert);
        out.append(&mut middle);
        let mut tail = slice_bytes(&text, end, text.len());
        out.append(&mut tail);
        out
    }
}

} // verus!
