//! `LineIndex` maps flat byte offsets into (line, UTF-16 column) pairs.

use vstd::prelude::*;
use crate::text_range::TextRange;

verus! {

/// A character wider than one byte, recorded by the columns it occupies in
/// its line.
#[derive(Clone, Debug, Hash, PartialEq, Eq)]
pub struct Utf16Char {
    pub start: u32,
    pub end: u32,
}

impl Utf16Char {
    /// The character's width in bytes.
    pub fn len(&self) -> (r: u32)
        requires
            self.start <= self.end,
        ensures
            r == self.end - self.start,
    {
        self.end - self.start
    }
}

/// The byte length of the character that starts with this byte (1 for a
/// byte that cannot start a character).
pub open spec fn utf8_len(b: u8) -> int {
    if b < 0xC0 {
        1
    } else if b < 0xE0 {
        2
    } else if b < 0xF0 {
        3
    } else {
        4
    }
}

fn utf8_len_exec(b: u8) -> (r: usize)
    ensures
        r == utf8_len(b),
{
    if b < 0xC0 {
        1
    } else if b < 0xE0 {
        2
    } else if b < 0xF0 {
        3
    } else {
        4
    }
}

/// The line starts after position `i` and the wide-character tables of the
/// lines from the current position on, given the state in the middle of a
/// scan: current column, line number, and the wide characters seen so far
/// in the current line.
pub open spec fn spec_build(
    text: Seq<u8>,
    i: int,
    col: u32,
    line: u32,
    chars: Seq<Utf16Char>,
) -> (Seq<u32>, Seq<(u32, Seq<Utf16Char>)>)
    decreases text.len() - i,
{
    if i < 0 || i >= text.len() {
        (Seq::empty(), if chars.len() > 0 {
            seq![(line, chars)]
        } else {
            Seq::empty()
        })
    } else if text[i] == 10 {
        let r = spec_build(text, i + 1, 0, (line + 1) as u32, Seq::empty());
        (
            seq![((i + 1) as u32)] + r.0,
            if chars.len() > 0 {
                seq![(line, chars)] + r.1
            } else {
                r.1
            },
        )
    } else {
        let l = if i + utf8_len(text[i]) <= text.len() {
            utf8_len(text[i])
        } else {
            text.len() - i
        };
        let chars2 = if l > 1 {
            chars.push(Utf16Char { start: col, end: (col + l) as u32 })
        } else {
            chars
        };
        spec_build(text, i + l, (col + l) as u32, line, chars2)
    }
}

/// The view of the per-line tables: each entry's character list as a
/// sequence.
pub open spec fn utf16_view(v: Seq<(u32, Vec<Utf16Char>)>) -> Seq<(u32, Seq<Utf16Char>)> {
    v.map_values(|p: (u32, Vec<Utf16Char>)| (p.0, p.1@))
}

/// Strictly ascending offsets.
pub open spec fn sorted_strict(s: Seq<u32>) -> bool {
    forall|a: int, b: int| 0 <= a < b < s.len() ==> s[a] < s[b]
}

/// A line's wide characters: each occupies at least two columns, in order
/// and without overlap.
pub open spec fn chars_wf(chars: Seq<Utf16Char>) -> bool {
    &&& forall|a: int| 0 <= a < chars.len() ==> (#[trigger] chars[a]).start < chars[a].end
    &&& forall|a: int, b: int|
        0 <= a < b < chars.len() ==> (#[trigger] chars[a]).end <= (#[trigger] chars[b]).start
}

/// Maps byte offsets to lines and UTF-16 columns: the offset at which each
/// line starts, and, for lines that have them, the characters wider than
/// one byte.
#[derive(Clone, Debug, PartialEq, Eq)]
pub struct LineIndex {
    pub newlines: Vec<u32>,
    pub utf16_lines: Vec<(u32, Vec<Utf16Char>)>,
}

/// The invariant the constructor establishes and the accessors rely on.
pub open spec fn line_index_wf(li: LineIndex) -> bool {
    &&& li.newlines@.len() >= 1
    &&& li.newlines@.len() <= u32::MAX
    &&& li.newlines@[0] == 0
    &&& sorted_strict(li.newlines@)
    &&& forall|t: int|
        0 <= t < li.utf16_lines@.len() ==> chars_wf((#[trigger] li.utf16_lines@[t]).1@)
}

/// The wide-character table of one line; empty when the line has none.
pub open spec fn spec_chars_for(s: Seq<(u32, Vec<Utf16Char>)>, line: u32) -> Seq<Utf16Char>
    decreases s.len(),
{
    if s.len() == 0 {
        Seq::empty()
    } else if s[0].0 == line {
        s[0].1@
    } else {
        spec_chars_for(s.drop_first(), line)
    }
}

/// The UTF-16 column for a byte column: each wide character that ends at or
/// before the byte column shrinks it by its width less one.
pub open spec fn spec_correction(chars: Seq<Utf16Char>, col: u32) -> int
    decreases chars.len(),
{
    if chars.len() == 0 {
        0
    } else if col >= chars[0].end {
        (chars[0].end - chars[0].start - 1) + spec_correction(chars.drop_first(), col)
    } else {
        0
    }
}

/// The byte column for a UTF-16 column: each wide character that starts at
/// or before the running column widens it by its width less one.
pub open spec fn spec_wide_col(chars: Seq<Utf16Char>, col: int) -> int
    decreases chars.len(),
{
    if chars.len() == 0 {
        col
    } else if col >= chars[0].start {
        spec_wide_col(chars.drop_first(), col + (chars[0].end - chars[0].start - 1))
    } else {
        col
    }
}

/// The correction never exceeds the byte column it is subtracted from.
pub proof fn lemma_correction_bound(chars: Seq<Utf16Char>, col: u32)
    requires
        chars_wf(chars),
    ensures
        0 <= spec_correction(chars, col),
        spec_correction(chars, col) <= col,
        chars.len() > 0 && col >= chars[0].end ==> spec_correction(chars, col) <= col
            - chars[0].start,
    decreases chars.len(),
{
    if chars.len() == 0 {
    } else if col >= chars[0].end {
        let tail = chars.drop_first();
        assert(chars_wf(tail)) by {
            assert forall|a: int| 0 <= a < tail.len() implies (#[trigger] tail[a]).start
                < tail[a].end by {
                assert(tail[a] == chars[a + 1]);
            }
            assert forall|a: int, b: int| 0 <= a < b < tail.len() implies (#[trigger] tail[a]).end
                <= (#[trigger] tail[b]).start by {
                assert(tail[a] == chars[a + 1]);
                assert(tail[b] == chars[b + 1]);
            }
        }
        lemma_correction_bound(tail, col);
        if tail.len() > 0 && col >= tail[0].end {
            assert(tail[0] == chars[1]);
            assert(chars[0].end <= chars[1].start);
        }
    } else {
    }
}

/// The widening never shrinks the column.
pub proof fn lemma_wide_col_monotone(chars: Seq<Utf16Char>, col: int)
    requires
        chars_wf(chars),
    ensures
        spec_wide_col(chars, col) >= col,
    decreases chars.len(),
{
    if chars.len() == 0 {
    } else if col >= chars[0].start {
        let tail = chars.drop_first();
        assert(chars_wf(tail)) by {
            assert forall|a: int| 0 <= a < tail.len() implies (#[trigger] tail[a]).start
                < tail[a].end by {
                assert(tail[a] == chars[a + 1]);
            }
            assert forall|a: int, b: int| 0 <= a < b < tail.len() implies (#[trigger] tail[a]).end
                <= (#[trigger] tail[b]).start by {
                assert(tail[a] == chars[a + 1]);
                assert(tail[b] == chars[b + 1]);
            }
        }
        lemma_wide_col_monotone(tail, col + (chars[0].end - chars[0].start - 1));
    } else {
    }
}

impl LineIndex {
    /// Scan the text once: record where each line starts and which
    /// characters are wider than one byte.
    pub fn new(text: &Vec<u8>) -> (r: LineIndex)
        requires
            text@.len() < u32::MAX,
        ensures
            line_index_wf(r),
            r.newlines@ == seq![0u32] + spec_build(text@, 0, 0, 0, Seq::empty()).0,
            utf16_view(r.utf16_lines@) == spec_build(text@, 0, 0, 0, Seq::empty()).1,
    {
        let mut newlines: Vec<u32> = Vec::new();
        newlines.push(0);
        let mut utf16_lines: Vec<(u32, Vec<Utf16Char>)> = Vec::new();
        let mut utf16_chars: Vec<Utf16Char> = Vec::new();
        let mut i: usize = 0;
        let mut col: u32 = 0;
        let mut line: u32 = 0;
        proof {
            assert(newlines@ =~= seq![0u32]);
            assert(utf16_view(utf16_lines@) =~= Seq::<(u32, Seq<Utf16Char>)>::empty());
        }
        while i < text.len()
            invariant
                text@.len() < u32::MAX,
                i <= text@.len(),
                col <= i,
                line <= i,
                seq![0u32] + spec_build(text@, 0, 0, 0, Seq::empty()).0 == newlines@ + spec_build(
                    text@,
                    i as int,
                    col,
                    line,
                    utf16_chars@,
                ).0,
                spec_build(text@, 0, 0, 0, Seq::empty()).1 == utf16_view(utf16_lines@)
                    + spec_build(text@, i as int, col, line, utf16_chars@).1,
                newlines@.len() >= 1,
                newlines@.len() <= i + 1,
                newlines@[0] == 0,
                sorted_strict(newlines@),
                forall|t: int| 0 <= t < newlines@.len() ==> newlines@[t] <= i,
                chars_wf(utf16_chars@),
                forall|a: int| 0 <= a < utf16_chars@.len() ==> (#[trigger] utf16_chars@[a]).end
                    <= col,
                forall|t: int|
                    0 <= t < utf16_lines@.len() ==> chars_wf((#[trigger] utf16_lines@[t]).1@),
            decreases text@.len() - i,
        {
            let ghost nl0 = newlines@;
            let ghost ul0 = utf16_lines@;
            let ghost chars0 = utf16_chars@;
            let ghost i0 = i as int;
            let ghost col0 = col;
            let ghost line0 = line;
            let b = text[i];
            if b == 10 {
                newlines.push(i as u32 + 1);
                if utf16_chars.len() > 0 {
                    let chars_done = utf16_chars;
                    utf16_chars = Vec::new();
                    utf16_lines.push((line, chars_done));
                }
                col = 0;
                line = line + 1;
                i = i + 1;
                proof {
                    let rest = spec_build(text@, i0 + 1, 0, (line0 + 1) as u32, Seq::empty());
                    assert(spec_build(text@, i0, col0, line0, chars0).0 == seq![((i0 + 1) as u32)]
                        + rest.0);
                    assert(newlines@ =~= nl0 + seq![((i0 + 1) as u32)]);
                    assert(nl0 + (seq![((i0 + 1) as u32)] + rest.0) =~= (nl0 + seq![
                        ((i0 + 1) as u32),
                    ]) + rest.0);
                    if chars0.len() > 0 {
                        assert(utf16_view(utf16_lines@) =~= utf16_view(ul0) + seq![
                            ((line0, chars0)),
                        ]);
                        assert(utf16_view(ul0) + (seq![((line0, chars0))] + rest.1) =~= (utf16_view(
                            ul0,
                        ) + seq![((line0, chars0))]) + rest.1);
                    } else {
                        assert(utf16_chars@ =~= chars0);
                    }
                    assert(utf16_chars@ =~= Seq::<Utf16Char>::empty());
                }
            } else {
                let l0 = utf8_len_exec(b);
                let l = if l0 <= text.len() - i {
                    l0
                } else {
                    text.len() - i
                };
                if l > 1 {
                    utf16_chars.push(Utf16Char { start: col, end: col + l as u32 });
                }
                col = col + l as u32;
                i = i + l;
                proof {
                    let spec_l = if i0 + utf8_len(text@[i0]) <= text@.len() {
                        utf8_len(text@[i0])
                    } else {
                        text@.len() - i0
                    };
                    assert(l == spec_l);
                    if l > 1 {
                        assert(utf16_chars@ =~= chars0.push(
                            Utf16Char { start: col0, end: (col0 + spec_l) as u32 },
                        ));
                    }
                }
            }
        }
        proof {
            assert(spec_build(text@, i as int, col, line, utf16_chars@).0 == Seq::<u32>::empty());
            assert(newlines@ + Seq::<u32>::empty() =~= newlines@);
        }
        if utf16_chars.len() > 0 {
            let ghost ul0 = utf16_lines@;
            let ghost chars0 = utf16_chars@;
            let ghost line0 = line;
            utf16_lines.push((line, utf16_chars));
            proof {
                assert(utf16_view(utf16_lines@) =~= utf16_view(ul0) + seq![((line0, chars0))]);
            }
            LineIndex { newlines, utf16_lines }
        } else {
            proof {
                assert(utf16_view(utf16_lines@) + Seq::<(u32, Seq<Utf16Char>)>::empty()
                    =~= utf16_view(utf16_lines@));
            }
            LineIndex { newlines, utf16_lines }
        }
    }

    /// The wide-character table of `line`, or nothing when the line has no
    /// wide characters.
    pub fn utf16_line(&self, line: u32) -> (r: Option<&Vec<Utf16Char>>)
        ensures
            r matches Some(v) ==> v@ == spec_chars_for(self.utf16_lines@, line) && v@.len() > 0,
            r is None ==> spec_chars_for(self.utf16_lines@, line).len() == 0,
    {
        let mut t: usize = 0;
        proof {
            assert(self.utf16_lines@.skip(0) =~= self.utf16_lines@);
        }
        while t < self.utf16_lines.len()
            invariant
                t <= self.utf16_lines@.len(),
                spec_chars_for(self.utf16_lines@, line) == spec_chars_for(
                    self.utf16_lines@.skip(t as int),
                    line,
                ),
                forall|u: int| 0 <= u < t ==> (#[trigger] self.utf16_lines@[u]).0 != line,
            decreases self.utf16_lines@.len() - t,
        {
            if self.utf16_lines[t].0 == line {
                proof {
                    assert(self.utf16_lines@.skip(t as int)[0] == self.utf16_lines@[t as int]);
                }
                if self.utf16_lines[t].1.len() > 0 {
                    return Some(&self.utf16_lines[t].1);
                } else {
                    return None;
                }
            }
            proof {
                assert(self.utf16_lines@.skip(t as int).drop_first() =~= self.utf16_lines@.skip(
                    t + 1,
                ));
                assert(self.utf16_lines@.skip(t as int)[0] == self.utf16_lines@[t as int]);
            }
            t += 1;
        }
        proof {
            assert(self.utf16_lines@.skip(t as int) =~= Seq::<(u32, Vec<Utf16Char>)>::empty());
        }
        None
    }

    /// The UTF-16 column of a byte column on `line`.
    pub fn utf8_to_utf16_col(&self, line: u32, col: u32) -> (r: u32)
        requires
            line_index_wf(*self),
        ensures
            r == col - spec_correction(spec_chars_for(self.utf16_lines@, line), col),
    {
        let chars = match self.utf16_line(line) {
            None => {
                return col;
            },
            Some(chars) => chars,
        };
        let ghost full = chars@;
        proof {
            lemma_chars_for_wf(*self, line);
        }
        let mut correction: u32 = 0;
        let mut t: usize = 0;
        proof {
            assert(full.skip(0) =~= full);
        }
        while t < chars.len()
            invariant
                line_index_wf(*self),
                chars@ == full,
                full == spec_chars_for(self.utf16_lines@, line),
                chars_wf(full),
                t <= full.len(),
                spec_correction(full, col) == correction + spec_correction(
                    full.skip(t as int),
                    col,
                ),
                correction <= col,
                forall|a: int| 0 <= a < t ==> col >= (#[trigger] full[a]).end,
            decreases full.len() - t,
        {
            proof {
                assert(full.skip(t as int)[0] == full[t as int]);
                lemma_skip_chars_wf(full, t as int);
                lemma_correction_bound(full.skip(t as int), col);
            }
            if col >= chars[t].end {
                proof {
                    assert(full.skip(t as int).drop_first() =~= full.skip(t + 1));
                    lemma_skip_chars_wf(full, t + 1);
                    lemma_correction_bound(full.skip(t + 1), col);
                    assert(full[t as int].start < full[t as int].end);
                    assert(spec_correction(full.skip(t as int), col) == (full[t as int].end
                        - full[t as int].start - 1) + spec_correction(full.skip(t + 1), col));
                    assert(correction + (full[t as int].end - full[t as int].start - 1)
                        <= spec_correction(full, col));
                    lemma_correction_bound(full, col);
                }
                correction = correction + (chars[t].end - chars[t].start - 1);
                t += 1;
            } else {
                proof {
                    assert(spec_correction(full.skip(t as int), col) == 0);
                }
                return col - correction;
            }
        }
        proof {
            assert(full.skip(t as int) =~= Seq::<Utf16Char>::empty());
        }
        col - correction
    }

    /// The byte column of a UTF-16 column on `line`.
    pub fn utf16_to_utf8_col(&self, line: u32, col: u32) -> (r: u32)
        requires
            line_index_wf(*self),
            spec_wide_col(spec_chars_for(self.utf16_lines@, line), col as int) <= u32::MAX,
        ensures
            r == spec_wide_col(spec_chars_for(self.utf16_lines@, line), col as int),
    {
        let chars = match self.utf16_line(line) {
            None => {
                return col;
            },
            Some(chars) => chars,
        };
        let ghost full = chars@;
        proof {
            lemma_chars_for_wf(*self, line);
        }
        let mut c: u32 = col;
        let mut t: usize = 0;
        proof {
            assert(full.skip(0) =~= full);
        }
        while t < chars.len()
            invariant
                line_index_wf(*self),
                chars@ == full,
                full == spec_chars_for(self.utf16_lines@, line),
                chars_wf(full),
                t <= full.len(),
                spec_wide_col(full, col as int) == spec_wide_col(full.skip(t as int), c as int),
                spec_wide_col(full, col as int) <= u32::MAX,
            decreases full.len() - t,
        {
            proof {
                assert(full.skip(t as int)[0] == full[t as int]);
                lemma_skip_chars_wf(full, t as int);
                lemma_wide_col_monotone(full.skip(t as int), c as int);
            }
            if c >= chars[t].start {
                proof {
                    assert(full.skip(t as int).drop_first() =~= full.skip(t + 1));
                    lemma_skip_chars_wf(full, t + 1);
                    assert(full[t as int].start < full[t as int].end);
                    assert(spec_wide_col(full.skip(t as int), c as int) == spec_wide_col(
                        full.skip(t + 1),
                        c + (full[t as int].end - full[t as int].start - 1),
                    ));
                    lemma_wide_col_monotone(
                        full.skip(t + 1),
                        c + (full[t as int].end - full[t as int].start - 1),
                    );
                    assert(c + (full[t as int].end - full[t as int].start - 1) <= u32::MAX);
                }
                c = c + (chars[t].end - chars[t].start - 1);
                t += 1;
            } else {
                return c;
            }
        }
        proof {
            assert(full.skip(t as int) =~= Seq::<Utf16Char>::empty());
        }
        c
    }

    /// The line holding `offset`, and the UTF-16 column of `offset` in it.
    pub fn line_col(&self, offset: u32) -> (r: LineCol)
        requires
            line_index_wf(*self),
        ensures
            r.line < self.newlines@.len(),
            self.newlines@[r.line as int] <= offset,
            r.line as int + 1 < self.newlines@.len() ==> offset < self.newlines@[r.line as int
                + 1],
            r.col_utf16 == ({
                let col = (offset - self.newlines@[r.line as int]) as u32;
                col - spec_correction(spec_chars_for(self.utf16_lines@, r.line), col)
            }),
    {
        let ub = upper_bound_u32(&self.newlines, offset);
        proof {
            assert(self.newlines@[0] == 0);
            if ub == 0 {
                assert(self.newlines@[0] > offset);
            }
        }
        let line = ub - 1;
        let line_start_offset = self.newlines[line];
        let col = offset - line_start_offset;
        LineCol { line: line as u32, col_utf16: self.utf8_to_utf16_col(line as u32, col) }
    }

    /// The byte offset of a (line, UTF-16 column) position.
    pub fn offset(&self, line_col: LineCol) -> (r: u32)
        requires
            line_index_wf(*self),
            line_col.line < self.newlines@.len(),
            self.newlines@[line_col.line as int] + spec_wide_col(
                spec_chars_for(self.utf16_lines@, line_col.line),
                line_col.col_utf16 as int,
            ) <= u32::MAX,
        ensures
            r == self.newlines@[line_col.line as int] + spec_wide_col(
                spec_chars_for(self.utf16_lines@, line_col.line),
                line_col.col_utf16 as int,
            ),
    {
        proof {
            lemma_chars_for_wf(*self, line_col.line);
            lemma_wide_col_monotone(
                spec_chars_for(self.utf16_lines@, line_col.line),
                line_col.col_utf16 as int,
            );
        }
        let col = self.utf16_to_utf8_col(line_col.line, line_col.col_utf16);
        self.newlines[line_col.line as usize] + col
    }
}

/// The non-empty ranges between successive boundaries.
pub open spec fn spec_pairs(b: Seq<u32>, t: int) -> Seq<TextRange>
    decreases b.len() - t,
{
    if t < 0 || t + 1 >= b.len() {
        Seq::empty()
    } else {
        let rest = spec_pairs(b, t + 1);
        if b[t] < b[t + 1] {
            seq![TextRange { start: b[t], end: b[t + 1] }] + rest
        } else {
            rest
        }
    }
}

/// `i` splits the offsets into those below `x` and the rest.
pub open spec fn is_lower_split(s: Seq<u32>, x: u32, i: int) -> bool {
    &&& 0 <= i <= s.len()
    &&& forall|k: int| 0 <= k < i ==> s[k] < x
    &&& forall|k: int| i <= k < s.len() ==> s[k] >= x
}

/// `i` splits the offsets into those at most `x` and the rest.
pub open spec fn is_upper_split(s: Seq<u32>, x: u32, i: int) -> bool {
    &&& 0 <= i <= s.len()
    &&& forall|k: int| 0 <= k < i ==> s[k] <= x
    &&& forall|k: int| i <= k < s.len() ==> s[k] > x
}

impl LineIndex {
    /// The non-empty pieces that the line starts inside `range` cut it
    /// into, in order.
    pub fn lines(&self, range: TextRange) -> (r: Vec<TextRange>)
        requires
            line_index_wf(*self),
            range.wf(),
        ensures
            forall|lo: int, hi: int|
                is_lower_split(self.newlines@, range.start, lo) && is_upper_split(
                    self.newlines@,
                    range.end,
                    hi,
                ) ==> r@ == spec_pairs(
                    seq![range.start] + self.newlines@.subrange(lo, hi) + seq![range.end],
                    0,
                ),
    {
        let lo = lower_bound_u32(&self.newlines, range.start);
        let hi = upper_bound_u32(&self.newlines, range.end);
        proof {
            if hi < lo {
                assert(self.newlines@[hi as int] > range.end);
                assert(self.newlines@[hi as int] < range.start);
            }
        }
        let mut bounds: Vec<u32> = Vec::new();
        bounds.push(range.start);
        let mut k: usize = lo;
        while k < hi
            invariant
                lo <= k <= hi <= self.newlines@.len(),
                bounds@ =~= seq![range.start] + self.newlines@.subrange(lo as int, k as int),
            decreases hi - k,
        {
            bounds.push(self.newlines[k]);
            proof {
                assert(self.newlines@.subrange(lo as int, k + 1) =~= self.newlines@.subrange(
                    lo as int,
                    k as int,
                ).push(self.newlines@[k as int]));
            }
            k += 1;
        }
        bounds.push(range.end);
        let ghost bseq = seq![range.start] + self.newlines@.subrange(lo as int, hi as int) + seq![
            range.end,
        ];
        proof {
            assert(bounds@ =~= bseq);
        }
        let mut out: Vec<TextRange> = Vec::new();
        let mut t: usize = 0;
        while t + 1 < bounds.len()
            invariant
                bounds@ == bseq,
                bseq.len() >= 2,
                t <= bseq.len() - 1,
                out@ + spec_pairs(bseq, t as int) == spec_pairs(bseq, 0),
            decreases bounds@.len() - t,
        {
            if bounds[t] < bounds[t + 1] {
                out.push(TextRange { start: bounds[t], end: bounds[t + 1] });
                proof {
                    assert(out@ + spec_pairs(bseq, t + 1) =~= spec_pairs(bseq, 0));
                }
            }
            t += 1;
        }
        proof {
            assert(spec_pairs(bseq, t as int) =~= Seq::<TextRange>::empty());
            assert(out@ =~= spec_pairs(bseq, 0));
            assert forall|lo2: int, hi2: int|
                is_lower_split(self.newlines@, range.start, lo2) && is_upper_split(
                    self.newlines@,
                    range.end,
                    hi2,
                ) implies out@ == spec_pairs(
                seq![range.start] + self.newlines@.subrange(lo2, hi2) + seq![range.end],
                0,
            ) by {
                if lo2 < lo {
                    assert(self.newlines@[lo2 as int] >= range.start);
                    assert(self.newlines@[lo2 as int] < range.start);
                }
                if lo < lo2 {
                    assert(self.newlines@[lo as int] >= range.start);
                    assert(self.newlines@[lo as int] < range.start);
                }
                if hi2 < hi {
                    assert(self.newlines@[hi2 as int] > range.end);
                    assert(self.newlines@[hi2 as int] <= range.end);
                }
                if hi < hi2 {
                    assert(self.newlines@[hi as int] > range.end);
                    assert(self.newlines@[hi as int] <= range.end);
                }
                assert(lo2 == lo && hi2 == hi);
            }
        }
        out
    }
}

/// A line's recorded table is well-formed whenever the index is.
pub proof fn lemma_chars_for_wf(li: LineIndex, line: u32)
    requires
        line_index_wf(li),
    ensures
        chars_wf(spec_chars_for(li.utf16_lines@, line)),
{
    lemma_chars_for_wf_seq(li.utf16_lines@, line);
}

proof fn lemma_chars_for_wf_seq(s: Seq<(u32, Vec<Utf16Char>)>, line: u32)
    requires
        forall|t: int| 0 <= t < s.len() ==> chars_wf((#[trigger] s[t]).1@),
    ensures
        chars_wf(spec_chars_for(s, line)),
    decreases s.len(),
{
    if s.len() == 0 {
        assert(chars_wf(Seq::<Utf16Char>::empty()));
    } else if s[0].0 == line {
    } else {
        assert forall|t: int|
            0 <= t < s.drop_first().len() implies chars_wf(
            (#[trigger] s.drop_first()[t]).1@,
        ) by {
            assert(s.drop_first()[t] == s[t + 1]);
        }
        lemma_chars_for_wf_seq(s.drop_first(), line);
    }
}

/// Dropping a prefix of a well-formed table leaves it well-formed.
proof fn lemma_skip_chars_wf(chars: Seq<Utf16Char>, t: int)
    requires
        chars_wf(chars),
        0 <= t <= chars.len(),
    ensures
        chars_wf(chars.skip(t)),
{
    let tail = chars.skip(t);
    assert forall|a: int| 0 <= a < tail.len() implies (#[trigger] tail[a]).start < tail[a].end by {
        assert(tail[a] == chars[a + t]);
    }
    assert forall|a: int, b: int| 0 <= a < b < tail.len() implies (#[trigger] tail[a]).end
        <= (#[trigger] tail[b]).start by {
        assert(tail[a] == chars[a + t]);
        assert(tail[b] == chars[b + t]);
    }
}

/// A zero-based line and a zero-based UTF-16 column.
#[derive(Clone, Copy, Debug, PartialEq, Eq, Hash)]
pub struct LineCol {
    pub line: u32,
    pub col_utf16: u32,
}

/// Relies on superslice's `lower_bound`: on a sorted slice, the index of
/// the first element not less than the probe.
#[verifier::external_body]
fn lower_bound_u32(v: &Vec<u32>, x: u32) -> (r: usize)
    requires
        sorted_strict(v@),
    ensures
        r <= v@.len(),
        forall|k: int| 0 <= k < r ==> v@[k] < x,
        forall|k: int| r <= k < v@.len() ==> v@[k] >= x,
{
    superslice::Ext::lower_bound(v.as_slice(), &x)
}

/// Relies on superslice's `upper_bound`: on a sorted slice, the index of
/// the first element greater than the probe.
#[verifier::external_body]
fn upper_bound_u32(v: &Vec<u32>, x: u32) -> (r: usize)
    requires
        sorted_strict(v@),
    ensures
        r <= v@.len(),
        forall|k: int| 0 <= k < r ==> v@[k] <= x,
        forall|k: int| r <= k < v@.len() ==> v@[k] > x,
{
    superslice::Ext::upper_bound(v.as_slice(), &x)
}

} // verus!
