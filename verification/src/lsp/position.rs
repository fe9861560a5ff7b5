//! Byte offsets, and the lines and columns that an editor counts in.

use crate::text::Text;
use crate::types::Span;
use vstd::prelude::*;
use vstd::utf8::encode_utf8;

verus! {

/// A line and a column, both from zero; the column counts bytes.
#[derive(Debug, Clone, Copy, PartialEq, Eq, Structural)]
pub struct CheckPosition {
    pub line: u32,
    pub character: u32,
}

/// The part of a text from one position up to another.
#[derive(Debug, Clone, Copy, PartialEq, Eq, Structural)]
pub struct CheckRange {
    pub start: CheckPosition,
    pub end: CheckPosition,
}

/// The newline byte.
pub const NEWLINE: u8 = 10;

/// Where the lines of the first `n` bytes begin: at zero and behind each newline.
pub open spec fn line_starts_to(bytes: Seq<u8>, n: nat) -> Seq<usize>
    decreases n,
{
    if n == 0 {
        seq![0usize]
    } else if n <= bytes.len() && bytes[n - 1] == NEWLINE {
        line_starts_to(bytes, (n - 1) as nat).push(n as usize)
    } else {
        line_starts_to(bytes, (n - 1) as nat)
    }
}

/// The model of a line index: where the lines begin, and the number of bytes.
pub struct LineIndexV {
    pub starts: Seq<usize>,
    pub len: usize,
}

impl LineIndexV {
    /// The first line begins at zero, each further line behind the one before it, and none
    /// behind the end.
    pub open spec fn valid(self) -> bool {
        &&& self.starts.len() > 0
        &&& self.starts[0] == 0
        &&& forall|i: int, j: int|
            0 <= i < j < self.starts.len() ==> #[trigger] self.starts[i] < #[trigger] self.starts[j]
        &&& forall|i: int| 0 <= i < self.starts.len() ==> #[trigger] self.starts[i] <= self.len
    }
}

/// The index of a text of the given bytes.
pub open spec fn index_of_bytes(bytes: Seq<u8>) -> LineIndexV {
    LineIndexV { starts: line_starts_to(bytes, bytes.len()), len: bytes.len() as usize }
}

/// The index of a text.
pub open spec fn index_of_source(text: Text) -> LineIndexV {
    index_of_bytes(encode_utf8(text))
}

/// The last of the first `n` lines that begins at or before an offset.
pub open spec fn line_at(starts: Seq<usize>, offset: usize, n: nat) -> nat
    decreases n,
{
    if n <= 1 {
        0
    } else if n <= starts.len() && starts[n - 1] <= offset {
        (n - 1) as nat
    } else {
        line_at(starts, offset, (n - 1) as nat)
    }
}

/// An offset, or the end of the text where the offset lies behind it.
pub open spec fn clamped(ix: LineIndexV, offset: usize) -> usize {
    if offset <= ix.len {
        offset
    } else {
        ix.len
    }
}

/// The position of an offset: the line it lies in, and how far it lies behind its beginning.
pub open spec fn position_of(ix: LineIndexV, offset: usize) -> CheckPosition {
    let at = clamped(ix, offset);
    let line = line_at(ix.starts, at, ix.starts.len());
    CheckPosition {
        line: (line as int) as u32,
        character: (at - ix.starts[line as int]) as u32,
    }
}

/// The offset of a position; the end of the text where the position lies behind it.
pub open spec fn offset_of(ix: LineIndexV, pos: CheckPosition) -> int {
    if pos.line >= ix.starts.len() {
        ix.len as int
    } else {
        let at = ix.starts[pos.line as int] + pos.character;
        if at <= ix.len {
            at
        } else {
            ix.len as int
        }
    }
}

/// The range of a span.
pub open spec fn range_of(ix: LineIndexV, span: Span) -> CheckRange {
    CheckRange { start: position_of(ix, span.start), end: position_of(ix, span.end) }
}

/// Converts between byte offsets of a text and positions in it.
#[derive(Debug)]
pub struct LineIndex {
    line_starts: Vec<usize>,
    text_len: usize,
}

proof fn lemma_line_at(starts: Seq<usize>, offset: usize, n: nat, line: int)
    requires
        0 <= line < n <= starts.len(),
        starts[line] <= offset,
        forall|i: int| line < i < n ==> #[trigger] starts[i] > offset,
    ensures
        line_at(starts, offset, n) == line,
    decreases n,
{
    if line < n - 1 {
        lemma_line_at(starts, offset, (n - 1) as nat, line);
    }
}

proof fn lemma_line_found(starts: Seq<usize>, offset: usize, n: nat)
    requires
        0 < n <= starts.len(),
        starts[0] <= offset,
    ensures
        line_at(starts, offset, n) < n,
        starts[line_at(starts, offset, n) as int] <= offset,
        forall|i: int|
            line_at(starts, offset, n) < i < n ==> #[trigger] starts[i] > offset,
    decreases n,
{
    if n > 1 && starts[n - 1] > offset {
        lemma_line_found(starts, offset, (n - 1) as nat);
    }
}

proof fn lemma_starts_step(bytes: Seq<u8>, n: nat)
    requires
        n <= bytes.len(),
        bytes.len() <= usize::MAX,
    ensures
        line_starts_to(bytes, n).len() > 0,
        line_starts_to(bytes, n)[0] == 0,
        forall|i: int, j: int|
            0 <= i < j < line_starts_to(bytes, n).len() ==> #[trigger] line_starts_to(bytes, n)[i]
                < #[trigger] line_starts_to(bytes, n)[j],
        forall|i: int|
            0 <= i < line_starts_to(bytes, n).len() ==> #[trigger] line_starts_to(bytes, n)[i] <= n,
    decreases n,
{
    if n > 0 {
        lemma_starts_step(bytes, (n - 1) as nat);
    }
}

/// The index of a text is valid.
pub proof fn law_index_is_valid(bytes: Seq<u8>)
    requires
        bytes.len() <= usize::MAX,
    ensures
        index_of_bytes(bytes).valid(),
{
    lemma_starts_step(bytes, bytes.len());
}

proof fn lemma_line_begins_late(ix: LineIndexV, i: int)
    requires
        ix.valid(),
        0 <= i < ix.starts.len(),
    ensures
        i <= ix.starts[i],
    decreases i,
{
    if i > 0 {
        lemma_line_begins_late(ix, i - 1);
        assert(ix.starts[i - 1] < ix.starts[i]);
    }
}

proof fn lemma_lines_have_bytes(ix: LineIndexV)
    requires
        ix.valid(),
    ensures
        ix.starts.len() <= ix.len + 1,
{
    lemma_line_begins_late(ix, ix.starts.len() - 1);
}

/// The position of an offset leads back to it; that of an offset behind the end of the text,
/// to the end.
pub proof fn law_position_leads_back(ix: LineIndexV, offset: usize)
    requires
        ix.valid(),
        ix.len <= u32::MAX,
    ensures
        offset_of(ix, position_of(ix, offset)) == clamped(ix, offset),
{
    lemma_lines_have_bytes(ix);
    lemma_line_found(ix.starts, clamped(ix, offset), ix.starts.len());
}

/// A position within its line is the position of its offset.
pub proof fn law_offset_leads_back(ix: LineIndexV, pos: CheckPosition)
    requires
        ix.valid(),
        ix.len <= u32::MAX,
        pos.line < ix.starts.len(),
        pos.line + 1 < ix.starts.len() ==> ix.starts[pos.line as int] + pos.character
            < ix.starts[pos.line + 1],
        ix.starts[pos.line as int] + pos.character <= ix.len,
    ensures
        position_of(ix, offset_of(ix, pos) as usize) == pos,
{
    lemma_lines_have_bytes(ix);
    let at = (ix.starts[pos.line as int] + pos.character) as usize;
    assert forall|i: int| pos.line < i < ix.starts.len() implies #[trigger] ix.starts[i] > at by {
        if i > pos.line + 1 {
            assert(ix.starts[pos.line + 1] < ix.starts[i]);
        }
    }
    lemma_line_at(ix.starts, at, ix.starts.len(), pos.line as int);
}

/// Whether one position comes before another or is the same.
pub open spec fn not_after(a: CheckPosition, b: CheckPosition) -> bool {
    a.line < b.line || (a.line == b.line && a.character <= b.character)
}

/// Positions come in the order of their offsets.
pub proof fn law_positions_keep_order(ix: LineIndexV, a: usize, b: usize)
    requires
        ix.valid(),
        ix.len <= u32::MAX,
        a <= b,
    ensures
        not_after(position_of(ix, a), position_of(ix, b)),
{
    lemma_lines_have_bytes(ix);
    let n = ix.starts.len();
    lemma_line_found(ix.starts, clamped(ix, a), n);
    lemma_line_found(ix.starts, clamped(ix, b), n);
}

/// The number of newlines among the first `n` bytes.
pub open spec fn newlines_to(bytes: Seq<u8>, n: nat) -> nat
    decreases n,
{
    if n == 0 {
        0
    } else if n <= bytes.len() && bytes[n - 1] == NEWLINE {
        newlines_to(bytes, (n - 1) as nat) + 1
    } else {
        newlines_to(bytes, (n - 1) as nat)
    }
}

proof fn lemma_starts_count(bytes: Seq<u8>, m: nat, n: nat)
    requires
        m <= n <= bytes.len(),
        bytes.len() <= usize::MAX,
    ensures
        line_starts_to(bytes, n).len() == newlines_to(bytes, n) + 1,
        line_starts_to(bytes, m).len() <= line_starts_to(bytes, n).len(),
        line_starts_to(bytes, n).take(line_starts_to(bytes, m).len() as int) == line_starts_to(
            bytes,
            m,
        ),
        forall|i: int|
            line_starts_to(bytes, m).len() <= i < line_starts_to(bytes, n).len()
                ==> #[trigger] line_starts_to(bytes, n)[i] > m,
    decreases n,
{
    let a = line_starts_to(bytes, m);
    let b = line_starts_to(bytes, n);
    if m < n {
        lemma_starts_count(bytes, m, (n - 1) as nat);
        let c = line_starts_to(bytes, (n - 1) as nat);
        if bytes[n - 1] == NEWLINE {
            assert(b == c.push(n as usize));
            assert(b.take(a.len() as int) =~= c.take(a.len() as int));
        }
    } else {
        assert(b.take(a.len() as int) =~= a);
        if n > 0 {
            lemma_starts_count(bytes, (n - 1) as nat, (n - 1) as nat);
        }
    }
}

/// The line of an offset is the number of newlines before it.
pub proof fn law_line_counts_newlines(bytes: Seq<u8>, offset: usize)
    requires
        bytes.len() <= u32::MAX,
        offset <= bytes.len(),
    ensures
        position_of(index_of_bytes(bytes), offset).line == newlines_to(bytes, offset as nat),
{
    let n = bytes.len();
    let starts = line_starts_to(bytes, n);
    let before = line_starts_to(bytes, offset as nat);
    lemma_starts_count(bytes, offset as nat, n);
    lemma_starts_count(bytes, offset as nat, offset as nat);
    lemma_starts_step(bytes, offset as nat);
    lemma_starts_step(bytes, n);
    let line = before.len() - 1;
    assert(starts.take(before.len() as int)[line] == before[line]);
    lemma_line_at(starts, offset, starts.len(), line);
    lemma_newlines_bound(bytes, offset as nat);
}

proof fn lemma_newlines_bound(bytes: Seq<u8>, n: nat)
    ensures
        newlines_to(bytes, n) <= n,
    decreases n,
{
    if n > 0 {
        lemma_newlines_bound(bytes, (n - 1) as nat);
    }
}

impl LineIndex {
    /// The model of this index.
    pub closed spec fn view(&self) -> LineIndexV {
        LineIndexV { starts: self.line_starts@, len: self.text_len }
    }

    #[verifier::type_invariant]
    spec fn invariant_holds(self) -> bool {
        self@.valid()
    }

    /// The index of a text.
    pub fn new(text: &str) -> (r: Self)
        ensures
            r@ == index_of_source(text@),
    {
        let bytes = text.as_bytes();
        let mut line_starts: Vec<usize> = Vec::new();
        line_starts.push(0);
        let mut i: usize = 0;
        while i < bytes.len()
            invariant
                i <= bytes.len(),
                line_starts@ == line_starts_to(bytes@, i as nat),
            decreases bytes.len() - i,
        {
            i = i + 1;
            if bytes[i - 1] == NEWLINE {
                line_starts.push(i);
            }
        }
        proof {
            law_index_is_valid(bytes@);
        }
        LineIndex { line_starts, text_len: bytes.len() }
    }

    /// The number of lines.
    pub fn line_count(&self) -> (r: usize)
        ensures
            r == self@.starts.len(),
    {
        self.line_starts.len()
    }

    /// The position of an offset.
    pub fn offset_to_position(&self, offset: usize) -> (r: CheckPosition)
        ensures
            r == position_of(self@, offset),
    {
        proof {
            use_type_invariant(self);
        }
        let at = if offset <= self.text_len {
            offset
        } else {
            self.text_len
        };
        let mut lo: usize = 0;
        let mut hi: usize = self.line_starts.len();
        while hi - lo > 1
            invariant
                self@.valid(),
                lo < hi <= self.line_starts.len(),
                self.line_starts@[lo as int] <= at,
                forall|i: int|
                    hi <= i < self.line_starts.len() ==> #[trigger] self.line_starts@[i] > at,
            decreases hi - lo,
        {
            let mid = lo + (hi - lo) / 2;
            if self.line_starts[mid] <= at {
                lo = mid;
            } else {
                assert forall|i: int| mid <= i < self.line_starts.len() implies
                    #[trigger] self.line_starts@[i] > at by {
                    if mid < i {
                        assert(self@.starts[mid as int] < self@.starts[i]);
                    }
                }
                hi = mid;
            }
        }
        proof {
            lemma_line_at(self@.starts, at, self@.starts.len(), lo as int);
        }
        CheckPosition { line: lo as u32, character: (at - self.line_starts[lo]) as u32 }
    }

    /// The offset of a position.
    pub fn position_to_offset(&self, pos: CheckPosition) -> (r: usize)
        ensures
            r == offset_of(self@, pos),
    {
        proof {
            use_type_invariant(self);
        }
        let line = pos.line as usize;
        if line >= self.line_starts.len() {
            return self.text_len;
        }
        let start = self.line_starts[line];
        assert(self@.starts[line as int] <= self@.len);
        let column = pos.character as usize;
        if column <= self.text_len - start {
            start + column
        } else {
            self.text_len
        }
    }

    /// The range of a span.
    pub fn span_to_range(&self, span: &Span) -> (r: CheckRange)
        ensures
            r == range_of(self@, *span),
    {
        CheckRange {
            start: self.offset_to_position(span.start),
            end: self.offset_to_position(span.end),
        }
    }
}

} // verus!
