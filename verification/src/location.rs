//! Byte offsets in source text to line and column positions.
use vstd::prelude::*;
use crate::errors::SourceLocation;
use vstd::string::StringSliceAdditionalSpecFns;

verus! {

/// The offsets just after each newline byte among the first `n` bytes.
pub open spec fn newline_ends(bytes: Seq<u8>, n: nat) -> Seq<usize>
    decreases n,
{
    if n == 0 {
        Seq::empty()
    } else if bytes[n - 1] == 10u8 {
        newline_ends(bytes, (n - 1) as nat).push(n as usize)
    } else {
        newline_ends(bytes, (n - 1) as nat)
    }
}

/// The byte offsets at which the lines of a text start.
pub open spec fn line_starts_of(bytes: Seq<u8>) -> Seq<usize> {
    seq![0usize] + newline_ends(bytes, bytes.len())
}

/// Strictly increasing offsets, the first of them 0.
pub open spec fn starts_wf(s: Seq<usize>) -> bool {
    &&& s.len() >= 1
    &&& s[0] == 0
    &&& forall|i: int, j: int| 0 <= i < j < s.len() ==> #[trigger] s[i] < #[trigger] s[j]
}

/// The position of a byte offset: the 1-based line whose start is the last one not after
/// the offset, and the distance from that start.
pub open spec fn is_position(s: Seq<usize>, offset: usize, pos: (usize, usize)) -> bool {
    &&& 1 <= pos.0 <= s.len()
    &&& s[pos.0 - 1] <= offset
    &&& (pos.0 < s.len() ==> offset < s[pos.0 as int])
    &&& pos.1 == offset - s[pos.0 - 1]
}

proof fn lemma_newline_ends_bounded(bytes: Seq<u8>, n: nat)
    requires
        n <= bytes.len(),
        bytes.len() <= usize::MAX,
    ensures
        forall|i: int| 0 <= i < newline_ends(bytes, n).len() ==> 0 < #[trigger] newline_ends(bytes, n)[i] <= n,
        forall|i: int, j: int|
            0 <= i < j < newline_ends(bytes, n).len() ==> #[trigger] newline_ends(bytes, n)[i]
                < #[trigger] newline_ends(bytes, n)[j],
    decreases n,
{
    if n > 0 {
        lemma_newline_ends_bounded(bytes, (n - 1) as nat);
        let p = newline_ends(bytes, (n - 1) as nat);
        let q = newline_ends(bytes, n);
        if bytes[n - 1] == 10u8 {
            assert(q == p.push(n as usize));
            assert forall|i: int| 0 <= i < q.len() implies 0 < #[trigger] q[i] <= n by {
                if i < p.len() {
                    assert(q[i] == p[i]);
                }
            }
            assert forall|i: int, j: int| 0 <= i < j < q.len() implies #[trigger] q[i] < #[trigger] q[j] by {
                assert(q[i] == p[i]);
                if j < p.len() {
                    assert(q[j] == p[j]);
                }
            }
        } else {
            assert(q == p);
        }
    }
}

proof fn lemma_newline_ends_prefix(bytes: Seq<u8>, n: nat, m: nat)
    requires
        n <= m <= bytes.len(),
        bytes.len() <= usize::MAX,
    ensures
        newline_ends(bytes, n).len() <= newline_ends(bytes, m).len(),
        newline_ends(bytes, n) =~= newline_ends(bytes, m).take(newline_ends(bytes, n).len() as int),
        forall|i: int|
            newline_ends(bytes, n).len() <= i < newline_ends(bytes, m).len() ==> #[trigger] newline_ends(
                bytes,
                m,
            )[i] > n,
    decreases m,
{
    if m > n {
        lemma_newline_ends_prefix(bytes, n, (m - 1) as nat);
        let q = newline_ends(bytes, (m - 1) as nat);
        if bytes[m - 1] == 10u8 {
            assert(newline_ends(bytes, m) == q.push(m as usize));
            assert forall|i: int|
                newline_ends(bytes, n).len() <= i < newline_ends(bytes, m).len() implies #[trigger] newline_ends(
                bytes,
                m,
            )[i] > n by {
                if i < q.len() {
                    assert(newline_ends(bytes, m)[i] == q[i]);
                } else {
                    assert(newline_ends(bytes, m)[i] == m as usize);
                }
            }
        }
    }
}

/// The number of newline bytes among the first `n` bytes.
pub open spec fn newlines_before(bytes: Seq<u8>, n: nat) -> nat {
    newline_ends(bytes, n).len()
}

/// The offset at which the line holding offset `n` starts: 0, or just after the last
/// newline byte among the first `n` bytes.
pub open spec fn line_start_before(bytes: Seq<u8>, n: nat) -> int {
    if newlines_before(bytes, n) == 0 {
        0
    } else {
        newline_ends(bytes, n).last() as int
    }
}

/// A position in a text: the line is one more than the number of newlines before the
/// offset, and the column is the distance from just after the last of them (or from the
/// start of the text).
pub proof fn lemma_position_counts_newlines(bytes: Seq<u8>, offset: usize, pos: (usize, usize))
    requires
        offset <= bytes.len(),
        bytes.len() <= usize::MAX,
        is_position(line_starts_of(bytes), offset, pos),
    ensures
        pos.0 == newlines_before(bytes, offset as nat) + 1,
        pos.1 == offset - line_start_before(bytes, offset as nat),
{
    let n = offset as nat;
    let p = newline_ends(bytes, n);
    let q = newline_ends(bytes, bytes.len());
    let s = line_starts_of(bytes);
    lemma_newline_ends_prefix(bytes, n, bytes.len());
    lemma_newline_ends_bounded(bytes, n);
    lemma_newline_ends_bounded(bytes, bytes.len());
    let k = p.len() as int;
    let l = pos.0 - 1;
    if l < k {
        assert(s[l + 1] == q[l]);
        assert(q[l] == p[l]);
        assert(false);
    }
    if l > k {
        assert(s[l] == q[l - 1]);
        assert(false);
    }
    if k > 0 {
        assert(s[k] == q[k - 1]);
        assert(q[k - 1] == p[k - 1]);
    }
}

/// Line starts of a source text, for converting byte offsets to positions.
#[derive(Debug)]
pub struct LineIndex {
    line_starts: Vec<usize>,
}

impl LineIndex {
    #[verifier::type_invariant]
    spec fn inv(&self) -> bool {
        starts_wf(self.line_starts@)
    }

    /// The offsets at which the lines start.
    pub closed spec fn starts(&self) -> Seq<usize> {
        self.line_starts@
    }

    /// Indexes the lines of a source text: a line starts at offset 0 and after each
    /// newline.
    pub fn new(source: &str) -> (r: Self)
        ensures
            r.starts() == line_starts_of(source.spec_bytes()),
            starts_wf(r.starts()),
    {
        let bytes = source.as_bytes();
        let mut line_starts: Vec<usize> = Vec::new();
        line_starts.push(0);
        let mut i: usize = 0;
        while i < bytes.len()
            invariant
                0 <= i <= bytes.len(),
                bytes@ == source.spec_bytes(),
                line_starts@ == seq![0usize] + newline_ends(bytes@, i as nat),
            decreases bytes.len() - i,
        {
            if bytes[i] == 10u8 {
                line_starts.push(i + 1);
                assert(line_starts@ =~= seq![0usize] + newline_ends(bytes@, (i + 1) as nat));
            } else {
                assert(line_starts@ =~= seq![0usize] + newline_ends(bytes@, (i + 1) as nat));
            }
            i += 1;
        }
        proof {
            let ne = newline_ends(bytes@, bytes@.len());
            lemma_newline_ends_bounded(bytes@, bytes@.len());
            let s = line_starts@;
            assert forall|a: int, b: int| 0 <= a < b < s.len() implies #[trigger] s[a] < #[trigger] s[b] by {
                if a == 0 {
                    assert(s[b] == ne[b - 1]);
                } else {
                    assert(s[a] == ne[a - 1] && s[b] == ne[b - 1]);
                }
            }
        }
        LineIndex { line_starts }
    }

    /// The 1-based line and the column of a byte offset.
    pub fn offset_to_position(&self, offset: usize) -> (r: (usize, usize))
        ensures
            starts_wf(self.starts()),
            is_position(self.starts(), offset, r),
    {
        proof {
            use_type_invariant(self);
        }
        let s = &self.line_starts;
        let mut lo: usize = 0;
        let mut hi: usize = s.len();
        while lo + 1 < hi
            invariant
                starts_wf(s@),
                0 <= lo < hi <= s.len(),
                s[lo as int] <= offset,
                hi < s.len() ==> offset < s[hi as int],
            decreases hi - lo,
        {
            let mid = lo + (hi - lo) / 2;
            if s[mid] <= offset {
                lo = mid;
            } else {
                hi = mid;
            }
        }
        (lo + 1, offset - s[lo])
    }
}

/// A span of source text, as byte offsets.
#[derive(Debug, Clone, Copy, PartialEq, Eq, Structural)]
pub struct Span {
    pub start: usize,
    pub end: usize,
}

/// Nodes whose source location can be computed from a line index.
pub trait SourceLocationExt {
    fn source_location(&self, index: &LineIndex) -> SourceLocation;
}

/// The location of a span: the positions of its start and of its end.
pub fn span_location(index: &LineIndex, span: Span) -> (r: SourceLocation)
    ensures
        is_position(index.starts(), span.start, (r.line, r.col)),
        is_position(index.starts(), span.end, (r.end_line, r.end_col)),
{
    let (start_line, start_col) = index.offset_to_position(span.start);
    let (end_line, end_col) = index.offset_to_position(span.end);
    SourceLocation::new(start_line, start_col, end_line, end_col)
}

impl SourceLocationExt for Span {
    fn source_location(&self, index: &LineIndex) -> SourceLocation {
        span_location(index, *self)
    }
}

/// The location of a module: from the start of its first statement to the end of its
/// last one; an empty module is at line 1, column 0.
pub fn module_location(index: &LineIndex, body: &[Span]) -> (r: SourceLocation)
    ensures
        body@.len() == 0 ==> r == (SourceLocation { line: 1, col: 0, end_line: 1, end_col: 0 }),
        body@.len() > 0 ==> is_position(index.starts(), body@[0].start, (r.line, r.col))
            && is_position(index.starts(), body@.last().end, (r.end_line, r.end_col)),
{
    if body.len() == 0 {
        return SourceLocation::new(1, 0, 1, 0);
    }
    let first = body[0];
    let last = body[body.len() - 1];
    let (start_line, start_col) = index.offset_to_position(first.start);
    let (end_line, end_col) = index.offset_to_position(last.end);
    SourceLocation::new(start_line, start_col, end_line, end_col)
}

/// A rough location from byte offsets alone, taking every line to be 80 bytes long.
pub fn location_from_range(start: usize, end: usize) -> (r: SourceLocation)
    ensures
        r == (SourceLocation {
            line: (start / 80 + 1) as usize,
            col: start % 80,
            end_line: (end / 80 + 1) as usize,
            end_col: end % 80,
        }),
{
    SourceLocation::new(start / 80 + 1, start % 80, end / 80 + 1, end % 80)
}

} // verus!
