use vstd::prelude::*;
use vstd::string::*;
use vstd::utf8::*;
use crate::span::Span;

verus! {

/// Byte offsets at which the lines of `bytes[0..n]` start: offset 0, then the
/// offset just past each newline byte, in increasing order.
pub open spec fn line_starts_upto(bytes: Seq<u8>, n: nat) -> Seq<usize>
    decreases n,
{
    if n == 0 {
        seq![0usize]
    } else {
        let prev = line_starts_upto(bytes, (n - 1) as nat);
        if bytes[n - 1] == 10u8 {
            prev.push(n as usize)
        } else {
            prev
        }
    }
}

/// The line starts of a whole byte sequence.
pub open spec fn line_starts_of(bytes: Seq<u8>) -> Seq<usize> {
    line_starts_upto(bytes, bytes.len())
}

/// Number of newline bytes among the first `n` bytes.
pub open spec fn newlines_before(bytes: Seq<u8>, n: nat) -> nat
    decreases n,
{
    if n == 0 {
        0
    } else {
        newlines_before(bytes, (n - 1) as nat) + if bytes[n - 1] == 10u8 { 1nat } else { 0nat }
    }
}

/// Offset just past the last newline among the first `n` bytes, or 0 when there is none.
pub open spec fn last_line_start(bytes: Seq<u8>, n: nat) -> nat
    decreases n,
{
    if n == 0 {
        0
    } else if bytes[n - 1] == 10u8 {
        n
    } else {
        last_line_start(bytes, (n - 1) as nat)
    }
}

proof fn lemma_count_push(s: Seq<usize>, x: usize, pos: int)
    ensures
        count_at_most(s.push(x), pos) == count_at_most(s, pos) + if x <= pos { 1nat } else { 0nat },
{
    assert(s.push(x).drop_last() =~= s);
}

proof fn lemma_count_le(s: Seq<usize>, pos: int)
    ensures
        count_at_most(s, pos) <= s.len(),
    decreases s.len(),
{
    if s.len() > 0 {
        lemma_count_le(s.drop_last(), pos);
    }
}

proof fn lemma_count_all(s: Seq<usize>, pos: int)
    requires
        forall|i: int| 0 <= i < s.len() ==> s[i] <= pos,
    ensures
        count_at_most(s, pos) == s.len(),
    decreases s.len(),
{
    if s.len() > 0 {
        lemma_count_all(s.drop_last(), pos);
    }
}

proof fn lemma_starts_bounded(bytes: Seq<u8>, n: nat)
    requires
        n <= bytes.len(),
    ensures
        line_starts_upto(bytes, n).len() >= 1,
        forall|i: int| 0 <= i < line_starts_upto(bytes, n).len() ==> line_starts_upto(bytes, n)[i] <= n,
    decreases n,
{
    if n > 0 {
        lemma_starts_bounded(bytes, (n - 1) as nat);
    }
}

proof fn lemma_starts_count(bytes: Seq<u8>, n: nat, pos: int)
    requires
        n <= bytes.len(),
        bytes.len() <= usize::MAX,
        0 <= pos <= n,
    ensures
        count_at_most(line_starts_upto(bytes, n), pos) == 1 + newlines_before(bytes, pos as nat),
        line_starts_upto(bytes, n)[count_at_most(line_starts_upto(bytes, n), pos) - 1] == last_line_start(
            bytes,
            pos as nat,
        ),
    decreases n,
{
    let cur = line_starts_upto(bytes, n);
    if n == 0 {
        assert(cur == seq![0usize]);
        assert(seq![0usize].drop_last() =~= Seq::<usize>::empty());
        assert(count_at_most(Seq::<usize>::empty(), pos) == 0);
        assert(count_at_most(cur, pos) == 1);
    } else {
        let prev = line_starts_upto(bytes, (n - 1) as nat);
        lemma_starts_bounded(bytes, (n - 1) as nat);
        lemma_count_le(prev, pos);
        if pos < n {
            lemma_starts_count(bytes, (n - 1) as nat, pos);
            if bytes[n - 1] == 10u8 {
                assert(cur == prev.push(n as usize));
                lemma_count_push(prev, n as usize, pos);
                assert(cur[count_at_most(prev, pos) - 1] == prev[count_at_most(prev, pos) - 1]);
            }
        } else {
            // pos == n
            lemma_count_all(prev, pos);
            lemma_count_all(prev, pos - 1);
            if pos >= 1 {
                lemma_starts_count(bytes, (n - 1) as nat, pos - 1);
            }
            if bytes[n - 1] == 10u8 {
                assert(cur == prev.push(n as usize));
                lemma_count_push(prev, n as usize, pos);
                assert(cur[prev.len() as int] == n);
            }
        }
    }
}

/// Line and column of a byte offset within the text: the line is one more than the
/// number of newlines before the offset, and the line starts just past the last of them
/// (or at offset 0).
pub proof fn lemma_lines_count_newlines(bytes: Seq<u8>, pos: int)
    requires
        0 <= pos <= bytes.len(),
        bytes.len() <= usize::MAX,
    ensures
        count_at_most(line_starts_of(bytes), pos) == 1 + newlines_before(bytes, pos as nat),
        line_starts_of(bytes)[count_at_most(line_starts_of(bytes), pos) - 1] == last_line_start(bytes, pos as nat),
{
    lemma_starts_count(bytes, bytes.len(), pos);
}

/// Number of entries of `starts` that are at most `pos`: the 1-based line number of
/// byte offset `pos`.
pub open spec fn count_at_most(starts: Seq<usize>, pos: int) -> nat
    decreases starts.len(),
{
    if starts.len() == 0 {
        0
    } else {
        count_at_most(starts.drop_last(), pos) + if starts.last() <= pos { 1nat } else { 0nat }
    }
}

/// Strictly increasing sequence.
pub open spec fn strictly_increasing(s: Seq<usize>) -> bool {
    forall|i: int, j: int| 0 <= i < j < s.len() ==> s[i] < s[j]
}

/// Maps byte offsets of a source text to line and column numbers.
pub struct SourceMap {
    source: String,
    line_starts: Vec<usize>,
}

impl SourceMap {
    /// The UTF-8 bytes of the source text.
    pub closed spec fn bytes(&self) -> Seq<u8> {
        encode_utf8(self.source@)
    }

    /// The source text.
    pub closed spec fn text(&self) -> Seq<char> {
        self.source@
    }

    /// The byte offsets at which lines start.
    pub closed spec fn starts(&self) -> Seq<usize> {
        self.line_starts@
    }

    #[verifier::type_invariant]
    spec fn inv(&self) -> bool {
        &&& self.line_starts@ == line_starts_of(encode_utf8(self.source@))
        &&& encode_utf8(self.source@).len() < usize::MAX
    }

    /// Line number (1-based) of byte offset `pos`.
    pub open spec fn line_of(&self, pos: int) -> int {
        count_at_most(self.starts(), pos) as int
    }

    /// Byte offset at which the line holding `pos` starts.
    pub open spec fn line_start_of(&self, pos: int) -> int {
        self.starts()[self.line_of(pos) - 1] as int
    }

    /// Whether `byte_to_line_col(pos)` can compute its column without overflow.
    pub open spec fn col_fits(&self, pos: int) -> bool {
        pos - self.line_start_of(pos) + 1 <= usize::MAX
    }

    pub fn new(source: String) -> (sm: SourceMap)
        requires
            encode_utf8(source@).len() < usize::MAX,
        ensures
            sm.text() == source@,
            sm.bytes() == encode_utf8(source@),
            sm.starts() == line_starts_of(encode_utf8(source@)),
    {
        let bytes = source.as_str().as_bytes();
        let mut line_starts: Vec<usize> = Vec::new();
        line_starts.push(0);
        let mut i: usize = 0;
        while i < bytes.len()
            invariant
                i <= bytes@.len(),
                bytes@ == encode_utf8(source@),
                bytes@.len() < usize::MAX,
                line_starts@ == line_starts_upto(bytes@, i as nat),
            decreases bytes@.len() - i,
        {
            if bytes[i] == 10u8 {
                line_starts.push(i + 1);
            }
            i = i + 1;
        }
        SourceMap { source, line_starts }
    }

    proof fn lemma_starts_shape(bytes: Seq<u8>, n: nat)
        requires
            n <= bytes.len(),
            bytes.len() < usize::MAX,
        ensures
            line_starts_upto(bytes, n).len() >= 1,
            line_starts_upto(bytes, n)[0] == 0,
            strictly_increasing(line_starts_upto(bytes, n)),
            forall|k: int|
                0 <= k < line_starts_upto(bytes, n).len() ==> #[trigger] line_starts_upto(
                    bytes,
                    n,
                )[k] <= n,
            forall|k: int|
                1 <= k < line_starts_upto(bytes, n).len() ==> bytes[#[trigger] line_starts_upto(
                    bytes,
                    n,
                )[k] - 1] == 10u8,
            forall|p: int|
                0 <= p < n && bytes[p] == 10u8 ==> #[trigger] line_starts_upto(bytes, n).contains(
                    (p + 1) as usize,
                ),
        decreases n,
    {
        if n > 0 {
            Self::lemma_starts_shape(bytes, (n - 1) as nat);
            let prev = line_starts_upto(bytes, (n - 1) as nat);
            let cur = line_starts_upto(bytes, n);
            if bytes[n - 1] == 10u8 {
                assert(cur == prev.push(n as usize));
                assert forall|i: int, j: int| 0 <= i < j < cur.len() implies cur[i] < cur[j] by {
                    if j == cur.len() - 1 {
                        assert(prev[i] <= n - 1);
                    } else {
                        assert(prev[i] < prev[j]);
                    }
                }
                assert forall|k: int| 1 <= k < cur.len() implies bytes[#[trigger] cur[k] - 1]
                    == 10u8 by {
                    if k < cur.len() - 1 {
                        assert(cur[k] == prev[k]);
                    }
                }
            }
            assert forall|p: int| 0 <= p < n && bytes[p] == 10u8 implies #[trigger] cur.contains(
                (p + 1) as usize,
            ) by {
                if p < n - 1 {
                    assert(prev.contains((p + 1) as usize));
                    let k = choose|k: int| 0 <= k < prev.len() && prev[k] == (p + 1) as usize;
                    assert(cur[k] == prev[k]);
                } else {
                    assert(cur[cur.len() - 1] == (p + 1) as usize);
                }
            }
        }
    }

    proof fn lemma_count_at_most(starts: Seq<usize>, pos: int)
        requires
            strictly_increasing(starts),
            starts.len() >= 1,
            starts[0] <= pos,
        ensures
            1 <= count_at_most(starts, pos) <= starts.len(),
            starts[count_at_most(starts, pos) - 1] <= pos,
            count_at_most(starts, pos) < starts.len() ==> starts[count_at_most(
                starts,
                pos,
            ) as int] > pos,
            forall|k: int| 0 <= k < count_at_most(starts, pos) ==> starts[k] <= pos,
            forall|k: int| count_at_most(starts, pos) <= k < starts.len() ==> starts[k] > pos,
        decreases starts.len(),
    {
        if starts.len() > 1 {
            let d = starts.drop_last();
            assert(strictly_increasing(d));
            Self::lemma_count_at_most(d, pos);
            if starts.last() <= pos {
                assert forall|k: int| 0 <= k < starts.len() implies starts[k] <= pos by {
                    if k < starts.len() - 1 {
                        assert(starts[k] < starts[starts.len() - 1]);
                    }
                }
            } else {
                assert(count_at_most(starts, pos) == count_at_most(d, pos));
            }
        } else {
            assert(starts.drop_last().len() == 0);
            assert(count_at_most(starts.drop_last(), pos) == 0);
            assert(count_at_most(starts, pos) == 1);
        }
    }

    /// Number of line starts at or before `pos`, with the start of that line.
    fn locate(&self, pos: usize) -> (res: (usize, usize))
        ensures
            res.0 == self.line_of(pos as int),
            1 <= res.0 <= self.starts().len(),
            res.1 == self.line_start_of(pos as int),
            res.1 <= pos,
    {
        proof {
            use_type_invariant(self);
            Self::lemma_starts_shape(self.bytes(), self.bytes().len());
            Self::lemma_count_at_most(self.line_starts@, pos as int);
        }
        // Binary search for the number of line starts that are <= pos.
        let mut lo: usize = 0;
        let mut hi: usize = self.line_starts.len();
        while lo < hi
            invariant
                0 <= lo <= hi <= self.line_starts@.len(),
                strictly_increasing(self.line_starts@),
                forall|k: int| 0 <= k < lo ==> self.line_starts@[k] <= pos,
                forall|k: int| hi <= k < self.line_starts@.len() ==> self.line_starts@[k] > pos,
            decreases hi - lo,
        {
            let mid = lo + (hi - lo) / 2;
            if self.line_starts[mid] <= pos {
                lo = mid + 1;
            } else {
                hi = mid;
            }
        }
        let line = lo;
        proof {
            let c = count_at_most(self.line_starts@, pos as int);
            if (line as int) < c {
                assert(self.line_starts@[line as int] > pos);
            }
            if (line as int) > c {
                assert(self.line_starts@[c as int] <= pos);
            }
        }
        (line, self.line_starts[line - 1])
    }

    /// Given a byte offset, returns its (line, column), both 1-based: the line is the
    /// number of line starts at or before `pos`, the column is `pos` minus that line's
    /// start, plus one. Within the text, the line is one more than the number of
    /// newlines before `pos`, and the column counts the bytes since the last of them.
    pub fn byte_to_line_col(&self, pos: usize) -> (res: (usize, usize))
        requires
            self.col_fits(pos as int),
        ensures
            res.0 == self.line_of(pos as int),
            1 <= res.0 <= self.starts().len(),
            res.1 == pos - self.line_start_of(pos as int) + 1,
            res.1 >= 1,
            pos <= self.bytes().len() ==> res.0 == 1 + newlines_before(self.bytes(), pos as nat) && res.1 == pos
                - last_line_start(self.bytes(), pos as nat) + 1,
    {
        proof {
            use_type_invariant(self);
            if pos <= self.bytes().len() {
                lemma_lines_count_newlines(self.bytes(), pos as int);
            }
        }
        let (line, line_start) = self.locate(pos);
        let col = pos - line_start + 1;
        (line, col)
    }

    /// The line and column of a byte that is not a newline point back at that byte: line
    /// `line_of(pos)` exists, and its text (what `get_line` gives, without the newline)
    /// holds the byte at index `column - 1`.
    pub proof fn lemma_line_col_round_trip(&self, pos: int)
        requires
            self.starts() == line_starts_of(self.bytes()),
            self.bytes().len() < usize::MAX,
            0 <= pos < self.bytes().len(),
            self.bytes()[pos] != 10u8,
        ensures
            ({
                let l = self.line_of(pos);
                let start = self.starts()[l - 1] as int;
                let end: int = if l < self.starts().len() {
                    self.starts()[l] - 1
                } else {
                    self.bytes().len() as int
                };
                &&& 1 <= l <= self.starts().len()
                &&& start == self.line_start_of(pos)
                &&& start <= pos < end
                &&& self.bytes().subrange(start, end)[pos - start] == self.bytes()[pos]
            }),
    {
        let b = self.bytes();
        Self::lemma_starts_shape(b, b.len());
        Self::lemma_count_at_most(self.starts(), pos);
        let l = self.line_of(pos);
        if l < self.starts().len() {
            let nx = self.starts()[l] as int;
            assert(nx > pos);
            assert(b[nx - 1] == 10u8);
        }
    }

    /// Whether `span_to_line_col(span)` is defined, that is, computes its columns
    /// without overflow.
    pub fn can_locate(&self, span: Span) -> (res: bool)
        ensures
            res == self.span_fits(span),
    {
        let (_, s) = self.locate(span.start);
        let end_pos = if span.end > 0 { span.end - 1 } else { 0 };
        let (_, e) = self.locate(end_pos);
        span.start - s < usize::MAX && end_pos - e < usize::MAX - 1
    }

    /// Whether `span_to_line_col(span)` can compute both ends without overflow.
    pub open spec fn span_fits(&self, span: Span) -> bool {
        let end_pos: int = if span.end > 0 { span.end - 1 } else { 0 };
        &&& self.col_fits(span.start as int)
        &&& self.col_fits(end_pos)
        &&& end_pos - self.line_start_of(end_pos) + 2 <= usize::MAX
    }

    /// Converts a span into (start line, start column, end line, end column): the start
    /// is the position of `span.start`, the end is one column past the position of the
    /// last byte of the span (`span.end - 1`, or 0 for an empty span at 0).
    pub fn span_to_line_col(&self, span: Span) -> (res: (usize, usize, usize, usize))
        requires
            self.span_fits(span),
        ensures
            ({
                let end_pos: int = if span.end > 0 { span.end - 1 } else { 0 };
                &&& res.0 == self.line_of(span.start as int)
                &&& res.1 == span.start - self.line_start_of(span.start as int) + 1
                &&& res.2 == self.line_of(end_pos)
                &&& res.3 == end_pos - self.line_start_of(end_pos) + 2
            }),
            1 <= res.0 <= self.starts().len(),
            res.1 >= 1,
    {
        let (start_line, start_col) = self.byte_to_line_col(span.start);
        let end_pos = if span.end > 0 {
            span.end - 1
        } else {
            0
        };
        let (end_line, end_col) = self.byte_to_line_col(end_pos);
        (start_line, start_col, end_line, end_col + 1)
    }

    proof fn lemma_boundary_after_newline(bytes: Seq<u8>, i: int)
        requires
            valid_utf8(bytes),
            0 <= i < bytes.len(),
            bytes[i] == 10u8,
        ensures
            is_char_boundary(bytes, i + 1),
            is_char_boundary(bytes, i),
    {
        is_char_boundary_iff_not_is_continuation_byte(bytes, i);
        valid_utf8_split(bytes, i);
        let suffix = bytes.subrange(i, bytes.len() as int);
        assert(suffix[0] == 10u8);
        reveal_with_fuel(valid_utf8, 2);
        let rest = pop_first_scalar(suffix);
        assert(rest =~= bytes.subrange(i + 1, bytes.len() as int));
        if i + 1 < bytes.len() {
            is_char_boundary_start_end_of_seq(rest);
            is_char_boundary_iff_not_is_continuation_byte(rest, 0);
            assert(rest[0] == bytes[i + 1]);
            is_char_boundary_iff_not_is_continuation_byte(bytes, i + 1);
        } else {
            is_char_boundary_start_end_of_seq(bytes);
        }
    }

    /// Returns the text of line `line` (1-based) without its newline, or `None` when
    /// there is no such line.
    pub fn get_line(&self, line: usize) -> (res: Option<&str>)
        requires
            line >= 1,
        ensures
            line > self.starts().len() ==> res is None,
            line <= self.starts().len() ==> res is Some && ({
                let start = self.starts()[line - 1] as int;
                let end: int = if line < self.starts().len() {
                    self.starts()[line as int] - 1
                } else {
                    self.bytes().len() as int
                };
                res.unwrap().spec_bytes() == self.bytes().subrange(start, end)
            }),
    {
        proof {
            use_type_invariant(self);
            Self::lemma_starts_shape(self.bytes(), self.bytes().len());
        }
        if line - 1 >= self.line_starts.len() {
            return None;
        }
        let start = self.line_starts[line - 1];
        let s = self.source.as_str();
        let total = s.len();
        let end = if line < self.line_starts.len() {
            self.line_starts[line] - 1
        } else {
            total
        };
        proof {
            let b = self.bytes();
            encode_utf8_valid_utf8(self.source@);
            is_char_boundary_start_end_of_seq(b);
            if line - 1 > 0 {
                let k = (line - 1) as int;
                Self::lemma_boundary_after_newline(b, self.line_starts@[k] - 1);
            }
            if line < self.line_starts@.len() {
                Self::lemma_boundary_after_newline(b, self.line_starts@[line as int] - 1);
            }
        }
        let (head, _) = s.split_at(end);
        proof {
            let b = self.bytes();
            encode_utf8_valid_utf8(self.source@);
            valid_utf8_split(b, end as int);
            assert(head.spec_bytes() =~= b.subrange(0, end as int));
            encode_utf8_valid_utf8(head@);
            if start > 0 {
                let p = start - 1;
                Self::lemma_boundary_after_newline(head.spec_bytes(), p as int);
            } else {
                is_char_boundary_start_end_of_seq(head.spec_bytes());
            }
        }
        let (_, line_str) = head.split_at(start);
        proof {
            assert(line_str.spec_bytes() =~= self.bytes().subrange(start as int, end as int));
        }
        Some(line_str)
    }
}

} // verus!
