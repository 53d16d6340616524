use vstd::prelude::*;

verus! {

use crate::NL;
use vstd::string::StringSliceAdditionalSpecFns;

/// The line-start offsets of a byte sequence: offset 0 always begins the
/// first line, and every line feed at offset `j - 1` begins a new line at
/// offset `j`.  The sequence is strictly increasing and never empty.
pub open spec fn line_starts(bytes: Seq<u8>) -> Seq<int>
    decreases bytes.len(),
{
    if bytes.len() == 0 {
        seq![0int]
    } else if bytes.last() == NL {
        line_starts(bytes.drop_last()).push(bytes.len() as int)
    } else {
        line_starts(bytes.drop_last())
    }
}

/// The greatest `i` with `starts[i] <= off`, or the last index when every
/// entry is at most `off`.  For a strictly increasing `starts` whose first
/// entry is 0, this is the line containing byte offset `off`, clamped to
/// the final line for offsets at or past the end.
pub open spec fn line_of(starts: Seq<int>, off: int) -> int
    decreases starts.len(),
{
    if starts.len() <= 1 || starts[1] > off {
        0
    } else {
        1 + line_of(starts.drop_first(), off)
    }
}

pub proof fn lemma_line_starts_shape(bytes: Seq<u8>)
    ensures
        line_starts(bytes).len() >= 1,
        line_starts(bytes)[0] == 0,
        forall|k: int, l: int|
            0 <= k < l < line_starts(bytes).len() ==> line_starts(bytes)[k] < line_starts(
                bytes,
            )[l],
        forall|k: int| 0 <= k < line_starts(bytes).len() ==> 0 <= #[trigger] line_starts(bytes)[k]
            <= bytes.len(),
    decreases bytes.len(),
{
    if bytes.len() == 0 {
    } else {
        lemma_line_starts_shape(bytes.drop_last());
    }
}

/// `line_of` undoes `line_starts`: the line containing the first offset of
/// line `i` is line `i` itself.
pub proof fn lemma_line_of_start(starts: Seq<int>, i: int)
    requires
        starts.len() >= 1,
        forall|k: int, l: int| 0 <= k < l < starts.len() ==> starts[k] < starts[l],
        0 <= i < starts.len(),
    ensures
        line_of(starts, starts[i]) == i,
    decreases starts.len(),
{
    if starts.len() <= 1 || starts[1] > starts[i] {
        assert(i == 0) by {
            if i > 0 {
                assert(starts[1] <= starts[i]);
            }
        }
    } else {
        assert(i >= 1) by {
            if i == 0 {
                assert(starts[0] < starts[1]);
            }
        }
        let tail = starts.drop_first();
        assert forall|k: int, l: int| 0 <= k < l < tail.len() implies tail[k] < tail[l] by {
            assert(tail[k] == starts[k + 1] && tail[l] == starts[l + 1]);
        }
        lemma_line_of_start(tail, i - 1);
        assert(tail[i - 1] == starts[i]);
    }
}

/// `line_of` always lands inside the sequence.
pub proof fn lemma_line_of_in_range(starts: Seq<int>, off: int)
    requires
        starts.len() >= 1,
    ensures
        0 <= line_of(starts, off) < starts.len(),
    decreases starts.len(),
{
    if starts.len() <= 1 || starts[1] > off {
    } else {
        lemma_line_of_in_range(starts.drop_first(), off);
    }
}

/// A table of line-start byte offsets into a text buffer, rebuilt from
/// scratch whenever the buffer changes.
pub struct LineTable {
    indices: Vec<usize>,
    buffer_len: usize,
}

impl LineTable {
    /// The stored offsets, as mathematical integers.
    pub closed spec fn starts(&self) -> Seq<int> {
        self.indices@.map_values(|v: usize| v as int)
    }

    pub closed spec fn spec_buffer_len(&self) -> int {
        self.buffer_len as int
    }

    /// The table is exactly the line index of `bytes`.
    pub open spec fn wf_for(&self, bytes: Seq<u8>) -> bool {
        &&& self.starts() == line_starts(bytes)
        &&& self.spec_buffer_len() == bytes.len()
    }

    /// Internal consistency: at least one line, first start 0, strictly
    /// increasing starts, all within the buffer.
    pub open spec fn wf(&self) -> bool {
        &&& 0 <= self.spec_buffer_len() <= usize::MAX
        &&& self.starts().len() >= 1
        &&& self.starts()[0] == 0
        &&& forall|k: int, l: int|
            0 <= k < l < self.starts().len() ==> self.starts()[k] < self.starts()[l]
        &&& forall|k: int|
            0 <= k < self.starts().len() ==> 0 <= #[trigger] self.starts()[k]
                <= self.spec_buffer_len()
    }

    pub proof fn lemma_wf_for_implies_wf(&self, bytes: Seq<u8>)
        requires
            self.wf_for(bytes),
        ensures
            self.wf(),
    {
        lemma_line_starts_shape(bytes);
    }

    pub open spec fn spec_len(&self) -> int {
        self.starts().len() as int
    }

    /// The half-open byte range of line `i`: it ends where the next line
    /// starts, or at the end of the buffer for the final line.
    pub open spec fn spec_bounds(&self, i: int) -> (int, int) {
        (
            self.starts()[i],
            if i == self.spec_len() - 1 {
                self.spec_buffer_len()
            } else {
                self.starts()[i + 1]
            },
        )
    }

    /// Scan the buffer once for line feeds and record where each line
    /// starts.
    pub fn new(buffer: &str) -> (t: LineTable)
        ensures
            t.wf_for(buffer.spec_bytes()),
            t.wf(),
    {
        let bytes: Vec<u8> = buffer.as_bytes_vec();
        let n = bytes.len();
        let mut indices: Vec<usize> = Vec::new();
        indices.push(0);
        proof {
            assert(buffer.spec_bytes().take(0) =~= Seq::<u8>::empty());
            assert(indices@.map_values(|v: usize| v as int) =~= line_starts(
                buffer.spec_bytes().take(0),
            ));
        }
        for i in 0..n
            invariant
                n == bytes.len(),
                bytes@ == buffer.spec_bytes(),
                indices@.map_values(|v: usize| v as int) == line_starts(bytes@.take(i as int)),
        {
            if bytes[i] == NL {
                indices.push(i + 1);
            }
            proof {
                let pre = bytes@.take(i as int);
                let cur = bytes@.take(i + 1);
                assert(cur.drop_last() =~= pre);
                assert(cur.last() == bytes@[i as int]);
                if bytes@[i as int] == NL {
                    assert(indices@.map_values(|v: usize| v as int) =~= line_starts(pre).push(
                        i + 1,
                    ));
                } else {
                    assert(indices@.map_values(|v: usize| v as int) =~= line_starts(pre));
                }
            }
        }
        proof {
            assert(bytes@.take(n as int) =~= bytes@);
        }
        let t = LineTable { indices, buffer_len: n };
        proof {
            t.lemma_wf_for_implies_wf(buffer.spec_bytes());
        }
        t
    }

    /// The byte range of line `line`, per `spec_bounds`.
    pub fn get_bounds(&self, line: usize) -> (r: (usize, usize))
        requires
            self.wf(),
            line < self.spec_len(),
        ensures
            (r.0 as int, r.1 as int) == self.spec_bounds(line as int),
            r.0 <= r.1 <= self.spec_buffer_len(),
    {
        let start = self.indices[line];
        let next_start = if line == self.indices.len() - 1 {
            self.buffer_len
        } else {
            self.indices[line + 1]
        };
        proof {
            if (line as int) < self.spec_len() - 1 {
                assert(self.starts()[line as int] < self.starts()[line as int + 1]);
            }
            assert(self.starts()[line as int] <= self.spec_buffer_len());
        }
        (start, next_start)
    }

    /// The number of lines, always at least 1.
    pub fn len(&self) -> (n: usize)
        ensures
            n == self.spec_len(),
    {
        self.indices.len()
    }

    /// The index of the line containing byte offset `offset`: the greatest
    /// line whose start is at most `offset`, which clamps offsets at or
    /// past the buffer end to the final line.
    pub fn get_line_at(&self, offset: usize) -> (r: usize)
        requires
            self.wf(),
        ensures
            r == line_of(self.starts(), offset as int),
            r < self.spec_len(),
    {
        let ghost starts = self.starts();
        let n = self.indices.len();
        let mut i: usize = 0;
        proof {
            assert(starts.skip(0) =~= starts);
        }
        while i < n - 1
            invariant
                self.wf(),
                n == self.spec_len(),
                0 <= i < n,
                starts == self.starts(),
                line_of(starts, offset as int) == i + line_of(starts.skip(i as int), offset as int),
                starts.skip(i as int)[0] <= offset,
            decreases n - i,
        {
            if self.indices[i + 1] > offset {
                proof {
                    lemma_line_of_head(starts.skip(i as int), offset as int);
                }
                return i;
            }
            proof {
                let tail = starts.skip(i as int);
                assert(tail[1] == starts[i + 1]);
                assert(tail.drop_first() =~= starts.skip(i + 1));
            }
            i = i + 1;
        }
        proof {
            lemma_line_of_head(starts.skip(i as int), offset as int);
        }
        i
    }

    /// The lines from `start_line` through the last line, each paired with
    /// its byte range: the tail of the table, materialized in order.
    pub fn iter(&self, start_line: usize) -> (r: Vec<(usize, (usize, usize))>)
        requires
            self.wf(),
        ensures
            start_line < self.spec_len() ==> r@.len() == self.spec_len() - start_line,
            start_line >= self.spec_len() ==> r@.len() == 0,
            forall|k: int|
                0 <= k < r@.len() ==> #[trigger] r@[k].0 == start_line + k && (
                r@[k].1.0 as int,
                r@[k].1.1 as int,
                ) == self.spec_bounds(start_line + k),
    {
        let mut r: Vec<(usize, (usize, usize))> = Vec::new();
        let n = self.indices.len();
        let mut line = start_line;
        while line < n
            invariant
                self.wf(),
                n == self.spec_len(),
                start_line <= line,
                start_line < n ==> line <= n,
                start_line >= n ==> line == start_line,
                r@.len() == line - start_line,
                forall|k: int|
                    0 <= k < r@.len() ==> #[trigger] r@[k].0 == start_line + k && (
                    r@[k].1.0 as int,
                    r@[k].1.1 as int,
                    ) == self.spec_bounds(start_line + k),
            decreases n - line,
        {
            let bounds = self.get_bounds(line);
            r.push((line, bounds));
            line = line + 1;
        }
        r
    }
}

/// The line that `line_of` picks indeed contains the offset: it starts at
/// or before `off`, and the next line (if any) starts after it.
pub proof fn lemma_line_of_bounds(starts: Seq<int>, off: int)
    requires
        starts.len() >= 1,
        forall|k: int, l: int| 0 <= k < l < starts.len() ==> starts[k] < starts[l],
        starts[0] <= off,
    ensures
        starts[line_of(starts, off)] <= off,
        line_of(starts, off) < starts.len() - 1 ==> off < starts[line_of(starts, off) + 1],
    decreases starts.len(),
{
    if starts.len() <= 1 || starts[1] > off {
    } else {
        let tail = starts.drop_first();
        assert forall|k: int, l: int| 0 <= k < l < tail.len() implies tail[k] < tail[l] by {
            assert(tail[k] == starts[k + 1] && tail[l] == starts[l + 1]);
        }
        lemma_line_of_bounds(tail, off);
        lemma_line_of_in_range(tail, off);
        let j = line_of(tail, off);
        assert(tail[j] == starts[j + 1]);
        if j < tail.len() - 1 {
            assert(tail[j + 1] == starts[j + 2]);
        }
    }
}

/// Line ends never decrease as the line index grows.
pub proof fn lemma_ends_nondecreasing(t: LineTable)
    requires
        t.wf(),
    ensures
        forall|k: int, l: int|
            0 <= k <= l < t.spec_len() ==> #[trigger] t.spec_bounds(k).1 <= #[trigger] t.spec_bounds(
                l,
            ).1,
{
    assert forall|k: int, l: int| 0 <= k <= l < t.spec_len() implies #[trigger] t.spec_bounds(
        k,
    ).1 <= #[trigger] t.spec_bounds(l).1 by {
        if k < t.spec_len() - 1 && l < t.spec_len() - 1 {
            if k < l {
                assert(t.starts()[k + 1] < t.starts()[l + 1]);
            }
        } else if k < t.spec_len() - 1 && l == t.spec_len() - 1 {
            assert(t.starts()[k + 1] <= t.spec_buffer_len());
        }
    }
}

/// The concatenation of the byte ranges of the first `upto` lines of `t`,
/// in order.
pub open spec fn concat_lines(t: LineTable, bytes: Seq<u8>, upto: int) -> Seq<u8>
    decreases upto,
{
    if upto <= 0 {
        Seq::empty()
    } else {
        concat_lines(t, bytes, upto - 1) + bytes.subrange(
            t.spec_bounds(upto - 1).0,
            t.spec_bounds(upto - 1).1,
        )
    }
}

/// The line ranges of a table built for `bytes` partition `[0, bytes.len()]`
/// exactly: the first range starts at 0, each range begins where the one
/// before it ends, the last range ends at the buffer length, and
/// concatenating the ranges in order reproduces the buffer.
pub proof fn lemma_bounds_partition(t: LineTable, bytes: Seq<u8>)
    requires
        t.wf_for(bytes),
    ensures
        t.spec_bounds(0).0 == 0,
        t.spec_bounds(t.spec_len() - 1).1 == bytes.len(),
        forall|i: int|
            0 <= i < t.spec_len() - 1 ==> #[trigger] t.spec_bounds(i).1 == t.spec_bounds(i + 1).0,
        forall|i: int|
            0 <= i < t.spec_len() ==> #[trigger] t.spec_bounds(i).0 <= t.spec_bounds(i).1
                <= bytes.len(),
        concat_lines(t, bytes, t.spec_len()) == bytes,
{
    lemma_line_starts_shape(bytes);
    lemma_concat_lines_prefix(t, bytes, t.spec_len());
    assert(concat_lines(t, bytes, t.spec_len()) =~= bytes);
}

/// Concatenating the first `upto` line ranges yields the prefix of the
/// buffer that ends where line `upto - 1` ends.
proof fn lemma_concat_lines_prefix(t: LineTable, bytes: Seq<u8>, upto: int)
    requires
        t.wf_for(bytes),
        0 <= upto <= t.spec_len(),
    ensures
        upto == 0 ==> concat_lines(t, bytes, upto) == Seq::<u8>::empty(),
        upto > 0 ==> concat_lines(t, bytes, upto) =~= bytes.subrange(
            0,
            t.spec_bounds(upto - 1).1,
        ),
    decreases upto,
{
    lemma_line_starts_shape(bytes);
    if upto > 0 {
        lemma_concat_lines_prefix(t, bytes, upto - 1);
    }
}

/// The empty buffer still has one line, the empty one: its table holds
/// a single range `[0, 0)`.
pub proof fn lemma_empty_buffer_single_line(t: LineTable)
    requires
        t.wf_for(Seq::empty()),
    ensures
        t.spec_len() == 1,
        t.spec_bounds(0) == (0int, 0int),
{
}

/// The round trip of the two lookups: asking which line contains the first
/// offset of line `i` answers `i` itself.
pub proof fn lemma_line_at_round_trip(t: LineTable, i: int)
    requires
        t.wf(),
        0 <= i < t.spec_len(),
    ensures
        line_of(t.starts(), t.spec_bounds(i).0) == i,
{
    lemma_line_of_start(t.starts(), i);
}

/// When only one start remains, or the next start already lies past the
/// offset, the offset's line is the first remaining one.
proof fn lemma_line_of_head(starts: Seq<int>, off: int)
    requires
        starts.len() == 1 || (starts.len() > 1 && starts[1] > off),
    ensures
        line_of(starts, off) == 0,
{
}

} // verus!
