use vstd::prelude::*;

verus! {

use crate::line_table::{
    LineTable,
    line_of,
    lemma_line_of_bounds,
    lemma_line_of_in_range,
    lemma_ends_nondecreasing,
};

/// Whether the fan-out of match `m` over the lines of `t` touches line
/// `l`: the walk starts at the line containing `m.0` and keeps advancing
/// while the end of the line before `l` still lies short of `m.1`.
pub open spec fn covers(t: LineTable, m: (usize, usize), l: int) -> bool {
    let first = line_of(t.starts(), m.0 as int);
    &&& first <= l < t.spec_len()
    &&& (l == first || t.spec_bounds(l - 1).1 < m.1 as int)
}

/// Match `m` clipped against the bounds of line `l`.
pub open spec fn clip(t: LineTable, m: (usize, usize), l: int) -> (usize, usize) {
    let b = t.spec_bounds(l);
    (
        if (m.0 as int) > b.0 {
            m.0
        } else {
            b.0 as usize
        },
        if (m.1 as int) < b.1 {
            m.1
        } else {
            b.1 as usize
        },
    )
}

/// The highlight entries of line `l`: every match that covers `l`, in
/// match order, clipped to the line.  Duplicates are kept.
pub open spec fn line_ranges(t: LineTable, ms: Seq<(usize, usize)>, l: int) -> Seq<(usize, usize)> {
    ms.filter(|m: (usize, usize)| covers(t, m, l)).map_values(|m: (usize, usize)| clip(t, m, l))
}

/// The line on which the fan-out walk beginning at line `l` stops for a
/// match ending at `m1`: the first line from `l` on whose end reaches
/// `m1`, clamped to the final line.
pub open spec fn stop_line(t: LineTable, m1: int, l: int) -> int
    decreases t.spec_len() - l,
{
    if l >= t.spec_len() - 1 || t.spec_bounds(l).1 >= m1 {
        l
    } else {
        stop_line(t, m1, l + 1)
    }
}

/// The total number of line advances the fan-out performs for `ms`: for
/// each match, the distance from its first line to its stop line.
pub open spec fn advance_count(t: LineTable, ms: Seq<(usize, usize)>) -> int
    decreases ms.len(),
{
    if ms.len() == 0 {
        0
    } else {
        let m = ms.last();
        let first = line_of(t.starts(), m.0 as int);
        advance_count(t, ms.drop_last()) + (stop_line(t, m.1 as int, first) - first)
    }
}

/// Appending a match extends exactly the lines it covers, each by its
/// clipped range.
proof fn lemma_line_ranges_push(t: LineTable, ms: Seq<(usize, usize)>, m: (usize, usize), l: int)
    ensures
        line_ranges(t, ms.push(m), l) == if covers(t, m, l) {
            line_ranges(t, ms, l).push(clip(t, m, l))
        } else {
            line_ranges(t, ms, l)
        },
{
    reveal_with_fuel(Seq::filter, 2);
    let pred = |x: (usize, usize)| covers(t, x, l);
    let f = |x: (usize, usize)| clip(t, x, l);
    assert(ms.push(m).drop_last() =~= ms);
    assert(ms.push(m).last() == m);
    if pred(m) {
        assert(ms.push(m).filter(pred) =~= ms.filter(pred).push(m));
        assert(ms.filter(pred).push(m).map_values(f) =~= ms.filter(pred).map_values(f).push(f(m)));
    } else {
        assert(ms.push(m).filter(pred) =~= ms.filter(pred));
    }
}

/// A clipped range of a covered line lies inside that line, with its start
/// not past its end.
proof fn lemma_clip_in_line(t: LineTable, m: (usize, usize), l: int)
    requires
        t.wf(),
        covers(t, m, l),
        m.0 <= m.1 <= t.spec_buffer_len(),
    ensures
        t.spec_bounds(l).0 <= clip(t, m, l).0 <= clip(t, m, l).1 <= t.spec_bounds(l).1,
{
    let starts = t.starts();
    let first = line_of(starts, m.0 as int);
    lemma_line_of_bounds(starts, m.0 as int);
    lemma_line_of_in_range(starts, m.0 as int);
    lemma_ends_nondecreasing(t);
    if l == first {
        assert(t.spec_bounds(l).0 == starts[first] <= m.0 as int);
        if first < t.spec_len() - 1 {
            assert((m.0 as int) < starts[first + 1]);
        }
    } else {
        assert(t.spec_bounds(l - 1).1 < m.1 as int);
        assert(t.spec_bounds(l).0 == t.spec_bounds(l - 1).1);
        if first < t.spec_len() - 1 {
            assert((m.0 as int) < starts[first + 1] == t.spec_bounds(first).1);
            assert(t.spec_bounds(first).1 <= t.spec_bounds(l - 1).1);
        }
    }
}

/// Every highlight entry of `line_ranges` lies inside its line.
pub proof fn lemma_line_ranges_wf(t: LineTable, ms: Seq<(usize, usize)>, l: int)
    requires
        t.wf(),
        forall|k: int| 0 <= k < ms.len() ==> (#[trigger] ms[k]).0 <= ms[k].1 <= t.spec_buffer_len(),
    ensures
        forall|k: int|
            0 <= k < line_ranges(t, ms, l).len() ==> t.spec_bounds(l).0 <= (#[trigger] line_ranges(
                t,
                ms,
                l,
            )[k]).0 <= line_ranges(t, ms, l)[k].1 <= t.spec_bounds(l).1,
    decreases ms.len(),
{
    if ms.len() == 0 {
        reveal_with_fuel(Seq::filter, 1);
        assert(line_ranges(t, ms, l) =~= Seq::<(usize, usize)>::empty());
    } else {
        let prefix = ms.drop_last();
        let m = ms.last();
        assert(prefix.push(m) =~= ms);
        lemma_line_ranges_push(t, prefix, m, l);
        lemma_line_ranges_wf(t, prefix, l);
        if covers(t, m, l) {
            lemma_clip_in_line(t, m, l);
        }
    }
}

/// Per-line lists of highlighted byte ranges, index-aligned with a
/// `LineTable`; rebuilt whenever the buffer changes or a highlight command
/// runs.
pub struct HighlightTable {
    ranges: Vec<Vec<(usize, usize)>>,
}

impl HighlightTable {
    /// One list of ranges per line.
    pub closed spec fn lines(&self) -> Seq<Seq<(usize, usize)>> {
        self.ranges@.map_values(|v: Vec<(usize, usize)>| v@)
    }

    /// The table holds exactly the fan-out of `ms` over the lines of `t`.
    pub open spec fn wf_for(&self, t: LineTable, ms: Seq<(usize, usize)>) -> bool {
        &&& self.lines().len() == t.spec_len()
        &&& forall|l: int| 0 <= l < t.spec_len() ==> self.lines()[l] == line_ranges(t, ms, l)
    }

    /// Every stored range lies inside its line's bounds.
    pub open spec fn wf(&self, t: LineTable) -> bool {
        &&& self.lines().len() == t.spec_len()
        &&& forall|l: int, k: int|
            0 <= l < self.lines().len() && 0 <= k < self.lines()[l].len() ==> t.spec_bounds(l).0 <= (
            #[trigger] self.lines()[l][k]).0 <= self.lines()[l][k].1 <= t.spec_bounds(l).1
    }

    /// An all-empty table for `n_lines` lines, the cleared state.
    pub fn empty(n_lines: usize) -> (h: HighlightTable)
        ensures
            h.lines().len() == n_lines,
            forall|l: int| 0 <= l < n_lines ==> #[trigger] h.lines()[l] == Seq::<(
                usize,
                usize,
            )>::empty(),
    {
        let mut ranges: Vec<Vec<(usize, usize)>> = Vec::new();
        let mut i: usize = 0;
        while i < n_lines
            invariant
                i <= n_lines,
                ranges@.len() == i,
                forall|l: int|
                    0 <= l < i ==> #[trigger] ranges@[l]@ == Seq::<(usize, usize)>::empty(),
            decreases n_lines - i,
        {
            ranges.push(Vec::new());
            i = i + 1;
        }
        HighlightTable { ranges }
    }

    /// The empty table is the fan-out of an empty match list, and is
    /// well formed for any table of the same line count.
    pub proof fn lemma_empty_wf(&self, t: LineTable)
        requires
            self.lines().len() == t.spec_len(),
            forall|l: int| 0 <= l < self.lines().len() ==> #[trigger] self.lines()[l] == Seq::<(
                usize,
                usize,
            )>::empty(),
        ensures
            self.wf_for(t, Seq::empty()),
            self.wf(t),
    {
        reveal_with_fuel(Seq::filter, 1);
        assert forall|l: int| 0 <= l < t.spec_len() implies self.lines()[l] == line_ranges(
            t,
            Seq::empty(),
            l,
        ) by {
            assert(line_ranges(t, Seq::<(usize, usize)>::empty(), l) =~= Seq::<(
                usize,
                usize,
            )>::empty());
        }
    }

    /// Fan the matches out over the lines of `t`: walk each match from the
    /// line containing its start, clipping it against every line it
    /// covers, and count the total number of line advances.  Returns the
    /// table and that count (clamped at the machine limit).
    pub fn build(t: &LineTable, matches: &Vec<(usize, usize)>) -> (r: (HighlightTable, usize))
        requires
            t.wf(),
            forall|k: int|
                0 <= k < matches@.len() ==> (#[trigger] matches@[k]).0 <= matches@[k].1
                    <= t.spec_buffer_len(),
        ensures
            r.0.wf_for(*t, matches@),
            r.0.wf(*t),
            r.1 as int == if advance_count(*t, matches@) <= usize::MAX as int {
                advance_count(*t, matches@)
            } else {
                usize::MAX as int
            },
    {
        let ghost ms = matches@;
        let n = t.len();
        let mut table = HighlightTable::empty(n);
        proof {
            table.lemma_empty_wf(*t);
            assert(ms.take(0) =~= Seq::<(usize, usize)>::empty());
        }
        let mut lines_count: usize = 0;
        let mut mi: usize = 0;
        while mi < matches.len()
            invariant
                t.wf(),
                n == t.spec_len(),
                ms == matches@,
                forall|k: int| 0 <= k < ms.len() ==> (#[trigger] ms[k]).0 <= ms[k].1
                    <= t.spec_buffer_len(),
                mi <= ms.len(),
                table.lines().len() == t.spec_len(),
                forall|l: int|
                    0 <= l < t.spec_len() ==> #[trigger] table.lines()[l] == line_ranges(
                        *t,
                        ms.take(mi as int),
                        l,
                    ),
                lines_count as int == if advance_count(*t, ms.take(mi as int)) <= usize::MAX as int {
                    advance_count(*t, ms.take(mi as int))
                } else {
                    usize::MAX as int
                },
            decreases ms.len() - mi,
        {
            let m = matches[mi];
            let first = t.get_line_at(m.0);
            // Find the line on which the walk for this match stops.
            let mut stop = first;
            while stop < n - 1 && t.get_bounds(stop).1 < m.1
                invariant
                    t.wf(),
                    n == t.spec_len(),
                    first <= stop < n,
                    stop_line(*t, m.1 as int, stop as int) == stop_line(
                        *t,
                        m.1 as int,
                        first as int,
                    ),
                    forall|l: int|
                        first <= l < stop ==> #[trigger] t.spec_bounds(l).1 < m.1 as int,
                decreases n - stop,
            {
                stop = stop + 1;
            }
            proof {
                assert(stop_line(*t, m.1 as int, stop as int) == stop);
            }
            // Clip the match against every covered line.
            let mut l = first;
            while l <= stop
                invariant
                    t.wf(),
                    n == t.spec_len(),
                    ms == matches@,
                    mi < ms.len(),
                    m == ms[mi as int],
                    m.0 <= m.1 <= t.spec_buffer_len(),
                    first == line_of(t.starts(), m.0 as int),
                    first <= l <= stop + 1,
                    stop < n,
                    table.lines().len() == t.spec_len(),
                    forall|x: int|
                        0 <= x < t.spec_len() && !(first <= x < l) ==> #[trigger] table.lines()[x]
                            == line_ranges(*t, ms.take(mi as int), x),
                    forall|x: int|
                        first <= x < l ==> #[trigger] table.lines()[x] == line_ranges(
                            *t,
                            ms.take(mi as int),
                            x,
                        ).push(clip(*t, ms[mi as int], x)),
                decreases stop + 1 - l,
            {
                let b = t.get_bounds(l);
                let s = if b.0 < m.0 {
                    m.0
                } else {
                    b.0
                };
                let e = if b.1 > m.1 {
                    m.1
                } else {
                    b.1
                };
                proof {
                    assert((s, e) == clip(*t, ms[mi as int], l as int));
                }
                let ghost before = table.lines();
                table.ranges[l].push((s, e));
                proof {
                    assert(table.lines() =~= before.update(
                        l as int,
                        before[l as int].push((s, e)),
                    ));
                }
                l = l + 1;
            }
            proof {
                let first_i = first as int;
                let stop_i = stop as int;
                let m_i = ms[mi as int];
                lemma_ends_nondecreasing(*t);
                // The walked lines are exactly the covered ones.
                assert forall|x: int| 0 <= x < t.spec_len() implies (covers(*t, m_i, x) <==> (
                first_i <= x <= stop_i)) by {
                    if first_i <= x <= stop_i {
                        if x > first_i {
                            assert(t.spec_bounds(x - 1).1 < m_i.1 as int);
                        }
                    }
                    if covers(*t, m_i, x) && x > stop_i {
                        assert(t.spec_bounds(stop_i).1 <= t.spec_bounds(x - 1).1);
                    }
                }
                assert(ms.take(mi + 1) =~= ms.take(mi as int).push(m_i));
                assert forall|x: int| 0 <= x < t.spec_len() implies #[trigger] table.lines()[x]
                    == line_ranges(*t, ms.take(mi + 1), x) by {
                    lemma_line_ranges_push(*t, ms.take(mi as int), m_i, x);
                }
                lemma_advance_count_take(*t, ms, mi as int);
            }
            let d = stop - first;
            lines_count = lines_count.saturating_add(d);
            mi = mi + 1;
        }
        proof {
            assert(ms.take(ms.len() as int) =~= ms);
            assert forall|l: int, k: int|
                0 <= l < table.lines().len() && 0 <= k < table.lines()[l].len() implies t
                .spec_bounds(l).0 <= (#[trigger] table.lines()[l][k]).0 <= table.lines()[l][k].1
                <= t.spec_bounds(l).1 by {
                lemma_line_ranges_wf(*t, ms, l);
            }
        }
        (table, lines_count)
    }

    /// The number of lines the table carries entries for.
    pub fn len(&self) -> (n: usize)
        ensures
            n == self.lines().len(),
    {
        self.ranges.len()
    }

    /// The highlighted ranges of line `l`, in discovery order.
    pub fn line(&self, l: usize) -> (r: &Vec<(usize, usize)>)
        requires
            l < self.lines().len(),
        ensures
            r@ == self.lines()[l as int],
    {
        &self.ranges[l]
    }
}

/// One step of `advance_count` along a prefix of the match list.
proof fn lemma_advance_count_take(t: LineTable, ms: Seq<(usize, usize)>, mi: int)
    requires
        0 <= mi < ms.len(),
    ensures
        advance_count(t, ms.take(mi + 1)) == advance_count(t, ms.take(mi)) + (stop_line(
            t,
            ms[mi].1 as int,
            line_of(t.starts(), ms[mi].0 as int),
        ) - line_of(t.starts(), ms[mi].0 as int)),
{
    let pre = ms.take(mi + 1);
    assert(pre.drop_last() =~= ms.take(mi));
    assert(pre.last() == ms[mi]);
}

} // verus!
