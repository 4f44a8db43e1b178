//! Sets of stream positions, kept as ranges.

use vstd::prelude::*;

verus! {

/// A set of positions: ranges of them, each from a position up to, not including, another,
/// in ascending order and with a gap between any two.
#[derive(Debug, Clone)]
pub struct Ranges {
    pub ranges: Vec<(u64, u64)>,
}

/// The positions from `start` up to, not including, `end`.
pub open spec fn span(start: int, end: int) -> Set<int> {
    Set::new(|p: int| start <= p < end)
}

/// The positions in some ranges.
pub open spec fn positions(ranges: Seq<(u64, u64)>) -> Set<int> {
    Set::new(
        |p: int|
            exists|i: int|
                0 <= i < ranges.len() && (#[trigger] ranges[i]).0 <= p < ranges[i].1,
    )
}

/// No range is empty, and each ends before the next begins, with a gap between them.
pub open spec fn separated(ranges: Seq<(u64, u64)>) -> bool {
    &&& forall|i: int| 0 <= i < ranges.len() ==> (#[trigger] ranges[i]).0 < ranges[i].1
    &&& forall|i: int, j: int|
        0 <= i < j < ranges.len() ==> (#[trigger] ranges[i]).1 < (#[trigger] ranges[j]).0
}

impl View for Ranges {
    type V = Set<int>;

    open spec fn view(&self) -> Set<int> {
        positions(self.ranges@)
    }
}

impl Ranges {
    pub open spec fn wf(&self) -> bool {
        separated(self.ranges@)
    }

    pub fn new() -> (r: Ranges)
        ensures
            r.wf(),
            r@ == Set::<int>::empty(),
    {
        let r = Ranges { ranges: Vec::new() };
        assert(r@ =~= Set::<int>::empty());
        r
    }

    /// Returns `true` if all positions from `start` up to, not including, `end` are in the
    /// set.
    pub fn covers(&self, start: u64, end: u64) -> (b: bool)
        requires
            self.wf(),
            start < end,
        ensures
            b == span(start as int, end as int).subset_of(self@),
    {
        let mut i: usize = 0;
        while i < self.ranges.len()
            invariant
                i <= self.ranges@.len(),
                self.wf(),
                start < end,
                forall|j: int|
                    0 <= j < i ==> !((#[trigger] self.ranges@[j]).0 <= start
                        < self.ranges@[j].1),
            decreases self.ranges@.len() - i,
        {
            let (low, high) = self.ranges[i];
            if low <= start && start < high {
                if end > high {
                    proof {
                        // The range ends inside the span, and no other one begins there.
                        assert(span(start as int, end as int).contains(high as int));
                        if self@.contains(high as int) {
                            let k = choose|k: int|
                                0 <= k < self.ranges@.len() && (#[trigger] self.ranges@[k]).0
                                    <= high < self.ranges@[k].1;
                            assert(self.ranges@[i as int] == (low, high));
                            assert(k != i);
                        }
                    }
                    return false;
                }
                proof {
                    assert forall|p: int| span(start as int, end as int).contains(p) implies
                        self@.contains(p) by {
                        assert(self.ranges@[i as int].0 <= p < self.ranges@[i as int].1);
                    }
                }
                return true;
            }
            i = i + 1;
        }
        assert(span(start as int, end as int).contains(start as int));
        assert(!self@.contains(start as int));
        false
    }

    /// Adds the positions from `start` up to, not including, `end`.
    pub fn insert(&mut self, start: u64, end: u64)
        requires
            old(self).wf(),
            start < end,
        ensures
            final(self).wf(),
            final(self)@ == old(self)@.union(span(start as int, end as int)),
    {
        let ghost all = self.ranges@;
        let mut out: Vec<(u64, u64)> = Vec::new();
        let mut low: u64 = start;
        let mut high: u64 = end;
        let mut placed: bool = false;
        let mut i: usize = 0;
        assert(positions(all.take(0)) =~= Set::<int>::empty());
        assert(positions(out@) =~= Set::<int>::empty());
        while i < self.ranges.len()
            invariant
                i <= self.ranges@.len(),
                self.ranges@ == all,
                separated(all),
                separated(out@),
                low < high,
                low <= start,
                end <= high,
                forall|j: int, k: int|
                    0 <= j < out@.len() && i <= k < all.len() ==> (#[trigger] out@[j]).1
                        < (#[trigger] all[k]).0,
                !placed ==> forall|j: int| 0 <= j < out@.len() ==> (#[trigger] out@[j]).1 < low,
                forall|p: int|
                    positions(out@).contains(p) || (!placed && low <= p < high)
                        <==> #[trigger] positions(all.take(i as int)).contains(p) || start <= p
                        < end,
            decreases self.ranges@.len() - i,
        {
            let r = self.ranges[i];
            let ghost before = out@;
            let ghost (placed_before, low_before, high_before) = (placed, low, high);
            proof {
                lemma_positions_push(all.take(i as int), r);
                assert(all.take(i + 1) =~= all.take(i as int).push(r));
            }
            if placed || r.1 < low {
                out.push(r);
                proof {
                    lemma_positions_push(before, r);
                }
            } else if r.0 > high {
                out.push((low, high));
                out.push(r);
                proof {
                    lemma_positions_push(before, (low, high));
                    lemma_positions_push(before.push((low, high)), r);
                    assert(out@ =~= before.push((low, high)).push(r));
                }
                placed = true;
            } else {
                if r.0 < low {
                    low = r.0;
                }
                if r.1 > high {
                    high = r.1;
                }
            }
            assert forall|p: int|
                positions(out@).contains(p) || (!placed && low <= p < high)
                    <==> #[trigger] positions(all.take(i + 1)).contains(p) || start <= p < end by {
                assert(positions(all.take(i as int).push(r)).contains(p) <==> positions(
                    all.take(i as int),
                ).contains(p) || r.0 <= p < r.1);
                assert(positions(before).contains(p) || (!placed_before && low_before <= p
                    < high_before) <==> positions(all.take(i as int)).contains(p) || start <= p
                    < end);
                assert(positions(before.push((low, high))).contains(p) || true);
                assert(positions(out@).contains(p) || true);
            }
            i = i + 1;
        }
        assert(all.take(i as int) =~= all);
        if !placed {
            let ghost before = out@;
            out.push((low, high));
            proof {
                lemma_positions_push(before, (low, high));
            }
        }
        self.ranges = out;
        assert forall|p: int| self@.contains(p) == positions(all).union(
            span(start as int, end as int),
        ).contains(p) by {
            assert(positions(all.take(i as int)).contains(p) == positions(all).contains(p));
        }
        assert(self@ =~= positions(all).union(span(start as int, end as int)));
    }
}

proof fn lemma_positions_push(ranges: Seq<(u64, u64)>, r: (u64, u64))
    ensures
        forall|p: int| #[trigger]
            positions(ranges.push(r)).contains(p) <==> positions(ranges).contains(p) || r.0 <= p
                < r.1,
{
    assert forall|p: int| #[trigger]
        positions(ranges.push(r)).contains(p) <==> positions(ranges).contains(p) || r.0 <= p
            < r.1 by {
        let more = ranges.push(r);
        if positions(ranges).contains(p) {
            let i = choose|i: int|
                0 <= i < ranges.len() && (#[trigger] ranges[i]).0 <= p < ranges[i].1;
            assert(more[i] == ranges[i]);
        }
        if r.0 <= p < r.1 {
            assert(more[ranges.len() as int] == r);
        }
        if positions(more).contains(p) {
            let i = choose|i: int|
                0 <= i < more.len() && (#[trigger] more[i]).0 <= p < more[i].1;
            if i < ranges.len() {
                assert(more[i] == ranges[i]);
            }
        }
    }
}

/// What was added stays: a span that was covered is covered after any other was added.
pub proof fn law_covered_stays_covered(set: Set<int>, a: int, b: int, start: int, end: int)
    requires
        span(a, b).subset_of(set),
    ensures
        span(a, b).subset_of(set.union(span(start, end))),
        span(start, end).subset_of(set.union(span(start, end))),
{
}

} // verus!
