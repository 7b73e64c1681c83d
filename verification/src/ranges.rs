//! Sets of packet numbers, kept as the ranges that an ACK frame lists.
use vstd::prelude::*;

verus! {

/// The packet numbers from `start` up to, not including, `end`.
#[derive(Clone, Copy, Debug, PartialEq, Eq, Structural)]
pub struct PktRange {
    pub start: u64,
    pub end: u64,
}

/// A set of packet numbers.
#[derive(Debug)]
pub struct RangeSet {
    pub ranges: Vec<PktRange>,
}

impl PktRange {
    pub open spec fn has(self, n: u64) -> bool {
        self.start <= n < self.end
    }
}

/// No range is empty, and a gap lies between each range and the next.
pub open spec fn ascending(s: Seq<PktRange>) -> bool {
    &&& forall|i: int| 0 <= i < s.len() ==> (#[trigger] s[i]).start < s[i].end
    &&& forall|i: int, j: int|
        0 <= i < j < s.len() ==> (#[trigger] s[i]).end < (#[trigger] s[j]).start
}

/// Some range of `s` holds `n`.
pub open spec fn listed(s: Seq<PktRange>, n: u64) -> bool {
    exists|i: int| 0 <= i < s.len() && (#[trigger] s[i]).has(n)
}

impl RangeSet {
    pub open spec fn wf(self) -> bool {
        ascending(self.ranges@)
    }

    /// `n` is in the set.
    pub open spec fn has(self, n: u64) -> bool {
        listed(self.ranges@, n)
    }

    /// The largest number of a set that is not empty.
    pub open spec fn largest(self) -> u64 {
        (self.ranges@.last().end - 1) as u64
    }

    pub fn new() -> (s: RangeSet)
        ensures
            s.wf(),
            forall|n: u64| !s.has(n),
            s.ranges@.len() == 0,
    {
        RangeSet { ranges: Vec::new() }
    }

    /// Adds the numbers from `start` up to, not including, `end`.
    pub fn insert(&mut self, start: u64, end: u64)
        requires
            old(self).wf(),
            start < end,
        ensures
            final(self).wf(),
            final(self).ranges@.len() > 0,
            forall|n: u64| #[trigger] final(self).has(n) <==> old(self).has(n) || start <= n < end,
    {
        let len = self.ranges.len();
        let ghost before = self.ranges@;
        let mut out: Vec<PktRange> = Vec::new();
        let mut i: usize = 0;
        while i < len && self.ranges[i].end < start
            invariant
                i <= len,
                len == self.ranges@.len(),
                self.ranges@ == before,
                ascending(before),
                out@ == before.take(i as int),
                forall|j: int| 0 <= j < i ==> (#[trigger] before[j]).end < start,
            decreases len - i,
        {
            out.push(self.ranges[i]);
            i = i + 1;
            assert(out@ =~= before.take(i as int));
        }
        let k = i;
        let mut lo = start;
        let mut hi = end;
        while i < len && self.ranges[i].start <= hi
            invariant
                k <= i <= len,
                len == self.ranges@.len(),
                self.ranges@ == before,
                ascending(before),
                lo <= start,
                end <= hi,
                k < len ==> start <= before[k as int].end,
                forall|j: int| 0 <= j < k ==> (#[trigger] before[j]).end < lo,
                forall|n: u64|
                    lo <= n < hi <==> start <= n < end || #[trigger] listed(
                        before.subrange(k as int, i as int),
                        n,
                    ),
            decreases len - i,
        {
            let r = self.ranges[i];
            let ghost part = before.subrange(k as int, i as int);
            let ghost more = before.subrange(k as int, i + 1);
            assert(r == before[i as int]);
            let ghost (lo0, hi0) = (lo, hi);
            assert(start <= r.end) by {
                if k < i {
                    assert(before[k as int].end < before[i as int].start);
                }
            }
            if r.start < lo {
                lo = r.start;
            }
            if r.end > hi {
                hi = r.end;
            }
            proof {
                assert forall|n: u64|
                    lo <= n < hi <==> start <= n < end || #[trigger] listed(more, n) by {
                    if listed(part, n) {
                        let j = choose|j: int| 0 <= j < part.len() && (#[trigger] part[j]).has(n);
                        assert(more[j] == part[j]);
                    }
                    if r.has(n) {
                        assert(more[i - k] == r);
                    }
                    if listed(more, n) {
                        let j = choose|j: int| 0 <= j < more.len() && (#[trigger] more[j]).has(n);
                        if j < i - k {
                            assert(part[j] == more[j]);
                        }
                    }
                    assert(lo0 <= n < hi0 <==> start <= n < end || listed(part, n));
                    if lo <= n < lo0 {
                        if k < i {
                            assert(before[k as int].end < before[i as int].start);
                            assert(lo0 <= start);
                            assert(part[0] == before[k as int]);
                            assert(part[0].has(before[k as int].start));
                            assert(listed(part, before[k as int].start));
                        }
                        assert(r.has(n));
                    }
                    if hi0 <= n < hi {
                        assert(r.has(n));
                    }
                }
            }
            i = i + 1;
        }
        out.push(PktRange { start: lo, end: hi });
        let m = i;
        while i < len
            invariant
                k <= m <= i <= len,
                len == self.ranges@.len(),
                self.ranges@ == before,
                out@ == before.take(k as int).push(PktRange { start: lo, end: hi })
                    + before.subrange(m as int, i as int),
            decreases len - i,
        {
            out.push(self.ranges[i]);
            i = i + 1;
            assert(before.subrange(m as int, i as int) =~= before.subrange(
                m as int,
                i - 1,
            ).push(before[i - 1]));
            assert(out@ =~= before.take(k as int).push(PktRange { start: lo, end: hi })
                + before.subrange(m as int, i as int));
        }
        self.ranges = out;
        proof {
            let after = self.ranges@;
            let mid = before.subrange(k as int, m as int);
            assert(after[k as int] == (PktRange { start: lo, end: hi }));
            assert(forall|j: int| 0 <= j < k ==> after[j] == before[j]);
            assert(forall|j: int| k < j < after.len() ==> after[j] == before[j - k - 1 + m]);
            if m < len {
                assert(hi < before[m as int].start);
            }
            assert(ascending(after));
            assert forall|n: u64| #[trigger]
                self.has(n) <==> listed(before, n) || start <= n < end by {
                assert(lo <= n < hi <==> start <= n < end || listed(mid, n));
                if listed(before, n) {
                    let j = choose|j: int| 0 <= j < before.len() && (#[trigger] before[j]).has(n);
                    if j < k {
                        assert(after[j].has(n));
                    } else if j < m {
                        assert(mid[j - k].has(n));
                        assert(after[k as int].has(n));
                    } else {
                        assert(after[j + k + 1 - m].has(n));
                    }
                }
                if listed(mid, n) {
                    let j = choose|j: int| 0 <= j < mid.len() && (#[trigger] mid[j]).has(n);
                    assert(before[j + k].has(n));
                }
                if start <= n < end {
                    assert(after[k as int].has(n));
                }
                if self.has(n) {
                    let j = choose|j: int| 0 <= j < after.len() && (#[trigger] after[j]).has(n);
                    if j < k {
                        assert(before[j].has(n));
                    } else if j > k {
                        assert(before[j - k - 1 + m].has(n));
                    }
                }
            }
        }
    }

    /// The largest number in the set.
    pub fn last(&self) -> (r: Option<u64>)
        requires
            self.wf(),
        ensures
            r is Some <==> self.ranges@.len() > 0,
            r matches Some(n) ==> {
                &&& n == self.largest()
                &&& self.has(n)
                &&& forall|x: u64| self.has(x) ==> x <= n
            },
    {
        let len = self.ranges.len();
        if len == 0 {
            return None;
        }
        let r = self.ranges[len - 1];
        let n = r.end - 1;
        proof {
            assert(self.ranges@[len - 1].has(n));
            assert forall|x: u64| self.has(x) implies x <= n by {
                let j = choose|j: int|
                    0 <= j < self.ranges@.len() && (#[trigger] self.ranges@[j]).has(x);
                if j < len - 1 {
                    assert(self.ranges@[j].end < self.ranges@[len - 1].start);
                }
            }
        }
        Some(n)
    }
}

} // verus!
