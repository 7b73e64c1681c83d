//! Selecting, counting and adding up the packets of a list.
use vstd::prelude::*;

use crate::frame::Frame;
use crate::sent::Acked;
use crate::sent::SentView;
use crate::time::Instant;

verus! {

/// The items of `s` whose position satisfies `keep`, in order.
pub open spec fn pick<T>(s: Seq<T>, keep: spec_fn(int) -> bool) -> Seq<T>
    decreases s.len(),
{
    if s.len() == 0 {
        Seq::empty()
    } else {
        let front = pick(s.drop_last(), keep);
        if keep(s.len() - 1) {
            front.push(s.last())
        } else {
            front
        }
    }
}

/// How many positions below `n` satisfy `keep`.
pub open spec fn count(n: int, keep: spec_fn(int) -> bool) -> nat
    decreases n,
{
    if n <= 0 {
        0
    } else if keep(n - 1) {
        count(n - 1, keep) + 1
    } else {
        count(n - 1, keep)
    }
}

/// The bytes of the packets of `s` whose position satisfies `keep`.
pub open spec fn bytes(s: Seq<SentView>, keep: spec_fn(int) -> bool) -> nat
    decreases s.len(),
{
    if s.len() == 0 {
        0
    } else if keep(s.len() - 1) {
        bytes(s.drop_last(), keep) + s.last().size as nat
    } else {
        bytes(s.drop_last(), keep)
    }
}

/// The first position from `from` on and below `n` that satisfies `stop`, or
/// `n` if none does.
pub open spec fn first_index(from: int, n: int, stop: spec_fn(int) -> bool) -> int
    decreases n - from,
{
    if from >= n {
        n
    } else if stop(from) {
        from
    } else {
        first_index(from + 1, n, stop)
    }
}

/// All the frames of the packets of `s`, in order.
pub open spec fn frames_in(s: Seq<SentView>) -> Seq<Frame>
    decreases s.len(),
{
    if s.len() == 0 {
        Seq::empty()
    } else {
        frames_in(s.drop_last()) + s.last().frames
    }
}

/// The records of the acknowledgement of each packet of `s` at time `now`.
pub open spec fn records(s: Seq<SentView>, now: Instant) -> Seq<Acked> {
    Seq::new(s.len(), |i: int| s[i].acked_at(now))
}

/// `a - b`, or zero if `b` is larger.
pub open spec fn less(a: usize, b: int) -> usize {
    if a >= b {
        (a - b) as usize
    } else {
        0
    }
}

pub proof fn lemma_pick_next<T>(s: Seq<T>, keep: spec_fn(int) -> bool, i: int)
    requires
        0 <= i < s.len(),
    ensures
        pick(s.take(i + 1), keep) == if keep(i) {
            pick(s.take(i), keep).push(s[i])
        } else {
            pick(s.take(i), keep)
        },
{
    assert(s.take(i + 1).drop_last() =~= s.take(i));
}

pub proof fn lemma_bytes_next(s: Seq<SentView>, keep: spec_fn(int) -> bool, i: int)
    requires
        0 <= i < s.len(),
    ensures
        bytes(s.take(i + 1), keep) == if keep(i) {
            bytes(s.take(i), keep) + s[i].size as nat
        } else {
            bytes(s.take(i), keep)
        },
{
    assert(s.take(i + 1).drop_last() =~= s.take(i));
}

/// Positions that are not kept add nothing.
pub proof fn lemma_pick_skip<T>(s: Seq<T>, keep: spec_fn(int) -> bool, a: int, b: int)
    requires
        0 <= a <= b <= s.len(),
        forall|i: int| a <= i < b ==> !(#[trigger] keep(i)),
    ensures
        pick(s.take(b), keep) == pick(s.take(a), keep),
    decreases b - a,
{
    if a < b {
        lemma_pick_skip(s, keep, a, b - 1);
        lemma_pick_next(s, keep, b - 1);
    }
}

/// A longer prefix of a list weighs no less.
pub proof fn lemma_bytes_skip(s: Seq<SentView>, keep: spec_fn(int) -> bool, a: int, b: int)
    requires
        0 <= a <= b <= s.len(),
    ensures
        bytes(s.take(a), keep) <= bytes(s.take(b), keep),
    decreases b - a,
{
    if a < b {
        lemma_bytes_skip(s, keep, a, b - 1);
        lemma_bytes_next(s, keep, b - 1);
    }
}

/// Positions that are not kept weigh nothing.
pub proof fn lemma_bytes_none(s: Seq<SentView>, keep: spec_fn(int) -> bool, a: int, b: int)
    requires
        0 <= a <= b <= s.len(),
        forall|j: int| a <= j < b ==> !(#[trigger] keep(j)),
    ensures
        bytes(s.take(b), keep) == bytes(s.take(a), keep),
    decreases b - a,
{
    if a < b {
        lemma_bytes_none(s, keep, a, b - 1);
        lemma_bytes_next(s, keep, b - 1);
    }
}

pub proof fn lemma_count_skip(keep: spec_fn(int) -> bool, a: int, b: int)
    requires
        0 <= a <= b,
        forall|i: int| a <= i < b ==> !(#[trigger] keep(i)),
    ensures
        count(b, keep) == count(a, keep),
    decreases b - a,
{
    if a < b {
        lemma_count_skip(keep, a, b - 1);
    }
}

/// What is picked stood in the list at a position that is kept.
pub proof fn lemma_pick_from<T>(s: Seq<T>, keep: spec_fn(int) -> bool, k: int) -> (i: int)
    requires
        0 <= k < pick(s, keep).len(),
    ensures
        0 <= i < s.len(),
        keep(i),
        pick(s, keep)[k] == s[i],
    decreases s.len(),
{
    let front = s.drop_last();
    if keep(s.len() - 1) && k == pick(s, keep).len() - 1 {
        s.len() - 1
    } else {
        lemma_pick_from(front, keep, k)
    }
}

/// As many items are picked as positions are kept.
pub proof fn lemma_pick_len<T>(s: Seq<T>, keep: spec_fn(int) -> bool)
    ensures
        pick(s, keep).len() == count(s.len() as int, keep),
    decreases s.len(),
{
    if s.len() > 0 {
        lemma_pick_len(s.drop_last(), keep);
    }
}

pub proof fn lemma_count_bound(n: int, keep: spec_fn(int) -> bool)
    requires
        n >= 0,
    ensures
        count(n, keep) <= n,
    decreases n,
{
    if n > 0 {
        lemma_count_bound(n - 1, keep);
    }
}

/// A position below `n` that is kept is counted.
pub proof fn lemma_count_some(n: int, keep: spec_fn(int) -> bool, i: int)
    requires
        0 <= i < n,
        keep(i),
    ensures
        count(n, keep) > 0,
    decreases n,
{
    if i < n - 1 {
        lemma_count_some(n - 1, keep, i);
    }
}

/// Positions below `n` of which a part is kept by `a` and the rest by `b`.
pub proof fn lemma_count_split(
    n: int,
    keep: spec_fn(int) -> bool,
    a: spec_fn(int) -> bool,
    b: spec_fn(int) -> bool,
)
    requires
        n >= 0,
        forall|i: int| 0 <= i < n ==> (#[trigger] keep(i) <==> a(i) || b(i)),
        forall|i: int| 0 <= i < n ==> !(#[trigger] a(i) && b(i)),
    ensures
        count(n, keep) == count(n, a) + count(n, b),
    decreases n,
{
    if n > 0 {
        lemma_count_split(n - 1, keep, a, b);
        assert(keep(n - 1) <==> a(n - 1) || b(n - 1));
        assert(!(a(n - 1) && b(n - 1)));
    }
}

pub proof fn lemma_count_le(n: int, a: spec_fn(int) -> bool, b: spec_fn(int) -> bool)
    requires
        n >= 0,
        forall|i: int| 0 <= i < n && #[trigger] a(i) ==> b(i),
    ensures
        count(n, a) <= count(n, b),
    decreases n,
{
    if n > 0 {
        lemma_count_le(n - 1, a, b);
    }
}

pub proof fn lemma_bytes_le(
    s: Seq<SentView>,
    a: spec_fn(int) -> bool,
    b: spec_fn(int) -> bool,
)
    requires
        forall|i: int| 0 <= i < s.len() && #[trigger] a(i) ==> b(i),
    ensures
        bytes(s, a) <= bytes(s, b),
    decreases s.len(),
{
    if s.len() > 0 {
        lemma_bytes_le(s.drop_last(), a, b);
    }
}

/// The bytes of a list whose packets keep their sizes, split in two parts.
pub proof fn lemma_bytes_split(
    s: Seq<SentView>,
    t: Seq<SentView>,
    keep: spec_fn(int) -> bool,
    a: spec_fn(int) -> bool,
    b: spec_fn(int) -> bool,
)
    requires
        s.len() == t.len(),
        forall|i: int| 0 <= i < s.len() ==> (#[trigger] s[i]).size == t[i].size,
        forall|i: int| 0 <= i < s.len() ==> (#[trigger] keep(i) <==> a(i) || b(i)),
        forall|i: int| 0 <= i < s.len() ==> !(#[trigger] a(i) && b(i)),
    ensures
        bytes(s, keep) == bytes(s, a) + bytes(t, b),
    decreases s.len(),
{
    if s.len() > 0 {
        let n = s.len() - 1;
        assert forall|i: int| 0 <= i < s.drop_last().len() implies (
        #[trigger] s.drop_last()[i]).size == t.drop_last()[i].size by {
            assert(s[i].size == t[i].size);
        }
        lemma_bytes_split(s.drop_last(), t.drop_last(), keep, a, b);
        assert(keep(n) <==> a(n) || b(n));
        assert(!(a(n) && b(n)));
        assert(s[n].size == t[n].size);
    }
}

/// Of a list that loses its first `k` packets, no more is left than there was.
pub proof fn lemma_bytes_tail(
    s: Seq<SentView>,
    k: int,
    keep: spec_fn(int) -> bool,
    tail: spec_fn(int) -> bool,
)
    requires
        0 <= k <= s.len(),
        forall|i: int| 0 <= i < s.len() - k ==> (#[trigger] tail(i) <==> keep(i + k)),
    ensures
        bytes(s.skip(k), tail) <= bytes(s, keep),
    decreases s.len(),
{
    if k < s.len() {
        let n = s.len() - 1;
        assert(s.skip(k).drop_last() =~= s.drop_last().skip(k));
        lemma_bytes_tail(s.drop_last(), k, keep, tail);
        assert(tail(n - k) <==> keep(n - k + k));
        assert(s.skip(k).last() == s.last());
    } else {
        assert(s.skip(k).len() == 0);
    }
}

pub proof fn lemma_count_tail(
    n: int,
    k: int,
    keep: spec_fn(int) -> bool,
    tail: spec_fn(int) -> bool,
)
    requires
        0 <= k <= n,
        forall|i: int| 0 <= i < n - k ==> (#[trigger] tail(i) <==> keep(i + k)),
    ensures
        count(n - k, tail) <= count(n, keep),
    decreases n,
{
    if k < n {
        lemma_count_tail(n - 1, k, keep, tail);
        assert(tail(n - 1 - k) <==> keep(n - 1 - k + k));
    }
}

/// No position before the first index stops, and the first index does, if it
/// lies in the list.
pub proof fn lemma_first_index(from: int, n: int, stop: spec_fn(int) -> bool)
    requires
        0 <= from <= n,
    ensures
        from <= first_index(from, n, stop) <= n,
        forall|i: int| from <= i < first_index(from, n, stop) ==> !(#[trigger] stop(i)),
        first_index(from, n, stop) < n ==> stop(first_index(from, n, stop)),
    decreases n - from,
{
    if from < n && !stop(from) {
        lemma_first_index(from + 1, n, stop);
    }
}

pub proof fn lemma_frames_push(s: Seq<SentView>, p: SentView)
    ensures
        frames_in(s.push(p)) == frames_in(s) + p.frames,
{
    assert(s.push(p).drop_last() =~= s);
}

pub proof fn lemma_records_push(s: Seq<SentView>, p: SentView, now: Instant)
    ensures
        records(s.push(p), now) == records(s, now).push(p.acked_at(now)),
{
    assert(records(s.push(p), now) =~= records(s, now).push(p.acked_at(now)));
}

} // verus!
