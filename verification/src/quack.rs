//! Quacks: a proxy's summary of the packets that it has received, told by the
//! identifiers that the packets carry.
use std::collections::HashSet;
use std::collections::VecDeque;
use vstd::prelude::*;

use crate::lists::first_index;
use crate::lists::lemma_first_index;

verus! {

/// Packets that are missing this close to the last received one may have been
/// reordered.
pub const SIDECAR_REORDER_THRESHOLD: usize = 3;

/// A quack, as far as decoding reads it.
pub enum Quack {
    /// The difference between the power sums of what was sent and of what was
    /// received.
    PowerSum {
        /// How many identifiers the difference counts.
        count: u32,
        /// For each identifier of the log whether it is a root of the
        /// polynomial that the difference encodes.
        roots: Vec<bool>,
    },
    /// The identifier of a received packet.
    StrawmanA { sidecar_id: u32 },
    /// The identifiers of the last received packets, the newest at the back.
    StrawmanB { window: VecDeque<u32> },
}

/// What a quack says about the packets of a log.
pub struct DecodedQuack {
    pub quack: Quack,
    /// In increasing order.
    pub missing_indexes: Vec<usize>,
    pub missing_ids: HashSet<u32>,
    pub acked_ids: HashSet<u32>,
    pub num_reordered: usize,
}

/// The result of decoding, with sequences and sets for the collections.
#[verifier::ext_equal]
pub struct DecodedView {
    pub missing_indexes: Seq<usize>,
    pub missing_ids: Set<u32>,
    pub acked_ids: Set<u32>,
    pub num_reordered: int,
    /// Up to where the log is settled.
    pub drain_index: int,
}

/// The positions below `n` that satisfy `keep`, in increasing order.
pub open spec fn positions(n: int, keep: spec_fn(int) -> bool) -> Seq<usize>
    decreases n,
{
    if n <= 0 {
        Seq::empty()
    } else if keep(n - 1) {
        positions(n - 1, keep).push((n - 1) as usize)
    } else {
        positions(n - 1, keep)
    }
}

/// The identifiers that stand in the log from `from` on and below `to` at a
/// position that satisfies `keep`.
pub open spec fn ids_at(
    log: Seq<u32>,
    from: int,
    to: int,
    keep: spec_fn(int) -> bool,
) -> Set<u32> {
    Set::new(|id: u32| exists|i: int| from <= i < to && #[trigger] keep(i) && log[i] == id)
}

/// The positions whose identifier is a root.
pub open spec fn is_root(roots: Seq<bool>) -> spec_fn(int) -> bool {
    |i: int| roots[i]
}

/// The positions whose identifier is not a root.
pub open spec fn no_root(roots: Seq<bool>) -> spec_fn(int) -> bool {
    |i: int| !roots[i]
}

/// The positions of an identifier.
pub open spec fn at_id(log: Seq<u32>, id: u32) -> spec_fn(int) -> bool {
    |i: int| log[i] == id
}

/// The positions whose identifier is in the window.
pub open spec fn in_window(log: Seq<u32>, window: Seq<u32>) -> spec_fn(int) -> bool {
    |i: int| window.contains(log[i])
}

/// The positions whose identifier is not in the window.
pub open spec fn out_of_window(log: Seq<u32>, window: Seq<u32>) -> spec_fn(int) -> bool {
    |i: int| !window.contains(log[i])
}

/// Every position.
pub open spec fn anywhere() -> spec_fn(int) -> bool {
    |i: int| true
}

/// A difference that counts nothing: everything was received. Otherwise the
/// roots are missing, but those among the last packets are not given up yet.
pub open spec fn decoded_power_sum(log: Seq<u32>, count: u32, roots: Seq<bool>) -> DecodedView {
    let n = log.len() as int;
    if count == 0 {
        DecodedView {
            missing_indexes: Seq::empty(),
            missing_ids: Set::empty(),
            acked_ids: ids_at(log, 0, n, anywhere()),
            num_reordered: 0,
            drain_index: n,
        }
    } else {
        let cut = if n > SIDECAR_REORDER_THRESHOLD {
            n - (SIDECAR_REORDER_THRESHOLD + 1)
        } else {
            0
        };
        let end = first_index(cut, n, is_root(roots));
        DecodedView {
            missing_indexes: positions(cut, is_root(roots)),
            missing_ids: ids_at(log, 0, n, is_root(roots)).difference(
                ids_at(log, cut, n, is_root(roots)),
            ),
            acked_ids: ids_at(log, 0, n, no_root(roots)),
            num_reordered: n - end,
            drain_index: end,
        }
    }
}

/// Everything before the received packet is missing, but the last ones before
/// it are not given up yet.
pub open spec fn decoded_strawman_a(log: Seq<u32>, id: u32) -> DecodedView {
    let n = log.len() as int;
    let k = first_index(0, n, at_id(log, id));
    let held = if k >= SIDECAR_REORDER_THRESHOLD {
        SIDECAR_REORDER_THRESHOLD as int
    } else {
        k
    };
    DecodedView {
        missing_indexes: positions(k - held, anywhere()),
        missing_ids: ids_at(log, 0, k, anywhere()).difference(
            ids_at(log, k - held, k, anywhere()),
        ),
        acked_ids: ids_at(log, 0, n, at_id(log, id)),
        num_reordered: held,
        drain_index: if held == 0 && k < n {
            k + 1
        } else {
            k - held
        },
    }
}

/// The packets before the newest received one that are not in the window are
/// missing, but those close to it are not given up yet. If the newest one is
/// not in the log and nothing is held back, the log is settled up to beyond its
/// end.
pub open spec fn decoded_strawman_b(log: Seq<u32>, window: Seq<u32>) -> DecodedView {
    let n = log.len() as int;
    let k = first_index(0, n, at_id(log, window.last()));
    let cut = if k > SIDECAR_REORDER_THRESHOLD {
        k - SIDECAR_REORDER_THRESHOLD
    } else {
        0
    };
    let end = first_index(cut, k, out_of_window(log, window));
    DecodedView {
        missing_indexes: positions(cut, out_of_window(log, window)),
        missing_ids: ids_at(log, 0, k, out_of_window(log, window)).difference(
            ids_at(log, cut, k, out_of_window(log, window)),
        ),
        acked_ids: ids_at(
            log,
            0,
            if k < n {
                k + 1
            } else {
                n
            },
            in_window(log, window),
        ),
        num_reordered: k - end,
        drain_index: if end == k {
            k + 1
        } else {
            end
        },
    }
}

impl Quack {
    /// What the quack says about the log.
    pub open spec fn decoded(self, log: Seq<u32>) -> DecodedView {
        match self {
            Quack::PowerSum { count, roots } => decoded_power_sum(log, count, roots@),
            Quack::StrawmanA { sidecar_id } => decoded_strawman_a(log, sidecar_id),
            Quack::StrawmanB { window } => decoded_strawman_b(log, window@),
        }
    }

    /// The quack can be held against a log of `n` identifiers.
    pub open spec fn fits(self, n: int) -> bool {
        match self {
            Quack::PowerSum { count, roots } => roots@.len() == n,
            Quack::StrawmanA { .. } => true,
            Quack::StrawmanB { window } => window@.len() > 0,
        }
    }
}

proof fn lemma_ids_next(log: Seq<u32>, from: int, to: int, keep: spec_fn(int) -> bool)
    requires
        from <= to,
    ensures
        ids_at(log, from, to + 1, keep) == if keep(to) {
            ids_at(log, from, to, keep).insert(log[to])
        } else {
            ids_at(log, from, to, keep)
        },
{
    let next = ids_at(log, from, to + 1, keep);
    let now = ids_at(log, from, to, keep);
    assert forall|id: u32| #[trigger] next.contains(id) <==> now.contains(id) || (keep(to)
        && log[to] == id) by {
        if now.contains(id) {
            let i = choose|i: int| from <= i < to && #[trigger] keep(i) && log[i] == id;
            assert(from <= i < to + 1 && keep(i) && log[i] == id);
        }
        if next.contains(id) {
            let i = choose|i: int| from <= i < to + 1 && #[trigger] keep(i) && log[i] == id;
            if i < to {
                assert(from <= i < to && keep(i) && log[i] == id);
            }
        }
    }
    if keep(to) {
        assert(next =~= now.insert(log[to]));
    } else {
        assert(next =~= now);
    }
}

/// The last position at or above `cut` is taken off the list.
proof fn lemma_positions_last(n: int, cut: int, keep: spec_fn(int) -> bool)
    requires
        0 <= cut <= n <= usize::MAX,
    ensures
        positions(n, keep).len() <= n,
        positions(n, keep).len() > 0 ==> ({
            let last = positions(n, keep).last() as int;
            &&& 0 <= last < n
            &&& keep(last)
            &&& forall|i: int| last < i < n ==> !(#[trigger] keep(i))
            &&& positions(n, keep).drop_last() == positions(last, keep)
        }),
        positions(n, keep).len() == 0 ==> forall|i: int| 0 <= i < n ==> !(#[trigger] keep(i)),
        (positions(n, keep).len() > 0 ==> positions(n, keep).last() < cut) ==> positions(n, keep)
            == positions(cut, keep) && forall|i: int| cut <= i < n ==> !(#[trigger] keep(i)),
    decreases n,
{
    if n > 0 {
        if keep(n - 1) {
            assert(positions(n, keep).drop_last() =~= positions(n - 1, keep));
            lemma_positions_last(n - 1, if cut < n { cut } else { n - 1 }, keep);
        } else {
            lemma_positions_last(n - 1, if cut < n { cut } else { n - 1 }, keep);
        }
    }
}

/// What a power sum quack says stays within the log.
pub proof fn lemma_power_sum_bounds(log: Seq<u32>, count: u32, roots: Seq<bool>)
    requires
        log.len() <= usize::MAX,
    ensures
        ({
            let d = decoded_power_sum(log, count, roots);
            &&& 0 <= d.num_reordered
            &&& 0 <= d.drain_index
            &&& d.drain_index + d.num_reordered == log.len()
            &&& forall|i: int|
                0 <= i < d.missing_indexes.len() ==> (#[trigger] d.missing_indexes[i])
                    < d.drain_index
        }),
{
    let n = log.len() as int;
    let cut = if n > SIDECAR_REORDER_THRESHOLD {
        n - (SIDECAR_REORDER_THRESHOLD + 1)
    } else {
        0
    };
    lemma_first_index(cut, n, is_root(roots));
    lemma_positions_below(cut, is_root(roots));
}

pub(crate) proof fn lemma_positions_below(n: int, keep: spec_fn(int) -> bool)
    requires
        n <= usize::MAX,
    ensures
        forall|i: int| 0 <= i < positions(n, keep).len() ==> (#[trigger] positions(n, keep)[i]) < n,
    decreases n,
{
    if n > 0 {
        lemma_positions_below(n - 1, keep);
        let front = positions(n - 1, keep);
        assert forall|i: int| 0 <= i < positions(n, keep).len() implies (
        #[trigger] positions(n, keep)[i]) < n by {
            if i < front.len() {
                assert(front[i] < n - 1);
            }
        }
    }
}

/// The positions of a list are distinct, in increasing order, and all kept.
pub(crate) proof fn lemma_positions(n: int, keep: spec_fn(int) -> bool)
    requires
        n <= usize::MAX,
    ensures
        forall|i: int, j: int|
            0 <= i < j < positions(n, keep).len() ==> (#[trigger] positions(n, keep)[i]) < (
            #[trigger] positions(n, keep)[j]),
        forall|i: int|
            0 <= i < positions(n, keep).len() ==> keep(#[trigger] positions(n, keep)[i] as int),
    decreases n,
{
    if n > 0 {
        let front = positions(n - 1, keep);
        let all = positions(n, keep);
        lemma_positions(n - 1, keep);
        lemma_positions_below(n - 1, keep);
        assert forall|i: int, j: int| 0 <= i < j < all.len() implies (#[trigger] all[i]) < (
        #[trigger] all[j]) by {
            assert(all[i] == front[i]);
            if j < front.len() {
                assert(front[i] < front[j]);
            }
        }
        assert forall|i: int| 0 <= i < all.len() implies keep(#[trigger] all[i] as int) by {
            if i < front.len() {
                assert(all[i] == front[i]);
            }
        }
    }
}

/// A position that is kept is in the list.
pub(crate) proof fn lemma_position_listed(n: int, keep: spec_fn(int) -> bool, i: int)
    requires
        0 <= i < n <= usize::MAX,
        keep(i),
    ensures
        positions(n, keep).contains(i as usize),
    decreases n,
{
    let all = positions(n, keep);
    if i == n - 1 {
        assert(all[all.len() - 1] == i as usize);
    } else {
        lemma_position_listed(n - 1, keep, i);
        let front = positions(n - 1, keep);
        let k = choose|k: int| 0 <= k < front.len() && front[k] == i as usize;
        assert(all[k] == i as usize);
    }
}

/// The missing indexes are in increasing order, whatever the quack.
pub proof fn lemma_missing_indexes_increase(quack: Quack, log: Seq<u32>, i: int, j: int)
    requires
        log.len() <= usize::MAX,
        0 <= i < j < quack.decoded(log).missing_indexes.len(),
    ensures
        quack.decoded(log).missing_indexes[i] < quack.decoded(log).missing_indexes[j],
{
    let n = log.len() as int;
    match quack {
        Quack::PowerSum { count, roots } => {
            let cut = if n > SIDECAR_REORDER_THRESHOLD {
                n - (SIDECAR_REORDER_THRESHOLD + 1)
            } else {
                0
            };
            lemma_positions(cut, is_root(roots@));
        },
        Quack::StrawmanA { sidecar_id } => {
            let k = first_index(0, n, at_id(log, sidecar_id));
            lemma_first_index(0, n, at_id(log, sidecar_id));
            let held = if k >= SIDECAR_REORDER_THRESHOLD {
                SIDECAR_REORDER_THRESHOLD as int
            } else {
                k
            };
            lemma_positions(k - held, anywhere());
        },
        Quack::StrawmanB { window } => {
            let k = first_index(0, n, at_id(log, window@.last()));
            lemma_first_index(0, n, at_id(log, window@.last()));
            let cut = if k > SIDECAR_REORDER_THRESHOLD {
                k - SIDECAR_REORDER_THRESHOLD
            } else {
                0
            };
            lemma_positions(cut, out_of_window(log, window@));
        },
    }
}

/// Everything that a power sum quack drains from the log has been determined
/// to be received or missing.
pub proof fn lemma_power_sum_settles(log: Seq<u32>, count: u32, roots: Seq<bool>, i: int)
    requires
        log.len() <= usize::MAX,
        0 <= i < decoded_power_sum(log, count, roots).drain_index,
    ensures
        ({
            let d = decoded_power_sum(log, count, roots);
            &&& i < log.len()
            &&& count != 0 && roots[i] ==> d.missing_indexes.contains(i as usize)
            &&& count == 0 || !roots[i] ==> d.acked_ids.contains(log[i])
        }),
{
    let n = log.len() as int;
    let cut = if n > SIDECAR_REORDER_THRESHOLD {
        n - (SIDECAR_REORDER_THRESHOLD + 1)
    } else {
        0
    };
    let keep = is_root(roots);
    lemma_first_index(cut, n, keep);
    if count == 0 {
        assert(anywhere()(i));
    } else if roots[i] {
        assert(keep(i));
        lemma_position_listed(cut, keep, i);
    } else {
        assert(no_root(roots)(i));
    }
}

/// A packet that is missing close to the end of the log, before the last
/// received one, is not given up: it may have been reordered.
pub proof fn lemma_power_sum_waits(log: Seq<u32>, count: u32, roots: Seq<bool>, i: int)
    requires
        log.len() <= usize::MAX,
        0 <= i < decoded_power_sum(log, count, roots).missing_indexes.len(),
    ensures
        ({
            let index = decoded_power_sum(log, count, roots).missing_indexes[i];
            &&& index + SIDECAR_REORDER_THRESHOLD + 1 < log.len()
            &&& roots[index as int]
        }),
{
    let n = log.len() as int;
    let cut = if n > SIDECAR_REORDER_THRESHOLD {
        n - (SIDECAR_REORDER_THRESHOLD + 1)
    } else {
        0
    };
    lemma_positions(cut, is_root(roots));
    lemma_positions_below(cut, is_root(roots));
    assert(is_root(roots)(decoded_power_sum(log, count, roots).missing_indexes[i] as int));
}

/// Everything that a single echo drains from the log has been determined to be
/// received or missing.
pub proof fn lemma_echo_settles(log: Seq<u32>, id: u32, i: int)
    requires
        log.len() <= usize::MAX,
        0 <= i < decoded_strawman_a(log, id).drain_index,
    ensures
        ({
            let d = decoded_strawman_a(log, id);
            &&& i < log.len()
            &&& log[i] == id ==> d.acked_ids.contains(log[i])
            &&& log[i] != id ==> d.missing_indexes.contains(i as usize)
        }),
{
    let n = log.len() as int;
    let k = first_index(0, n, at_id(log, id));
    lemma_first_index(0, n, at_id(log, id));
    let held = if k >= SIDECAR_REORDER_THRESHOLD {
        SIDECAR_REORDER_THRESHOLD as int
    } else {
        k
    };
    if i < k {
        assert(!at_id(log, id)(i));
        assert(anywhere()(i));
        lemma_position_listed(k - held, anywhere(), i);
    } else {
        assert(at_id(log, id)(i));
    }
}

/// Everything that a window of identifiers drains from the log has been
/// determined to be received or missing.
pub proof fn lemma_window_settles(log: Seq<u32>, window: Seq<u32>, i: int)
    requires
        log.len() <= usize::MAX,
        window.len() > 0,
        0 <= i < log.len(),
        i < decoded_strawman_b(log, window).drain_index,
    ensures
        ({
            let d = decoded_strawman_b(log, window);
            &&& window.contains(log[i]) ==> d.acked_ids.contains(log[i])
            &&& !window.contains(log[i]) ==> d.missing_indexes.contains(i as usize)
        }),
{
    let n = log.len() as int;
    let k = first_index(0, n, at_id(log, window.last()));
    lemma_first_index(0, n, at_id(log, window.last()));
    let cut = if k > SIDECAR_REORDER_THRESHOLD {
        k - SIDECAR_REORDER_THRESHOLD
    } else {
        0
    };
    let outside = out_of_window(log, window);
    lemma_first_index(cut, k, outside);
    if window.contains(log[i]) {
        assert(in_window(log, window)(i));
    } else {
        assert(outside(i));
        if i == k {
            assert(at_id(log, window.last())(k));
            assert(window[window.len() - 1] == log[i]);
        }
        lemma_position_listed(cut, outside, i);
    }
}

impl DecodedQuack {
    /// Nothing has been decoded yet.
    pub open spec fn is_fresh(self) -> bool {
        &&& self.missing_indexes@.len() == 0
        &&& self.missing_ids@ == Set::<u32>::empty()
        &&& self.acked_ids@ == Set::<u32>::empty()
        &&& self.num_reordered == 0
    }

    /// What has been decoded is what `d` says.
    pub open spec fn holds(self, d: DecodedView) -> bool {
        &&& self.missing_indexes@ == d.missing_indexes
        &&& self.missing_ids@ == d.missing_ids
        &&& self.acked_ids@ == d.acked_ids
        &&& self.num_reordered == d.num_reordered
    }

    pub fn new(quack: Quack) -> (d: DecodedQuack)
        ensures
            d.quack == quack,
            d.is_fresh(),
    {
        DecodedQuack {
            quack,
            missing_indexes: Vec::new(),
            missing_ids: HashSet::new(),
            acked_ids: HashSet::new(),
            num_reordered: 0,
        }
    }

    /// Takes the missing positions from `cut` on off the list: their packets
    /// may still arrive. `end` is the position up to which was searched.
    fn hold_back(&mut self, log: &[u32], cut: usize, end: usize, keep: Ghost<spec_fn(int) -> bool>)
        requires
            cut <= end <= log@.len(),
            old(self).missing_indexes@ == positions(end as int, keep@),
            old(self).missing_ids@ == ids_at(log@, 0, end as int, keep@),
            old(self).num_reordered == 0,
        ensures
            final(self).quack == old(self).quack,
            final(self).acked_ids == old(self).acked_ids,
            final(self).missing_indexes@ == positions(cut as int, keep@),
            final(self).missing_ids@ == ids_at(log@, 0, end as int, keep@).difference(
                ids_at(log@, cut as int, end as int, keep@),
            ),
            final(self).num_reordered == end - first_index(cut as int, end as int, keep@),
    {
        let ghost keep = keep@;
        let ghost all = ids_at(log@, 0, end as int, keep);
        let ghost mut upto: int = end as int;
        proof {
            lemma_first_index(cut as int, end as int, keep);
            assert(ids_at(log@, end as int, end as int, keep) =~= Set::<u32>::empty());
            assert(all.difference(Set::<u32>::empty()) =~= all);
        }
        while self.missing_indexes.len() > 0 && self.missing_indexes[self.missing_indexes.len()
            - 1] >= cut
            invariant
                cut <= upto <= end <= log@.len(),
                self.quack == old(self).quack,
                self.acked_ids == old(self).acked_ids,
                self.missing_indexes@ == positions(upto, keep),
                self.missing_ids@ == all.difference(ids_at(log@, upto, end as int, keep)),
                all == ids_at(log@, 0, end as int, keep),
                self.num_reordered == end - upto,
                upto < end ==> keep(upto),
            decreases self.missing_indexes@.len(),
        {
            let n = self.missing_indexes.len();
            let index = self.missing_indexes[n - 1];
            proof {
                lemma_positions_last(upto, cut as int, keep);
                lemma_ids_front(log@, index as int, upto, end as int, keep);
            }
            self.missing_ids.remove(&log[index]);
            self.missing_indexes.pop();
            self.num_reordered = end - index;
            proof {
                upto = index as int;
                assert(self.missing_indexes@ =~= positions(index as int, keep));
                assert(self.missing_ids@ =~= all.difference(
                    ids_at(log@, upto, end as int, keep),
                ));
            }
        }
        proof {
            lemma_positions_last(upto, cut as int, keep);
            assert(forall|i: int| cut <= i < upto ==> !(#[trigger] keep(i)));
            lemma_first_unique(cut as int, end as int, keep, upto);
            assert(ids_at(log@, cut as int, end as int, keep) =~= ids_at(
                log@,
                upto,
                end as int,
                keep,
            ));
        }
    }

    /// Decodes the quack and returns the index up to which the log is settled.
    ///
    /// Missing packets close to the last received one are not considered lost:
    /// they may have been reordered.
    pub fn decode(&mut self, log: &[u32]) -> (drain_index: usize)
        requires
            old(self).is_fresh(),
            old(self).quack.fits(log@.len() as int),
            old(self).quack is StrawmanB ==> log@.len() < usize::MAX,
        ensures
            final(self).quack == old(self).quack,
            final(self).holds(old(self).quack.decoded(log@)),
            drain_index == old(self).quack.decoded(log@).drain_index,
            !(old(self).quack is StrawmanB) ==> drain_index <= log@.len(),
    {
        match &self.quack {
            Quack::PowerSum { .. } => self.decode_power_sum(log),
            Quack::StrawmanA { .. } => self.decode_strawman_a(log),
            Quack::StrawmanB { .. } => self.decode_strawman_b(log),
        }
    }

    fn decode_power_sum(&mut self, log: &[u32]) -> (drain_index: usize)
        requires
            old(self).is_fresh(),
            old(self).quack is PowerSum,
            old(self).quack.fits(log@.len() as int),
        ensures
            final(self).quack == old(self).quack,
            final(self).holds(old(self).quack.decoded(log@)),
            drain_index == old(self).quack.decoded(log@).drain_index,
            drain_index <= log@.len(),
    {
        let len = log.len();
        let (count, roots) = match &self.quack {
            Quack::PowerSum { count, roots } => (*count, roots),
            _ => {
                return 0;
            },
        };
        let mut missing_indexes: Vec<usize> = Vec::new();
        let mut missing_ids: HashSet<u32> = HashSet::new();
        let mut acked_ids: HashSet<u32> = HashSet::new();
        let mut i: usize = 0;
        let ghost keep = if count == 0 {
            no_positions()
        } else {
            is_root(roots@)
        };
        let ghost drop = if count == 0 {
            anywhere()
        } else {
            no_root(roots@)
        };
        proof {
            assert(missing_ids@ =~= ids_at(log@, 0, 0, keep));
            assert(acked_ids@ =~= ids_at(log@, 0, 0, drop));
        }
        while i < len
            invariant
                i <= len,
                len == log@.len(),
                len == roots@.len(),
                keep == (if count == 0 {
                    no_positions()
                } else {
                    is_root(roots@)
                }),
                drop == (if count == 0 {
                    anywhere()
                } else {
                    no_root(roots@)
                }),
                missing_indexes@ == positions(i as int, keep),
                missing_ids@ == ids_at(log@, 0, i as int, keep),
                acked_ids@ == ids_at(log@, 0, i as int, drop),
            decreases len - i,
        {
            proof {
                lemma_ids_next(log@, 0, i as int, keep);
                lemma_ids_next(log@, 0, i as int, drop);
            }
            if count != 0 && roots[i] {
                missing_indexes.push(i);
                missing_ids.insert(log[i]);
            } else {
                acked_ids.insert(log[i]);
            }
            i = i + 1;
        }
        self.missing_indexes = missing_indexes;
        self.missing_ids = missing_ids;
        self.acked_ids = acked_ids;
        if count == 0 {
            proof {
                lemma_no_positions(log@, len as int);
            }
            return len;
        }
        // If any of the packets right before the last received packet are
        // missing, wait to determine their fate.
        let cut = if len > SIDECAR_REORDER_THRESHOLD {
            len - (SIDECAR_REORDER_THRESHOLD + 1)
        } else {
            0
        };
        self.hold_back(log, cut, len, Ghost(keep));
        proof {
            lemma_first_index(cut as int, len as int, keep);
        }
        len - self.num_reordered
    }

    fn decode_strawman_a(&mut self, log: &[u32]) -> (drain_index: usize)
        requires
            old(self).is_fresh(),
            old(self).quack is StrawmanA,
        ensures
            final(self).quack == old(self).quack,
            final(self).holds(old(self).quack.decoded(log@)),
            drain_index == old(self).quack.decoded(log@).drain_index,
            drain_index <= log@.len(),
    {
        let len = log.len();
        let id = match &self.quack {
            Quack::StrawmanA { sidecar_id } => *sidecar_id,
            _ => {
                return 0;
            },
        };
        let ghost target = at_id(log@, id);
        let ghost all = anywhere();
        let mut i: usize = 0;
        proof {
            assert(self.missing_ids@ =~= ids_at(log@, 0, 0, all));
        }
        while i < len && log[i] != id
            invariant
                i <= len,
                len == log@.len(),
                target == at_id(log@, id),
                all == anywhere(),
                self.quack == old(self).quack,
                self.num_reordered == 0,
                self.acked_ids@ == Set::<u32>::empty(),
                first_index(0, len as int, target) == first_index(i as int, len as int, target),
                forall|j: int| 0 <= j < i ==> log@[j] != id,
                self.missing_indexes@ == positions(i as int, all),
                self.missing_ids@ == ids_at(log@, 0, i as int, all),
            decreases len - i,
        {
            proof {
                lemma_ids_next(log@, 0, i as int, all);
                assert(!target(i as int));
            }
            self.missing_indexes.push(i);
            self.missing_ids.insert(log[i]);
            i = i + 1;
        }
        let k = i;
        if k < len {
            self.acked_ids.insert(id);
        }
        proof {
            assert(k < len ==> target(k as int));
            assert(first_index(0, len as int, target) == k);
            assert(self.acked_ids@ =~= ids_at(log@, 0, len as int, target)) by {
                if k < len {
                    assert(ids_at(log@, 0, len as int, target).contains(id));
                }
            }
        }
        let held = if k >= SIDECAR_REORDER_THRESHOLD {
            SIDECAR_REORDER_THRESHOLD
        } else {
            k
        };
        self.hold_back(log, k - held, k, Ghost(all));
        proof {
            if held > 0 {
                assert(all(k - held));
            }
        }
        if self.num_reordered == 0 && k < len {
            k + 1
        } else {
            k - self.num_reordered
        }
    }

    fn decode_strawman_b(&mut self, log: &[u32]) -> (drain_index: usize)
        requires
            old(self).is_fresh(),
            old(self).quack is StrawmanB,
            old(self).quack.fits(log@.len() as int),
            log@.len() < usize::MAX,
        ensures
            final(self).quack == old(self).quack,
            final(self).holds(old(self).quack.decoded(log@)),
            drain_index == old(self).quack.decoded(log@).drain_index,
    {
        let len = log.len();
        let window = match &self.quack {
            Quack::StrawmanB { window } => window,
            _ => {
                return 0;
            },
        };
        let last_value = window[window.len() - 1];
        let mut received: HashSet<u32> = HashSet::new();
        let mut w: usize = 0;
        while w < window.len()
            invariant
                w <= window@.len(),
                forall|id: u32|
                    received@.contains(id) <==> exists|j: int|
                        0 <= j < w && #[trigger] window@[j] == id,
            decreases window@.len() - w,
        {
            let ghost before = received@;
            received.insert(window[w]);
            w = w + 1;
            proof {
                assert forall|id: u32| received@.contains(id) <==> exists|j: int|
                    0 <= j < w && #[trigger] window@[j] == id by {
                    if before.contains(id) {
                        let j = choose|j: int| 0 <= j < w - 1 && #[trigger] window@[j] == id;
                        assert(0 <= j < w && window@[j] == id);
                    }
                    if id == window@[w - 1] {
                        assert(0 <= w - 1 < w && window@[w - 1] == id);
                    }
                }
            }
        }
        let ghost win = window@;
        assert(forall|id: u32| received@.contains(id) <==> win.contains(id));
        let ghost target = at_id(log@, last_value);
        let ghost inside = in_window(log@, win);
        let ghost outside = out_of_window(log@, win);
        let mut missing_indexes: Vec<usize> = Vec::new();
        let mut missing_ids: HashSet<u32> = HashSet::new();
        let mut acked_ids: HashSet<u32> = HashSet::new();
        let mut i: usize = 0;
        proof {
            assert(missing_ids@ =~= ids_at(log@, 0, 0, outside));
            assert(acked_ids@ =~= ids_at(log@, 0, 0, inside));
        }
        while i < len && log[i] != last_value
            invariant
                i <= len,
                len == log@.len(),
                target == at_id(log@, last_value),
                inside == in_window(log@, win),
                outside == out_of_window(log@, win),
                forall|id: u32| received@.contains(id) <==> win.contains(id),
                first_index(0, len as int, target) == first_index(i as int, len as int, target),
                missing_indexes@ == positions(i as int, outside),
                missing_ids@ == ids_at(log@, 0, i as int, outside),
                acked_ids@ == ids_at(log@, 0, i as int, inside),
            decreases len - i,
        {
            proof {
                lemma_ids_next(log@, 0, i as int, inside);
                lemma_ids_next(log@, 0, i as int, outside);
                assert(!target(i as int));
            }
            if received.contains(&log[i]) {
                acked_ids.insert(log[i]);
            } else {
                missing_indexes.push(i);
                missing_ids.insert(log[i]);
            }
            i = i + 1;
        }
        let k = i;
        if k < len {
            proof {
                assert(win.contains(last_value)) by {
                    assert(win[win.len() - 1] == last_value);
                }
                lemma_ids_next(log@, 0, k as int, inside);
            }
            acked_ids.insert(last_value);
        }
        proof {
            assert(k < len ==> target(k as int));
            assert(first_index(0, len as int, target) == k);
        }
        self.missing_indexes = missing_indexes;
        self.missing_ids = missing_ids;
        self.acked_ids = acked_ids;
        let cut = if k > SIDECAR_REORDER_THRESHOLD {
            k - SIDECAR_REORDER_THRESHOLD
        } else {
            0
        };
        self.hold_back(log, cut, k, Ghost(outside));
        proof {
            lemma_first_index(cut as int, k as int, outside);
        }
        if self.num_reordered == 0 {
            k + 1
        } else {
            k - self.num_reordered
        }
    }
}

/// No position.
spec fn no_positions() -> spec_fn(int) -> bool {
    |i: int| false
}

proof fn lemma_no_positions(log: Seq<u32>, n: int)
    requires
        n >= 0,
    ensures
        positions(n, no_positions()) == Seq::<usize>::empty(),
        ids_at(log, 0, n, no_positions()) == Set::<u32>::empty(),
    decreases n,
{
    assert(ids_at(log, 0, n, no_positions()) =~= Set::<u32>::empty());
    if n > 0 {
        lemma_no_positions(log, n - 1);
    }
}

/// A range of which only the first position is kept before `upto` adds one
/// identifier.
proof fn lemma_ids_front(
    log: Seq<u32>,
    index: int,
    upto: int,
    end: int,
    keep: spec_fn(int) -> bool,
)
    requires
        0 <= index < upto <= end <= log.len(),
        keep(index),
        forall|i: int| index < i < upto ==> !(#[trigger] keep(i)),
    ensures
        ids_at(log, index, end, keep) == ids_at(log, upto, end, keep).insert(log[index]),
{
    let wide = ids_at(log, index, end, keep);
    let narrow = ids_at(log, upto, end, keep);
    assert forall|id: u32| #[trigger] wide.contains(id) <==> narrow.contains(id) || log[index]
        == id by {
        if narrow.contains(id) {
            let i = choose|i: int| upto <= i < end && #[trigger] keep(i) && log[i] == id;
            assert(index <= i < end && keep(i) && log[i] == id);
        }
        if wide.contains(id) {
            let i = choose|i: int| index <= i < end && #[trigger] keep(i) && log[i] == id;
            if i >= upto {
                assert(upto <= i < end && keep(i) && log[i] == id);
            }
        }
        if log[index] == id {
            assert(index <= index < end && keep(index) && log[index] == id);
        }
    }
    assert(wide =~= narrow.insert(log[index]));
}

/// The first index is the one before which nothing stops.
proof fn lemma_first_unique(from: int, n: int, stop: spec_fn(int) -> bool, at: int)
    requires
        0 <= from <= at <= n,
        forall|i: int| from <= i < at ==> !(#[trigger] stop(i)),
        at < n ==> stop(at),
    ensures
        first_index(from, n, stop) == at,
{
    lemma_first_index(from, n, stop);
    let f = first_index(from, n, stop);
    if f < at {
        assert(!stop(f));
    } else if f > at {
        assert(!stop(at));
    }
}

} // verus!
