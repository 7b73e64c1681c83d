//! What the operations on a packet number space keep: every packet is counted
//! as lost at most once and as acknowledged at most once.
use vstd::prelude::*;

use crate::lists::bytes;
use crate::lists::count;
use crate::lists::first_index;
use crate::lists::lemma_bytes_le;
use crate::lists::lemma_bytes_skip;
use crate::lists::lemma_bytes_split;
use crate::lists::lemma_bytes_tail;
use crate::lists::lemma_count_bound;
use crate::lists::lemma_count_skip;
use crate::lists::lemma_count_split;
use crate::lists::lemma_count_tail;
use crate::lists::lemma_first_index;
use crate::loss::in_flight_before;
use crate::loss::outstanding_before;
use crate::loss::remembered;
use crate::loss::search_ends;
use crate::loss::unacked;
use crate::loss::unacked_in;
use crate::loss::unlost;
use crate::loss::unlost_bytes_in;
use crate::loss::unlost_in;
use crate::ranges::PktRange;
use crate::sent::SentView;
use crate::sidecar::missed;
use crate::sidecar::missed_in_flight;
use crate::space::all_wf;
use crate::space::hits;
use crate::space::in_order;
use crate::space::SpaceView;
use crate::time::Duration;
use crate::time::Instant;

verus! {

impl SpaceView {
    /// How many packets of the space have not been declared lost.
    pub open spec fn unlost_count(self) -> nat {
        unlost_in(self.sent)
    }

    /// The bytes of those packets.
    pub open spec fn unlost_bytes(self) -> nat {
        unlost_bytes_in(self.sent)
    }

    /// How many packets of the space have not been acknowledged.
    pub open spec fn unacked_count(self) -> nat {
        unacked_in(self.sent)
    }
}

/// Two ways to keep the same packets of two lists of equal sizes weigh the
/// same.
pub(crate) proof fn lemma_bytes_same(
    s: Seq<SentView>,
    t: Seq<SentView>,
    a: spec_fn(int) -> bool,
    b: spec_fn(int) -> bool,
)
    requires
        s.len() == t.len(),
        forall|i: int| 0 <= i < s.len() ==> (#[trigger] s[i]).size == t[i].size,
        forall|i: int| 0 <= i < s.len() ==> (#[trigger] a(i) <==> b(i)),
    ensures
        bytes(s, a) == bytes(t, b),
    decreases s.len(),
{
    if s.len() > 0 {
        let n = s.len() - 1;
        assert forall|i: int| 0 <= i < s.drop_last().len() implies (
        #[trigger] s.drop_last()[i]).size == t.drop_last()[i].size by {
            assert(s[i].size == t[i].size);
        }
        lemma_bytes_same(s.drop_last(), t.drop_last(), a, b);
        assert(a(n) <==> b(n));
        assert(s[n].size == t[n].size);
    }
}

pub(crate) proof fn lemma_count_same(n: int, a: spec_fn(int) -> bool, b: spec_fn(int) -> bool)
    requires
        n >= 0,
        forall|i: int| 0 <= i < n ==> (#[trigger] a(i) <==> b(i)),
    ensures
        count(n, a) == count(n, b),
    decreases n,
{
    if n > 0 {
        lemma_count_same(n - 1, a, b);
        assert(a(n - 1) <==> b(n - 1));
    }
}

/// No more packets are counted than there are.
pub(crate) proof fn lemma_tally_bound(v: SpaceView)
    ensures
        v.unlost_count() <= v.sent.len(),
        v.unacked_count() <= v.sent.len(),
        v.sent.len() == 0 ==> v.unlost_bytes() == 0,
{
    reveal(unlost_in);
    reveal(unlost_bytes_in);
    reveal(unacked_in);
    lemma_count_bound(v.sent.len() as int, unlost(v.sent));
    lemma_count_bound(v.sent.len() as int, unacked(v.sent));
}

/// An acknowledgement keeps the packets in place and in order, loses none, and
/// takes each packet that it marks out of the unacknowledged ones.
pub proof fn lemma_ack_tally(v: SpaceView, ranges: Seq<PktRange>, now: Instant)
    ensures
        ({
            let w = v.after_ack(ranges, now);
            &&& w.sent.len() == v.sent.len()
            &&& v.wf() ==> w.wf()
            &&& in_order(v.sent) ==> in_order(w.sent)
            &&& w.unlost_count() == v.unlost_count()
            &&& w.unlost_bytes() == v.unlost_bytes()
            &&& w.unacked_count() + count(v.sent.len() as int, hits(v.sent, ranges))
                == v.unacked_count()
        }),
{
    reveal(unlost_in);
    reveal(unlost_bytes_in);
    reveal(unacked_in);
    let w = v.after_ack(ranges, now);
    let n = v.sent.len() as int;
    lemma_count_same(n, unlost(v.sent), unlost(w.sent));
    lemma_bytes_same(v.sent, w.sent, unlost(v.sent), unlost(w.sent));
    lemma_count_split(n, unacked(v.sent), unacked(w.sent), hits(v.sent, ranges));
    if v.wf() {
        assert forall|i: int| 0 <= i < n implies (#[trigger] w.sent[i]).wf() by {
            assert(v.sent[i].wf());
        }
    }
    if in_order(v.sent) {
        assert forall|i: int, j: int| 0 <= i < j < n implies (#[trigger] w.sent[i]).pkt_num < (
        #[trigger] w.sent[j]).pkt_num by {
            assert(v.sent[i].pkt_num < v.sent[j].pkt_num);
        }
    }
}

/// The proxy's echo keeps the packets in place and in order, and leaves alone
/// which of them are lost and which the peer acknowledged.
pub proof fn lemma_echo_tally(v: SpaceView, ids: Set<u32>, now: Instant)
    ensures
        ({
            let w = v.after_echo(ids, now);
            &&& w.sent.len() == v.sent.len()
            &&& v.wf() ==> w.wf()
            &&& in_order(v.sent) ==> in_order(w.sent)
            &&& w.unlost_count() == v.unlost_count()
            &&& w.unlost_bytes() == v.unlost_bytes()
            &&& w.unacked_count() == v.unacked_count()
        }),
{
    reveal(unlost_in);
    reveal(unlost_bytes_in);
    reveal(unacked_in);
    let w = v.after_echo(ids, now);
    let n = v.sent.len() as int;
    lemma_count_same(n, unlost(v.sent), unlost(w.sent));
    lemma_bytes_same(v.sent, w.sent, unlost(v.sent), unlost(w.sent));
    lemma_count_same(n, unacked(v.sent), unacked(w.sent));
    if v.wf() {
        assert forall|i: int| 0 <= i < n implies (#[trigger] w.sent[i]).wf() by {
            assert(v.sent[i].wf());
        }
    }
    if in_order(v.sent) {
        assert forall|i: int, j: int| 0 <= i < j < n implies (#[trigger] w.sent[i]).pkt_num < (
        #[trigger] w.sent[j]).pkt_num by {
            assert(v.sent[i].pkt_num < v.sent[j].pkt_num);
        }
    }
}

/// Declaring packets lost keeps them in place and in order, leaves alone which
/// of them are acknowledged, and counts each packet once.
pub proof fn lemma_loss_tally(v: SpaceView, now: Instant, delay: Duration, pkt_thresh: u64)
    ensures
        ({
            let w = v.after_loss(now, delay, pkt_thresh);
            let n = v.search_end(now, delay, pkt_thresh);
            let packets = count(n, outstanding_before(v.sent, n));
            let lost_bytes = bytes(v.sent.take(n), in_flight_before(v.sent, n));
            &&& w.sent.len() == v.sent.len()
            &&& v.wf() && now.in_range() ==> w.wf()
            &&& in_order(v.sent) ==> in_order(w.sent)
            &&& w.unacked_count() == v.unacked_count()
            &&& w.unlost_count() + packets == v.unlost_count()
            &&& w.unlost_bytes() + lost_bytes <= v.unlost_bytes()
            &&& packets <= v.sent.len()
        }),
{
    reveal(unlost_in);
    reveal(unlost_bytes_in);
    reveal(unacked_in);
    let w = v.after_loss(now, delay, pkt_thresh);
    let len = v.sent.len() as int;
    let n = v.search_end(now, delay, pkt_thresh);
    let gone = outstanding_before(v.sent, n);
    let flew = in_flight_before(v.sent, n);
    lemma_first_index(
        0,
        len,
        search_ends(v.sent, v.largest_acked_pkt, now, delay, pkt_thresh),
    );
    lemma_count_same(len, unacked(v.sent), unacked(w.sent));
    lemma_count_split(len, unlost(v.sent), gone, unlost(w.sent));
    lemma_count_skip(gone, n, len);
    lemma_count_bound(n, gone);
    lemma_bytes_split(v.sent, w.sent, unlost(v.sent), gone, unlost(w.sent));
    lemma_bytes_le(v.sent.take(n), flew, gone);
    lemma_bytes_skip(v.sent, gone, n, len);
    assert(v.sent.take(len) =~= v.sent);
    if v.wf() && now.in_range() {
        assert forall|i: int| 0 <= i < len implies (#[trigger] w.sent[i]).wf() by {
            assert(v.sent[i].wf());
        }
    }
    if in_order(v.sent) {
        assert forall|i: int, j: int| 0 <= i < j < len implies (#[trigger] w.sent[i]).pkt_num
            < (#[trigger] w.sent[j]).pkt_num by {
            assert(v.sent[i].pkt_num < v.sent[j].pkt_num);
        }
    }
}

/// The packets that the proxy misses are counted in the same way.
pub proof fn lemma_miss_tally(v: SpaceView, ids: Set<u32>, now: Instant)
    ensures
        ({
            let w = v.after_miss(ids, now);
            let packets = count(v.sent.len() as int, missed(v.sent, ids));
            let lost_bytes = bytes(v.sent, missed_in_flight(v.sent, ids));
            &&& w.sent.len() == v.sent.len()
            &&& v.wf() && now.in_range() ==> w.wf()
            &&& in_order(v.sent) ==> in_order(w.sent)
            &&& w.unacked_count() == v.unacked_count()
            &&& w.unlost_count() + packets == v.unlost_count()
            &&& w.unlost_bytes() + lost_bytes <= v.unlost_bytes()
            &&& packets <= v.sent.len()
        }),
{
    reveal(unlost_in);
    reveal(unlost_bytes_in);
    reveal(unacked_in);
    let w = v.after_miss(ids, now);
    let len = v.sent.len() as int;
    let gone = missed(v.sent, ids);
    let flew = missed_in_flight(v.sent, ids);
    lemma_count_same(len, unacked(v.sent), unacked(w.sent));
    lemma_count_split(len, unlost(v.sent), gone, unlost(w.sent));
    lemma_count_bound(len, gone);
    lemma_bytes_split(v.sent, w.sent, unlost(v.sent), gone, unlost(w.sent));
    lemma_bytes_le(v.sent, flew, gone);
    if v.wf() && now.in_range() {
        assert forall|i: int| 0 <= i < len implies (#[trigger] w.sent[i]).wf() by {
            assert(v.sent[i].wf());
        }
    }
    if in_order(v.sent) {
        assert forall|i: int, j: int| 0 <= i < j < len implies (#[trigger] w.sent[i]).pkt_num
            < (#[trigger] w.sent[j]).pkt_num by {
            assert(v.sent[i].pkt_num < v.sent[j].pkt_num);
        }
    }
}

/// Draining removes packets from the front only.
pub proof fn lemma_drain_tally(v: SpaceView, rtt: Duration, now: Instant)
    ensures
        ({
            let w = v.drained(rtt, now);
            let n = first_index(0, v.sent.len() as int, remembered(v.sent, rtt, now));
            &&& 0 <= n <= v.sent.len()
            &&& w.sent == v.sent.skip(n)
            &&& v.wf() ==> w.wf()
            &&& in_order(v.sent) ==> in_order(w.sent)
            &&& w.unacked_count() <= v.unacked_count()
            &&& w.unlost_count() <= v.unlost_count()
            &&& w.unlost_bytes() <= v.unlost_bytes()
        }),
{
    reveal(unlost_in);
    reveal(unlost_bytes_in);
    reveal(unacked_in);
    let w = v.drained(rtt, now);
    let len = v.sent.len() as int;
    let n = first_index(0, len, remembered(v.sent, rtt, now));
    lemma_first_index(0, len, remembered(v.sent, rtt, now));
    lemma_count_tail(len, n, unacked(v.sent), unacked(w.sent));
    lemma_count_tail(len, n, unlost(v.sent), unlost(w.sent));
    lemma_bytes_tail(v.sent, n, unlost(v.sent), unlost(w.sent));
    if v.wf() {
        assert forall|i: int| 0 <= i < w.sent.len() implies (#[trigger] w.sent[i]).wf() by {
            assert(v.sent[i + n].wf());
        }
    }
    if in_order(v.sent) {
        assert forall|i: int, j: int| 0 <= i < j < w.sent.len() implies (
        #[trigger] w.sent[i]).pkt_num < (#[trigger] w.sent[j]).pkt_num by {
            assert(v.sent[i + n].pkt_num < v.sent[j + n].pkt_num);
        }
    }
}

/// One more packet is at most one more that is not lost and one more that is
/// not acknowledged. The packets stay in order if its number is larger.
pub proof fn lemma_send_tally(v: SpaceView, w: SpaceView, p: SentView)
    requires
        w.sent == v.sent.push(p),
    ensures
        all_wf(v.sent) && p.wf() ==> all_wf(w.sent),
        in_order(v.sent) && (v.sent.len() > 0 ==> v.sent.last().pkt_num < p.pkt_num)
            ==> in_order(w.sent),
        w.unacked_count() == v.unacked_count() + if p.time_acked is None {
            1int
        } else {
            0
        },
        w.unlost_count() == v.unlost_count() + if p.time_lost is None {
            1int
        } else {
            0
        },
        w.unlost_bytes() == v.unlost_bytes() + if p.time_lost is None {
            p.size as int
        } else {
            0
        },
{
    reveal(unlost_in);
    reveal(unlost_bytes_in);
    reveal(unacked_in);
    let n = v.sent.len() as int;
    assert(w.sent.drop_last() =~= v.sent);
    lemma_count_same(n, unacked(v.sent), unacked(w.sent));
    lemma_count_same(n, unlost(v.sent), unlost(w.sent));
    lemma_bytes_same(v.sent, w.sent.drop_last(), unlost(v.sent), unlost(w.sent));
    if in_order(v.sent) && (n > 0 ==> v.sent.last().pkt_num < p.pkt_num) {
        assert forall|i: int, j: int| 0 <= i < j < w.sent.len() implies (
        #[trigger] w.sent[i]).pkt_num < (#[trigger] w.sent[j]).pkt_num by {
            if j == n && i < n - 1 {
                assert(v.sent[i].pkt_num < v.sent[n - 1].pkt_num);
            }
        }
    }
}

} // verus!
