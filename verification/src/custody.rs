//! Who holds the frames: a frame that was sent is with its packet, in the list
//! of lost frames or in the list of acknowledged frames, and in one of them
//! only.
use vstd::multiset::Multiset;
use vstd::prelude::*;
use vstd::seq_lib::group_to_multiset_ensures;
use vstd::seq_lib::lemma_multiset_commutative;

use crate::congestion::CongestionControlOps;
use crate::frame::Frame;
use crate::lists::first_index;
use crate::lists::frames_in;
use crate::lists::lemma_first_index;
use crate::lists::lemma_pick_skip;
use crate::lists::pick;
use crate::lists::records;
use crate::loss::outstanding_before;
use crate::loss::remembered;
use crate::loss::search_ends;
use crate::model::HandshakeStatus;
use crate::model::RecoveryView;
use crate::packet::Epoch;
use crate::ranges::PktRange;
use crate::sent::Acked;
use crate::sent::SentView;
use crate::sidecar::missed;
use crate::sidecar::named;
use crate::space::fresh;
use crate::space::SpaceView;
use crate::time::Duration;
use crate::time::Instant;

verus! {

/// A packet that was acknowledged, declared lost or echoed has handed its
/// frames on.
pub open spec fn handed_on(s: Seq<SentView>) -> bool {
    forall|i: int|
        0 <= i < s.len() && !((#[trigger] s[i]).outstanding() && s[i].time_acked_sidecar is None)
            ==> s[i].frames.len() == 0
}

impl SpaceView {
    /// The frames that the space holds, wherever they are.
    pub open spec fn frames_held(self) -> Multiset<Frame> {
        self.lost.to_multiset().add(self.acked.to_multiset()).add(
            frames_in(self.sent).to_multiset(),
        )
    }
}

/// Packets that give up their frames or keep them: what is left and what was
/// given up is what there was.
proof fn lemma_frames_given(s: Seq<SentView>, t: Seq<SentView>, keep: spec_fn(int) -> bool)
    requires
        s.len() == t.len(),
        forall|i: int|
            0 <= i < s.len() ==> (#[trigger] t[i]).frames == if keep(i) {
                Seq::empty()
            } else {
                s[i].frames
            },
    ensures
        frames_in(s).to_multiset() == frames_in(t).to_multiset().add(
            frames_in(pick(s, keep)).to_multiset(),
        ),
    decreases s.len(),
{
    broadcast use group_to_multiset_ensures;

    if s.len() == 0 {
        assert(frames_in(s).to_multiset() =~= frames_in(t).to_multiset().add(
            frames_in(pick(s, keep)).to_multiset(),
        ));
    } else {
        let n = s.len() - 1;
        assert forall|i: int| 0 <= i < n implies (#[trigger] t.drop_last()[i]).frames == if keep(
            i,
        ) {
            Seq::empty()
        } else {
            s.drop_last()[i].frames
        } by {
            assert(t[i].frames == t.drop_last()[i].frames);
        }
        lemma_frames_given(s.drop_last(), t.drop_last(), keep);
        let given = pick(s.drop_last(), keep);
        lemma_multiset_commutative(frames_in(s.drop_last()), s[n].frames);
        lemma_multiset_commutative(frames_in(t.drop_last()), t[n].frames);
        if keep(n) {
            assert(given.push(s[n]).drop_last() =~= given);
            lemma_multiset_commutative(frames_in(given), s[n].frames);
        }
        assert(frames_in(s).to_multiset() =~= frames_in(t).to_multiset().add(
            frames_in(pick(s, keep)).to_multiset(),
        ));
    }
}

/// A list that loses packets without frames at its front keeps its frames.
proof fn lemma_frames_tail(s: Seq<SentView>, n: int)
    requires
        0 <= n <= s.len(),
        forall|i: int| 0 <= i < n ==> (#[trigger] s[i]).frames.len() == 0,
    ensures
        frames_in(s.skip(n)) == frames_in(s),
    decreases s.len(),
{
    if n < s.len() {
        assert(s.skip(n).drop_last() =~= s.drop_last().skip(n));
        assert forall|i: int| 0 <= i < n implies (#[trigger] s.drop_last()[i]).frames.len()
            == 0 by {
            assert(s[i].frames.len() == 0);
        }
        lemma_frames_tail(s.drop_last(), n);
    } else {
        assert(s.skip(n) =~= Seq::empty());
        if n > 0 {
            assert forall|i: int| 0 <= i < n - 1 implies (#[trigger] s.drop_last()[i]).frames.len()
                == 0 by {
                assert(s[i].frames.len() == 0);
            }
            lemma_frames_tail(s.drop_last(), n - 1);
            assert(s.drop_last().skip(n - 1) =~= Seq::empty());
            assert(s[n - 1].frames.len() == 0);
            assert(frames_in(s) =~= Seq::empty());
        }
    }
}

/// An acknowledgement moves frames from the packets to the acknowledged ones:
/// no frame is lost and none is made up. A packet that it marks keeps none.
pub proof fn lemma_ack_custody(v: SpaceView, ranges: Seq<PktRange>, now: Instant)
    requires
        handed_on(v.sent),
    ensures
        v.after_ack(ranges, now).frames_held() == v.frames_held(),
        v.after_ack(ranges, now).lost == v.lost,
        handed_on(v.after_ack(ranges, now).sent),
{
    broadcast use group_to_multiset_ensures;

    let w = v.after_ack(ranges, now);
    let moved = frames_in(pick(v.sent, fresh(v.sent, ranges)));
    assert forall|i: int| 0 <= i < v.sent.len() implies (#[trigger] w.sent[i]).frames == if fresh(
        v.sent,
        ranges,
    )(i) {
        Seq::empty()
    } else {
        v.sent[i].frames
    } by {
        assert(v.sent[i].outstanding() || v.sent[i].frames.len() == 0);
    }
    lemma_frames_given(v.sent, w.sent, fresh(v.sent, ranges));
    lemma_multiset_commutative(v.acked, moved);
    assert(w.frames_held() =~= v.frames_held());
    assert forall|i: int|
        0 <= i < w.sent.len() && !((#[trigger] w.sent[i]).outstanding()
            && w.sent[i].time_acked_sidecar is None) implies w.sent[i].frames.len() == 0 by {
        assert(v.sent[i].outstanding() && v.sent[i].time_acked_sidecar is None
            || v.sent[i].frames.len() == 0);
    }
}

/// The proxy's echo moves frames from the packets to the acknowledged ones.
pub proof fn lemma_echo_custody(v: SpaceView, ids: Set<u32>, now: Instant)
    requires
        handed_on(v.sent),
    ensures
        v.after_echo(ids, now).frames_held() == v.frames_held(),
        v.after_echo(ids, now).lost == v.lost,
        handed_on(v.after_echo(ids, now).sent),
{
    broadcast use group_to_multiset_ensures;

    let w = v.after_echo(ids, now);
    lemma_frames_given(v.sent, w.sent, named(v.sent, ids));
    lemma_multiset_commutative(v.acked, frames_in(pick(v.sent, named(v.sent, ids))));
    assert(w.frames_held() =~= v.frames_held());
    assert forall|i: int|
        0 <= i < w.sent.len() && !((#[trigger] w.sent[i]).outstanding()
            && w.sent[i].time_acked_sidecar is None) implies w.sent[i].frames.len() == 0 by {
        assert(v.sent[i].outstanding() && v.sent[i].time_acked_sidecar is None
            || v.sent[i].frames.len() == 0);
    }
}

/// A loss moves frames from the packets to the lost ones, to be sent again.
pub proof fn lemma_loss_custody(v: SpaceView, now: Instant, delay: Duration, pkt_thresh: u64)
    requires
        handed_on(v.sent),
    ensures
        v.after_loss(now, delay, pkt_thresh).frames_held() == v.frames_held(),
        v.after_loss(now, delay, pkt_thresh).acked == v.acked,
        handed_on(v.after_loss(now, delay, pkt_thresh).sent),
{
    broadcast use group_to_multiset_ensures;

    let w = v.after_loss(now, delay, pkt_thresh);
    let len = v.sent.len() as int;
    let n = v.search_end(now, delay, pkt_thresh);
    let gone = outstanding_before(v.sent, n);
    lemma_first_index(
        0,
        len,
        search_ends(v.sent, v.largest_acked_pkt, now, delay, pkt_thresh),
    );
    lemma_pick_skip(v.sent, gone, n, len);
    assert(v.sent.take(len) =~= v.sent);
    lemma_frames_given(v.sent, w.sent, gone);
    lemma_multiset_commutative(v.lost, frames_in(pick(v.sent, gone)));
    assert(w.frames_held() =~= v.frames_held());
    assert forall|i: int|
        0 <= i < w.sent.len() && !((#[trigger] w.sent[i]).outstanding()
            && w.sent[i].time_acked_sidecar is None) implies w.sent[i].frames.len() == 0 by {
        assert(v.sent[i].outstanding() && v.sent[i].time_acked_sidecar is None
            || v.sent[i].frames.len() == 0);
    }
}

/// The packets that the proxy misses give up their frames in the same way.
pub proof fn lemma_miss_custody(v: SpaceView, ids: Set<u32>, now: Instant)
    requires
        handed_on(v.sent),
    ensures
        v.after_miss(ids, now).frames_held() == v.frames_held(),
        v.after_miss(ids, now).acked == v.acked,
        handed_on(v.after_miss(ids, now).sent),
{
    broadcast use group_to_multiset_ensures;

    let w = v.after_miss(ids, now);
    lemma_frames_given(v.sent, w.sent, missed(v.sent, ids));
    lemma_multiset_commutative(v.lost, frames_in(pick(v.sent, missed(v.sent, ids))));
    assert(w.frames_held() =~= v.frames_held());
    assert forall|i: int|
        0 <= i < w.sent.len() && !((#[trigger] w.sent[i]).outstanding()
            && w.sent[i].time_acked_sidecar is None) implies w.sent[i].frames.len() == 0 by {
        assert(v.sent[i].outstanding() && v.sent[i].time_acked_sidecar is None
            || v.sent[i].frames.len() == 0);
    }
}

/// The packets that are forgotten hold no frames.
pub proof fn lemma_drain_custody(v: SpaceView, rtt: Duration, now: Instant)
    requires
        handed_on(v.sent),
    ensures
        v.drained(rtt, now).frames_held() == v.frames_held(),
        handed_on(v.drained(rtt, now).sent),
{
    let w = v.drained(rtt, now);
    let len = v.sent.len() as int;
    let keep = remembered(v.sent, rtt, now);
    let n = first_index(0, len, keep);
    lemma_first_index(0, len, keep);
    assert forall|i: int| 0 <= i < n implies (#[trigger] v.sent[i]).frames.len() == 0 by {
        assert(!keep(i));
    }
    lemma_frames_tail(v.sent, n);
    assert forall|i: int|
        0 <= i < w.sent.len() && !((#[trigger] w.sent[i]).outstanding()
            && w.sent[i].time_acked_sidecar is None) implies w.sent[i].frames.len() == 0 by {
        assert(w.sent[i] == v.sent[i + n]);
    }
}

/// A packet brings in its own frames and no others.
pub proof fn lemma_send_custody(v: SpaceView, w: SpaceView, p: SentView)
    requires
        handed_on(v.sent),
        p.outstanding(),
        p.time_acked_sidecar is None,
        w == (SpaceView { sent: v.sent.push(p), ..v }),
    ensures
        w.frames_held() == v.frames_held().add(p.frames.to_multiset()),
        handed_on(w.sent),
{
    assert(w.sent.drop_last() =~= v.sent);
    lemma_multiset_commutative(frames_in(v.sent), p.frames);
    assert(w.frames_held() =~= v.frames_held().add(p.frames.to_multiset()));
}

/// Detecting losses loses no frame.
pub proof fn lemma_detection_custody<C: CongestionControlOps>(
    m: RecoveryView<C>,
    e: Epoch,
    now: Instant,
)
    requires
        m.spaces.len() == 3,
        handed_on(m.space(e).sent),
    ensures
        m.after_loss(e, now).spaces.len() == 3,
        m.after_loss(e, now).space(e).frames_held() == m.space(e).frames_held(),
        m.after_loss(e, now).space(e).acked == m.space(e).acked,
        handed_on(m.after_loss(e, now).space(e).sent),
{
    let v = m.space(e);
    lemma_loss_custody(v, now, m.loss_delay(), m.pkt_thresh);
    let w = v.after_loss(now, m.loss_delay(), m.pkt_thresh);
    let o = m.loss_outcome(e, now);
    let marked = m.with_loss_marked(e, now);
    let told = marked.with_loss_told(o, e, now);
    lemma_drain_custody(w, told.path.spec_rtt(), now);
}

/// An ACK frame loses no frame: those of the packets that it acknowledges are
/// handed out as acknowledged, those of lost packets are to be sent again.
pub proof fn lemma_ack_frame_custody<C: CongestionControlOps>(
    m: RecoveryView<C>,
    ranges: Seq<PktRange>,
    ack_delay: u64,
    e: Epoch,
    hs: HandshakeStatus,
    now: Instant,
    newly_acked: Seq<Acked>,
)
    requires
        m.spaces.len() == 3,
        handed_on(m.space(e).sent),
    ensures
        ({
            let w = m.after_ack(ranges, ack_delay, e, hs, now, newly_acked).0;
            &&& w.space(e).frames_held() == m.space(e).frames_held()
            &&& handed_on(w.space(e).sent)
        }),
{
    let largest = (ranges.last().end - 1) as u64;
    let raised = m.with_largest_acked(e, largest);
    assert(raised.space(e).frames_held() == m.space(e).frames_held());
    lemma_ack_custody(raised.space(e), ranges, now);
    let o = raised.ack_outcome(ranges, e, now);
    let marked = raised.with_ack_marked(ranges, e, now).with_rollback(o.undo_cwnd);
    assert(marked.space(e) == raised.space(e).after_ack(ranges, now));
    if o.acked {
        let timed = marked.with_ack_timed(o, largest, ack_delay, e, now);
        assert(timed.spaces == marked.spaces);
        lemma_detection_custody(timed, e, now);
        let s = raised.space(e).sent;
        let all = newly_acked + records(pick(s, fresh(s, ranges)), now);
        let told = timed.after_loss(e, now).after_acked(all, e, now).0;
        let armed = RecoveryView { pto_count: 0, ..told }.with_timer(hs, now);
        lemma_drain_custody(armed.space(e), armed.path.spec_rtt(), now);
    }
}

/// A quack loses no frame.
pub proof fn lemma_quack_custody<C: CongestionControlOps>(
    m: RecoveryView<C>,
    acked_ids: Set<u32>,
    missing_ids: Set<u32>,
    now: Instant,
)
    requires
        m.spaces.len() == 3,
        handed_on(m.space(Epoch::Application).sent),
    ensures
        ({
            let v = m.space(Epoch::Application);
            let w = m.with_quack_applied(acked_ids, missing_ids, now).space(Epoch::Application);
            &&& w.frames_held() == v.frames_held()
            &&& handed_on(w.sent)
        }),
{
    let echoed = m.with_echo(acked_ids, now);
    lemma_echo_custody(m.space(Epoch::Application), acked_ids, now);
    lemma_miss_custody(echoed.space(Epoch::Application), missing_ids, now);
}

} // verus!
