//! What the exchange with a proxy has to satisfy: which identifiers count as
//! sent, which leave the log, and what a quack asks for.
use vstd::prelude::*;

use crate::congestion::CongestionControlOps;
use crate::congestion::QuackMetadata;
use crate::lists::first_index;
use crate::lists::lemma_count_some;
use crate::lists::lemma_first_index;
use crate::lists::lemma_pick_from;
use crate::lists::lemma_pick_len;
use crate::model::QuackAction;
use crate::model::RecoveryView;
use crate::model::SidecarView;
use crate::quack::anywhere;
use crate::quack::at_id;
use crate::quack::decoded_power_sum;
use crate::quack::decoded_strawman_a;
use crate::quack::decoded_strawman_b;
use crate::quack::in_window;
use crate::quack::is_root;
use crate::quack::lemma_position_listed;
use crate::quack::lemma_positions;
use crate::quack::lemma_positions_below;
use crate::quack::lemma_power_sum_bounds;
use crate::quack::no_root;
use crate::quack::out_of_window;
use crate::quack::positions;
use crate::quack::Quack;
use crate::sidecar::is_named;
use crate::sidecar::named;
use crate::time::Instant;

verus! {

/// A received quack moves the covered part of the log on, up to behind the
/// first place of its last value, or to the end. The identifiers on the way,
/// and no others, go into the sender's quack.
pub proof fn lemma_cover_log(s: SidecarView, last_value: u32, c: int)
    requires
        s.wf(),
        c == s.with_covered(last_value).next_log_index,
    ensures
        s.next_log_index <= c <= s.log.len(),
        forall|i: int| s.next_log_index <= i < c - 1 ==> s.log[i] != last_value,
        c < s.log.len() ==> s.next_log_index < c && s.log[c - 1] == last_value,
        s.inserted(last_value).len() == c - s.next_log_index,
        forall|i: int|
            0 <= i < c - s.next_log_index ==> #[trigger] s.inserted(last_value)[i]
                == s.log[s.next_log_index + i],
        (s.with_covered(last_value).quack_count - s.quack_count - (c - s.next_log_index))
            % 0x1_0000_0000 == 0,
        s.with_covered(last_value) == (SidecarView {
            next_log_index: c as usize,
            quack_count: s.with_covered(last_value).quack_count,
            ..s
        }),
{
    let n = s.log.len() as int;
    let from = s.next_log_index as int;
    lemma_first_index(from, n, at_id(s.log, last_value));
    assert forall|i: int| from <= i < c - 1 implies s.log[i] != last_value by {
        assert(!at_id(s.log, last_value)(i));
    }
}

/// What a quack asks for, given how many of its identifiers the proxy has not
/// counted: nothing if its count is zero or was seen last; a new start if the
/// proxy counts more than were sent, or misses more than can be decoded;
/// nothing more if all was received; and decoding otherwise.
pub proof fn lemma_quack_decision<C: CongestionControlOps>(
    m: RecoveryView<C>,
    count: u32,
    last_value: u32,
    missing: int,
)
    requires
        m.wf(),
        missing == m.sidecar.with_covered(last_value).quack_count - count,
    ensures
        ({
            let a = m.quack_action(count, last_value);
            let w = m.after_quack(count, last_value);
            let stale = count == 0 || count == m.sidecar.last_decoded_quack_count;
            let c = m.sidecar.with_covered(last_value).next_log_index;
            &&& a is Ignore <==> stale
            &&& a is Reset <==> !stale && (missing < 0 || missing > m.sidecar.quack_threshold)
            &&& a is Settle <==> !stale && missing == 0 && c == m.sidecar.log.len()
            &&& a is Decode <==> !stale && 0 <= missing <= m.sidecar.quack_threshold && (missing
                > 0 || c < m.sidecar.log.len())
            &&& a is Decode ==> a->missing == missing
            &&& stale ==> w == m
            &&& !stale ==> w.sidecar.last_decoded_quack_count == count
            &&& !stale ==> w.sidecar.quack_count == m.sidecar.with_covered(
                last_value,
            ).quack_count
            &&& a is Settle ==> w.sidecar.log.len() == 0 && w.sidecar.next_log_index == 0
            &&& !stale && !(a is Settle) ==> w.sidecar.log == m.sidecar.log
                && w.sidecar.next_log_index == c
            &&& w == (RecoveryView {
                sidecar: SidecarView {
                    log: w.sidecar.log,
                    next_log_index: w.sidecar.next_log_index,
                    quack_count: w.sidecar.quack_count,
                    last_decoded_quack_count: w.sidecar.last_decoded_quack_count,
                    ..m.sidecar
                },
                ..m
            })
        }),
{
    lemma_cover_log(
        m.sidecar,
        last_value,
        m.sidecar.with_covered(last_value).next_log_index as int,
    );
}

/// What a decoded power sum quack drops from the log is a prefix of the part
/// that counted as covered, and what stays of that part still counts as
/// covered: `drain + next' == next`. What was not covered is neither dropped
/// nor covered by it.
pub proof fn lemma_decoding_keeps_cover<C: CongestionControlOps>(
    m: RecoveryView<C>,
    missing: u32,
    roots: Seq<bool>,
    now: Instant,
)
    requires
        m.wf(),
        roots.len() == m.sidecar.next_log_index,
    ensures
        ({
            let s = m.sidecar;
            let t = m.after_decoded(missing, roots, now).sidecar;
            let drain = s.log.len() - t.log.len();
            &&& 0 <= drain <= s.next_log_index
            &&& drain + t.next_log_index == s.next_log_index
            &&& forall|i: int| 0 <= i < t.log.len() ==> #[trigger] t.log[i] == s.log[drain + i]
            &&& t == (SidecarView {
                log: t.log,
                next_log_index: t.next_log_index,
                quack_count: t.quack_count,
                ..s
            })
        }),
{
    let s = m.sidecar;
    let log = s.log.take(s.next_log_index as int);
    lemma_power_sum_bounds(log, missing, roots);
}

/// A decoded power sum quack is about the covered part of the log. What it says
/// is applied to the packets.
pub proof fn lemma_decoding_applies<C: CongestionControlOps>(
    m: RecoveryView<C>,
    missing: u32,
    roots: Seq<bool>,
    now: Instant,
)
    ensures
        ({
            let s = m.sidecar;
            let d = decoded_power_sum(s.log.take(s.next_log_index as int), missing, roots);
            let w = m.after_decoded(missing, roots, now);
            &&& m.decoded_quack(missing, roots) == d
            &&& !m.quack_void(d.acked_ids) ==> w == (RecoveryView {
                sidecar: w.sidecar,
                ..m.with_quack_applied(d.acked_ids, d.missing_ids, now)
            })
        }),
{
}

/// A window of identifiers is about the whole log. What it says is applied to
/// the packets, and what it settles leaves the log.
pub proof fn lemma_window_applies<C: CongestionControlOps>(
    m: RecoveryView<C>,
    window: Seq<u32>,
    acked_ids: Set<u32>,
    missing_ids: Set<u32>,
    drain_index: int,
    now: Instant,
)
    ensures
        ({
            let d = decoded_strawman_b(m.sidecar.log, window);
            m.after_window(window, now) == m.after_echoes(
                d.acked_ids,
                d.missing_ids,
                d.drain_index,
                now,
            )
        }),
        !m.quack_void(acked_ids) ==> ({
            let w = m.after_echoes(acked_ids, missing_ids, drain_index, now);
            &&& w == (RecoveryView {
                sidecar: w.sidecar,
                ..m.with_quack_applied(acked_ids, missing_ids, now)
            })
            &&& m.echo_losses(acked_ids, missing_ids, now) == m.quack_losses(
                acked_ids,
                missing_ids,
                now,
            )
        }),
{
}

/// The positions below `n` that are kept: all of them, in increasing order.
proof fn lemma_positions_exact(n: int, keep: spec_fn(int) -> bool)
    requires
        0 <= n <= usize::MAX,
    ensures
        forall|a: int, b: int|
            0 <= a < b < positions(n, keep).len() ==> positions(n, keep)[a] < positions(n, keep)[b],
        forall|i: usize| #[trigger] positions(n, keep).contains(i) <==> i < n && keep(i as int),
{
    lemma_positions(n, keep);
    lemma_positions_below(n, keep);
    assert forall|i: usize| #[trigger] positions(n, keep).contains(i) <==> i < n && keep(
        i as int,
    ) by {
        if i < n && keep(i as int) {
            lemma_position_listed(n, keep, i as int);
        }
    }
}

/// Each kind of quack is decoded in its own way.
pub proof fn lemma_decoding_by_kind(quack: Quack, log: Seq<u32>)
    ensures
        quack matches Quack::PowerSum { count, roots } ==> quack.decoded(log) == decoded_power_sum(
            log,
            count,
            roots@,
        ),
        quack matches Quack::StrawmanA { sidecar_id } ==> quack.decoded(log) == decoded_strawman_a(
            log,
            sidecar_id,
        ),
        quack matches Quack::StrawmanB { window } ==> quack.decoded(log) == decoded_strawman_b(
            log,
            window@,
        ),
{
}

/// A power sum quack that counts nothing acknowledges the whole log. Otherwise
/// it acknowledges what is no root. The roots are missing, but those among the
/// last four of the log are held back, and the log is settled up to the first
/// of these.
pub proof fn lemma_power_sum_meaning(log: Seq<u32>, count: u32, roots: Seq<bool>)
    requires
        log.len() <= usize::MAX,
        roots.len() == log.len(),
    ensures
        ({
            let n = log.len() as int;
            let d = decoded_power_sum(log, count, roots);
            let gone = d.missing_indexes;
            &&& forall|id: u32| #[trigger]
                d.acked_ids.contains(id) <==> exists|i: int|
                    0 <= i < n && #[trigger] log[i] == id && (count == 0 || !roots[i])
            &&& forall|id: u32| #[trigger]
                d.missing_ids.contains(id) <==> count > 0 && (exists|i: int|
                    0 <= i < n && #[trigger] log[i] == id && roots[i]) && !(exists|i: int|
                    0 <= i < n && n - 4 <= i && #[trigger] log[i] == id && roots[i])
            &&& forall|i: usize| #[trigger]
                gone.contains(i) <==> count > 0 && i + 4 < n && roots[i as int]
            &&& forall|a: int, b: int| 0 <= a < b < gone.len() ==> gone[a] < gone[b]
            &&& 0 <= d.drain_index <= n
            &&& d.drain_index + d.num_reordered == n
            &&& count == 0 ==> d.drain_index == n
            &&& count > 0 ==> n - 4 <= d.drain_index
            &&& count > 0 ==> forall|i: int|
                0 <= i && n - 4 <= i < d.drain_index ==> !#[trigger] roots[i]
            &&& count > 0 && d.drain_index < n ==> roots[d.drain_index]
        }),
{
    let n = log.len() as int;
    let d = decoded_power_sum(log, count, roots);
    let cut = if n > 3 {
        n - 4
    } else {
        0
    };
    lemma_power_sum_bounds(log, count, roots);
    lemma_positions_exact(cut, is_root(roots));
    lemma_first_index(cut, n, is_root(roots));
    assert forall|id: u32| #[trigger]
        d.acked_ids.contains(id) <==> exists|i: int|
            0 <= i < n && #[trigger] log[i] == id && (count == 0 || !roots[i]) by {
        if exists|i: int| 0 <= i < n && #[trigger] log[i] == id && (count == 0 || !roots[i]) {
            let i = choose|i: int|
                0 <= i < n && #[trigger] log[i] == id && (count == 0 || !roots[i]);
            assert(anywhere()(i));
            if count != 0 {
                assert(no_root(roots)(i));
            }
        }
    }
    assert forall|id: u32| #[trigger]
        d.missing_ids.contains(id) <==> count > 0 && (exists|i: int|
            0 <= i < n && #[trigger] log[i] == id && roots[i]) && !(exists|i: int|
            0 <= i < n && n - 4 <= i && #[trigger] log[i] == id && roots[i]) by {
        if exists|i: int| 0 <= i < n && #[trigger] log[i] == id && roots[i] {
            let i = choose|i: int| 0 <= i < n && #[trigger] log[i] == id && roots[i];
            assert(is_root(roots)(i));
        }
        if exists|i: int| 0 <= i < n && n - 4 <= i && #[trigger] log[i] == id && roots[i] {
            let i = choose|i: int|
                0 <= i < n && n - 4 <= i && #[trigger] log[i] == id && roots[i];
            assert(is_root(roots)(i));
        }
    }
    assert forall|i: int| count > 0 && 0 <= i && n - 4 <= i < d.drain_index implies !(
    #[trigger] roots[i]) by {
        assert(!is_root(roots)(i));
    }
}

/// An echoed identifier acknowledges its first place `k` in the log and leaves
/// what stands before it missing, but for the last three. The log is settled up
/// to these, or beyond the place if it is the first.
pub proof fn lemma_echo_meaning(log: Seq<u32>, id: u32, k: int)
    requires
        log.len() <= usize::MAX,
        0 <= k <= log.len(),
        forall|i: int| 0 <= i < k ==> log[i] != id,
        k < log.len() ==> log[k] == id,
    ensures
        ({
            let d = decoded_strawman_a(log, id);
            let gone = d.missing_indexes;
            &&& forall|x: u32| #[trigger]
                d.acked_ids.contains(x) <==> x == id && k < log.len()
            &&& forall|x: u32| #[trigger]
                d.missing_ids.contains(x) <==> (exists|i: int|
                    0 <= i < k && #[trigger] log[i] == x) && !(exists|i: int|
                    0 <= i && k - 3 <= i < k && #[trigger] log[i] == x)
            &&& forall|i: usize| #[trigger] gone.contains(i) <==> i + 3 < k
            &&& forall|a: int, b: int| 0 <= a < b < gone.len() ==> gone[a] < gone[b]
            &&& k == 0 && log.len() > 0 ==> d.drain_index == 1
            &&& k == 0 && log.len() == 0 ==> d.drain_index == 0
            &&& 0 < k <= 3 ==> d.drain_index == 0 && d.num_reordered == k
            &&& k > 3 ==> d.drain_index == k - 3 && d.num_reordered == 3
        }),
{
    let n = log.len() as int;
    let d = decoded_strawman_a(log, id);
    let f = first_index(0, n, at_id(log, id));
    lemma_first_index(0, n, at_id(log, id));
    if f < k {
        assert(log[f] == id);
    }
    if k < f {
        assert(at_id(log, id)(k));
    }
    let held = if k >= 3 {
        3
    } else {
        k
    };
    lemma_positions_exact(k - held, anywhere());
    assert forall|x: u32| #[trigger] d.acked_ids.contains(x) <==> x == id && k < n by {
        if k < n {
            assert(at_id(log, id)(k));
        }
        if d.acked_ids.contains(x) {
            let i = choose|i: int| 0 <= i < n && #[trigger] at_id(log, id)(i) && log[i] == x;
            assert(log[i] == id);
        }
    }
    assert forall|x: u32| #[trigger]
        d.missing_ids.contains(x) <==> (exists|i: int| 0 <= i < k && #[trigger] log[i] == x)
            && !(exists|i: int| 0 <= i && k - 3 <= i < k && #[trigger] log[i] == x) by {
        if exists|i: int| 0 <= i < k && #[trigger] log[i] == x {
            let i = choose|i: int| 0 <= i < k && #[trigger] log[i] == x;
            assert(anywhere()(i));
        }
        if exists|i: int| 0 <= i && k - 3 <= i < k && #[trigger] log[i] == x {
            let i = choose|i: int| 0 <= i && k - 3 <= i < k && #[trigger] log[i] == x;
            assert(anywhere()(i));
        }
    }
}

/// A window of identifiers acknowledges its own, up to the first place `k` of
/// the newest in the log. Those before it that are not in the window are
/// missing, but for the last three places. The log is settled up to the first
/// of these that is not in the window, or beyond `k` if there is none.
pub proof fn lemma_window_meaning(log: Seq<u32>, window: Seq<u32>, k: int, end: int)
    requires
        log.len() <= usize::MAX,
        window.len() > 0,
        0 <= k <= log.len(),
        forall|i: int| 0 <= i < k ==> log[i] != window.last(),
        k < log.len() ==> log[k] == window.last(),
        0 <= end <= k,
        k - 3 <= end,
        forall|i: int| 0 <= i && k - 3 <= i < end ==> window.contains(#[trigger] log[i]),
        end < k ==> !window.contains(log[end]),
    ensures
        ({
            let d = decoded_strawman_b(log, window);
            let gone = d.missing_indexes;
            &&& forall|x: u32| #[trigger]
                d.acked_ids.contains(x) <==> window.contains(x) && exists|i: int|
                    0 <= i <= k && i < log.len() && #[trigger] log[i] == x
            &&& forall|x: u32| #[trigger]
                d.missing_ids.contains(x) <==> !window.contains(x) && (exists|i: int|
                    0 <= i < k && #[trigger] log[i] == x) && !(exists|i: int|
                    0 <= i && k - 3 <= i < k && #[trigger] log[i] == x)
            &&& forall|i: usize| #[trigger]
                gone.contains(i) <==> i + 3 < k && !window.contains(log[i as int])
            &&& forall|a: int, b: int| 0 <= a < b < gone.len() ==> gone[a] < gone[b]
            &&& d.num_reordered == k - end
            &&& end == k ==> d.drain_index == k + 1
            &&& end < k ==> d.drain_index == end
        }),
{
    let n = log.len() as int;
    let d = decoded_strawman_b(log, window);
    let f = first_index(0, n, at_id(log, window.last()));
    lemma_first_index(0, n, at_id(log, window.last()));
    if f < k {
        assert(log[f] == window.last());
    }
    if k < f {
        assert(at_id(log, window.last())(k));
    }
    let cut = if k > 3 {
        k - 3
    } else {
        0
    };
    let out = out_of_window(log, window);
    let e = first_index(cut, k, out);
    lemma_first_index(cut, k, out);
    if e < end {
        assert(out(e));
    }
    if end < e {
        assert(out(end));
    }
    lemma_positions_exact(cut, out);
    assert forall|x: u32| #[trigger]
        d.acked_ids.contains(x) <==> window.contains(x) && exists|i: int|
            0 <= i <= k && i < log.len() && #[trigger] log[i] == x by {
        if window.contains(x) && exists|i: int|
            0 <= i <= k && i < log.len() && #[trigger] log[i] == x {
            let i = choose|i: int| 0 <= i <= k && i < log.len() && #[trigger] log[i] == x;
            assert(in_window(log, window)(i));
        }
        if d.acked_ids.contains(x) {
            let i = choose|i: int|
                0 <= i <= k && i < n && #[trigger] in_window(log, window)(i) && log[i] == x;
            assert(window.contains(log[i]));
        }
    }
    assert forall|x: u32| #[trigger]
        d.missing_ids.contains(x) <==> !window.contains(x) && (exists|i: int|
            0 <= i < k && #[trigger] log[i] == x) && !(exists|i: int|
            0 <= i && k - 3 <= i < k && #[trigger] log[i] == x) by {
        if !window.contains(x) {
            if exists|i: int| 0 <= i < k && #[trigger] log[i] == x {
                let i = choose|i: int| 0 <= i < k && #[trigger] log[i] == x;
                assert(out(i));
            }
            if exists|i: int| 0 <= i && k - 3 <= i < k && #[trigger] log[i] == x {
                let i = choose|i: int| 0 <= i && k - 3 <= i < k && #[trigger] log[i] == x;
                assert(out(i));
            }
        }
    }
}

/// As many identifiers leave the sender's quack as are given up for missing,
/// each counted once, and all of them leave the log.
pub proof fn lemma_decoding_uncounts_missing<C: CongestionControlOps>(
    m: RecoveryView<C>,
    missing: u32,
    roots: Seq<bool>,
    now: Instant,
    gone: Seq<usize>,
)
    requires
        m.wf(),
        roots.len() == m.sidecar.next_log_index,
        !m.quack_void(m.decoded_quack(missing, roots).acked_ids),
        forall|a: int, b: int| 0 <= a < b < gone.len() ==> gone[a] < gone[b],
        forall|i: usize| #[trigger]
            gone.contains(i) <==> missing > 0 && i + 4 < m.sidecar.next_log_index
                && roots[i as int],
    ensures
        ({
            let s = m.sidecar;
            let t = m.after_decoded(missing, roots, now).sidecar;
            let drain = s.log.len() - t.log.len();
            &&& (t.quack_count - s.quack_count + gone.len()) % 0x1_0000_0000 == 0
            &&& forall|a: int| 0 <= a < gone.len() ==> #[trigger] gone[a] < drain
            &&& m.ids_of(gone).len() == gone.len()
            &&& forall|a: int|
                0 <= a < gone.len() ==> #[trigger] m.ids_of(gone)[a] == s.log[gone[a] as int]
        }),
{
    let s = m.sidecar;
    let log = s.log.take(s.next_log_index as int);
    let d = m.decoded_quack(missing, roots);
    lemma_power_sum_meaning(log, missing, roots);
    lemma_same_list(gone, d.missing_indexes);
    lemma_power_sum_bounds(log, missing, roots);
}

/// Two increasing lists of the same positions are equal.
proof fn lemma_same_list(a: Seq<usize>, b: Seq<usize>)
    requires
        forall|i: int, j: int| 0 <= i < j < a.len() ==> a[i] < a[j],
        forall|i: int, j: int| 0 <= i < j < b.len() ==> b[i] < b[j],
        forall|i: usize| #[trigger] a.contains(i) <==> b.contains(i),
    ensures
        a == b,
    decreases a.len(),
{
    if a.len() == 0 {
        if b.len() > 0 {
            assert(b.contains(b[0]));
            assert(a.contains(b[0]));
        }
        assert(a =~= b);
    } else {
        assert(a.contains(a.last()));
        assert(b.contains(a.last()));
        let k = b.index_of(a.last());
        assert(b.contains(b.last()));
        assert(a.contains(b.last()));
        let l = a.index_of(b.last());
        assert(b[k] == a.last());
        assert(a[l] == b.last());
        assert(a.last() == b.last());
        let x = a.drop_last();
        let y = b.drop_last();
        assert forall|i: usize| #[trigger] x.contains(i) <==> y.contains(i) by {
            if x.contains(i) {
                let q = x.index_of(i);
                assert(a[q] == i);
                assert(a.contains(i));
                assert(b.contains(i));
                let r = b.index_of(i);
                assert(b[r] == i);
                assert(a[q] < a[a.len() - 1]);
                assert(r < b.len() - 1);
                assert(y[r] == i);
            }
            if y.contains(i) {
                let q = y.index_of(i);
                assert(b[q] == i);
                assert(b.contains(i));
                assert(a.contains(i));
                let r = a.index_of(i);
                assert(a[r] == i);
                assert(b[q] < b[b.len() - 1]);
                assert(r < a.len() - 1);
                assert(x[r] == i);
            }
        }
        lemma_same_list(x, y);
        assert(a =~= x.push(a.last()));
        assert(b =~= y.push(b.last()));
    }
}

/// Between two quacks, an identifier goes into the sender's quack at most once:
/// what the next quack inserts begins where the covered part of the log ended
/// before the first was decoded, however many identifiers that held back.
pub proof fn lemma_inserted_once<C: CongestionControlOps>(
    m: RecoveryView<C>,
    missing: u32,
    roots: Seq<bool>,
    now: Instant,
    next_value: u32,
    i: int,
)
    requires
        m.wf(),
        roots.len() == m.sidecar.next_log_index,
        0 <= i < m.after_decoded(missing, roots, now).sidecar.inserted(next_value).len(),
    ensures
        m.sidecar.next_log_index + i < m.sidecar.log.len(),
        m.after_decoded(missing, roots, now).sidecar.inserted(next_value)[i]
            == m.sidecar.log[m.sidecar.next_log_index + i],
{
    lemma_decoding_keeps_cover(m, missing, roots, now);
    let t = m.after_decoded(missing, roots, now).sidecar;
    lemma_cover_log(t, next_value, t.with_covered(next_value).next_log_index as int);
    let drain = m.sidecar.log.len() - t.log.len();
    assert(t.log[t.next_log_index + i] == m.sidecar.log[drain + (t.next_log_index + i)]);
}

/// Over a quack that is received and decoded, the sender's count changes by the
/// number of identifiers that are inserted less the number of those that are
/// taken out, each counted once, and the covered part of the log by those that
/// are inserted less those that leave the log.
pub proof fn lemma_count_balance<C: CongestionControlOps>(
    m: RecoveryView<C>,
    count: u32,
    last_value: u32,
    missing: u32,
    roots: Seq<bool>,
    now: Instant,
    gone: Seq<usize>,
)
    requires
        m.wf(),
        m.quack_action(count, last_value) == (QuackAction::Decode { missing }),
        ({
            let r = m.after_quack(count, last_value);
            let n = r.sidecar.next_log_index;
            &&& roots.len() == n
            &&& !r.quack_void(r.decoded_quack(missing, roots).acked_ids)
            &&& forall|a: int, b: int| 0 <= a < b < gone.len() ==> gone[a] < gone[b]
            &&& forall|i: usize| #[trigger]
                gone.contains(i) <==> missing > 0 && i + 4 < n && roots[i as int]
        }),
    ensures
        ({
            let t = m.after_quack(count, last_value).after_decoded(missing, roots, now).sidecar;
            let s = m.sidecar;
            let k = s.inserted(last_value).len();
            &&& (t.quack_count - s.quack_count - k + gone.len()) % 0x1_0000_0000 == 0
            &&& t.next_log_index == s.next_log_index + k - (s.log.len() - t.log.len())
        }),
{
    let s = m.sidecar;
    let r = m.after_quack(count, last_value);
    let c = s.with_covered(last_value);
    lemma_cover_log(s, last_value, c.next_log_index as int);
    lemma_quack_decision(m, count, last_value, c.quack_count - count);
    assert(r.wf());
    lemma_decoding_keeps_cover(r, missing, roots, now);
    lemma_decoding_uncounts_missing(r, missing, roots, now, gone);
}

/// A quack is void if acknowledgements are expected of it and it names no
/// packet that is still to be acknowledged. Such a quack changes nothing.
pub proof fn lemma_void_quack<C: CongestionControlOps>(
    m: RecoveryView<C>,
    acked_ids: Set<u32>,
    missing_ids: Set<u32>,
    drain_index: int,
    missing: u32,
    roots: Seq<bool>,
    now: Instant,
)
    ensures
        ({
            let sent = m.spaces[2].sent;
            m.quack_void(acked_ids) <==> m.sidecar.ack_reduction && forall|i: int|
                0 <= i < sent.len() && (#[trigger] sent[i]).time_acked is None
                    && sent[i].time_acked_sidecar is None ==> !acked_ids.contains(
                    sent[i].sidecar_id,
                )
        }),
        m.quack_void(acked_ids) ==> m.after_echoes(acked_ids, missing_ids, drain_index, now) == m
            && m.echo_losses(acked_ids, missing_ids, now) == (0usize, 0usize),
        m.quack_void(m.decoded_quack(missing, roots).acked_ids) ==> m.after_decoded(
            missing,
            roots,
            now,
        ) == m,
{
    let sent = m.spaces[2].sent;
    let n = sent.len() as int;
    let keep = named(sent, acked_ids);
    lemma_pick_len(sent, keep);
    assert forall|i: int|
        m.quack_void(acked_ids) && 0 <= i < n && (#[trigger] sent[i]).time_acked is None
            && sent[i].time_acked_sidecar is None implies !acked_ids.contains(
        sent[i].sidecar_id,
    ) by {
        if acked_ids.contains(sent[i].sidecar_id) {
            let id = sent[i].sidecar_id;
            let same = |j: int| sent[j].unacked() && sent[j].sidecar_id == id;
            lemma_first_index(0, n, same);
            let f = first_index(0, n, same);
            assert(same(i));
            assert(f < n);
            assert forall|j: int| 0 <= j < f && (#[trigger] sent[j]).unacked() implies
                sent[j].sidecar_id != sent[f].sidecar_id by {
                assert(!same(j));
            }
            assert(keep(f));
            lemma_count_some(n, keep, f);
        }
    }
    if m.sidecar.ack_reduction && !m.quack_void(acked_ids) {
        let i = lemma_pick_from(sent, keep, 0);
        assert(is_named(sent, acked_ids, i));
    }
}

/// Echoed identifiers drop what is settled from the front of the log and
/// change nothing else about the exchange.
pub proof fn lemma_echoes_settle<C: CongestionControlOps>(
    m: RecoveryView<C>,
    acked_ids: Set<u32>,
    missing_ids: Set<u32>,
    drain_index: int,
    now: Instant,
)
    requires
        m.wf(),
        0 <= drain_index <= m.sidecar.log.len(),
        !m.quack_void(acked_ids),
    ensures
        ({
            let w = m.after_echoes(acked_ids, missing_ids, drain_index, now);
            &&& w.sidecar.log.len() + drain_index == m.sidecar.log.len()
            &&& forall|i: int|
                0 <= i < w.sidecar.log.len() ==> #[trigger] w.sidecar.log[i]
                    == m.sidecar.log[drain_index + i]
            &&& w.sidecar == (SidecarView { log: w.sidecar.log, ..m.sidecar })
        }),
{
}

/// A reset is due if the exchange may be reset and more than 300 ms have gone
/// by since it started, or 10 ms without ACK reduction.
pub proof fn lemma_reset_due(s: SidecarView, now: Instant)
    requires
        s.wf(),
        now.in_range(),
    ensures
        s.reset_due(now) <==> s.quack_reset && now.nanos - s.last_quack_reset.nanos > if
            s.ack_reduction {
            300_000_000int
        } else {
            10_000_000int
        },
{
}

/// A reset starts a new epoch, and an exchange that starts anew has sent and
/// seen nothing. No epoch is skipped or repeated before all have been used.
pub proof fn lemma_reset_starts_anew(s: SidecarView, now: Instant)
    ensures
        s.quack_epoch < 255 ==> s.resetting().quack_epoch == s.quack_epoch + 1,
        s.quack_epoch == 255 ==> s.resetting().quack_epoch == 0,
        s.resetting() == (SidecarView { quack_epoch: s.resetting().quack_epoch, ..s }),
        s.restarted(now).log.len() == 0,
        s.restarted(now).next_log_index == 0,
        s.restarted(now).quack_count == 0,
        s.restarted(now).last_decoded_quack_count == 0,
        s.restarted(now).last_quack_reset == now,
        !s.restarted(now).reset_due(now),
        s.restarted(now) == (SidecarView {
            log: s.restarted(now).log,
            next_log_index: 0,
            quack_count: 0,
            last_decoded_quack_count: 0,
            last_quack_reset: now,
            ..s
        }),
{
}

/// The proxy's share of the path in a report of a loss: 40 of 41 parts with ACK
/// reduction, and 2 of 152 without.
pub proof fn lemma_loss_place(s: SidecarView)
    ensures
        s.ack_reduction ==> s.metadata() == (QuackMetadata {
            near_subpath_numer: 40,
            near_subpath_denom: 41,
        }),
        !s.ack_reduction ==> s.metadata() == (QuackMetadata {
            near_subpath_numer: 2,
            near_subpath_denom: 152,
        }),
{
}

} // verus!
