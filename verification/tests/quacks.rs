use std::collections::HashSet;
use std::collections::VecDeque;

use recovery::algorithms::CongestionControl;
use recovery::congestion::CongestionControlAlgorithm;
use recovery::congestion::QuackMetadata;
use recovery::frame::Frame;
use recovery::frame::Frames;
use recovery::model::HandshakeStatus;
use recovery::model::QuackAction;
use recovery::packet::Epoch;
use recovery::quack::DecodedQuack;
use recovery::quack::Quack;
use recovery::recovery::Config;
use recovery::recovery::Recovery;
use recovery::reno::Reno;
use recovery::sent::Sent;
use recovery::time::Duration;
use recovery::time::Instant;

const APPLICATION: usize = 2;

/// A path on which Reno stands in for CUBIC and for BBR.
type Path = Recovery<CongestionControl<Reno, Reno>>;

fn set(ids: &[u32]) -> HashSet<u32> {
    ids.iter().copied().collect()
}

fn at(ms: i64) -> Instant {
    Instant::from_nanos(1_000_000_000 + ms * 1_000_000)
}

fn path(ack_reduction: bool) -> Path {
    let config = Config {
        max_send_udp_payload_size: 1200,
        cc_algorithm: CongestionControlAlgorithm::Reno,
        hystart: false,
        pacing: false,
        sidecar_threshold: 2,
        quack_reset: true,
        max_pacing_rate: None,
        ack_reduction,
    };
    Recovery::new(&config, at(0))
}

/// Sends packets with consecutive numbers; the identifier of packet `n` is
/// `100 + n` and its only frame has the same handle.
fn send(r: &mut Path, numbers: std::ops::Range<u64>, now: Instant) {
    for n in numbers {
        let pkt = Sent {
            sidecar_id: 100 + n as u32,
            pkt_num: n,
            frames: Frames::from_vec(vec![Frame { handle: 100 + n }]),
            time_sent: now,
            time_acked_sidecar: None,
            time_acked: None,
            time_lost: None,
            size: 1000,
            ack_eliciting: true,
            in_flight: true,
            delivered: 0,
            delivered_time: now,
            first_sent_time: now,
            is_app_limited: false,
            has_data: true,
        };
        r.on_packet_sent(pkt, Epoch::Application, HandshakeStatus::default(), now);
    }
}

fn handles(frames: &[Frame]) -> Vec<u64> {
    frames.iter().map(|f| f.handle).collect()
}

#[test]
fn power_sum_without_missing_packets_settles_all() {
    let mut d = DecodedQuack::new(Quack::PowerSum { count: 0, roots: vec![true, false, true] });
    assert_eq!(d.decode(&[7, 8, 9]), 3);
    assert_eq!(d.acked_ids, set(&[7, 8, 9]));
    assert_eq!(d.missing_ids, set(&[]));
    assert!(d.missing_indexes.is_empty());
    assert_eq!(d.num_reordered, 0);
}

#[test]
fn power_sum_holds_back_the_last_packets() {
    // Of eight packets those at 1, 5 and 6 are missing. The latter two are too
    // close to the end.
    let roots = vec![false, true, false, false, false, true, true, false];
    let mut d = DecodedQuack::new(Quack::PowerSum { count: 3, roots });
    assert_eq!(d.decode(&[10, 11, 12, 13, 14, 15, 16, 17]), 5);
    assert_eq!(d.missing_indexes, vec![1]);
    assert_eq!(d.missing_ids, set(&[11]));
    assert_eq!(d.acked_ids, set(&[10, 12, 13, 14, 17]));
    assert_eq!(d.num_reordered, 3);
}

#[test]
fn power_sum_gives_up_packets_before_the_held_back_ones() {
    // The last four positions are held back, and only those.
    let log = [1, 2, 3, 4, 5, 6];
    let mut d = DecodedQuack::new(Quack::PowerSum {
        count: 2,
        roots: vec![false, true, true, false, false, false],
    });
    assert_eq!(d.decode(&log), 2);
    assert_eq!(d.missing_indexes, vec![1]);
    assert_eq!(d.num_reordered, 4);
}

#[test]
fn power_sum_of_a_short_log_waits() {
    let mut d = DecodedQuack::new(Quack::PowerSum { count: 1, roots: vec![true, false, false] });
    assert_eq!(d.decode(&[1, 2, 3]), 0);
    assert!(d.missing_indexes.is_empty());
    assert!(d.missing_ids.is_empty());
    assert_eq!(d.acked_ids, set(&[2, 3]));
    assert_eq!(d.num_reordered, 3);
}

#[test]
fn power_sum_with_a_duplicate_identifier() {
    // The identifier 5 is held back at its second position, so it is not lost.
    let mut d = DecodedQuack::new(Quack::PowerSum {
        count: 2,
        roots: vec![true, false, false, false, false, true],
    });
    assert_eq!(d.decode(&[5, 1, 2, 3, 4, 5]), 5);
    assert_eq!(d.missing_indexes, vec![0]);
    assert_eq!(d.missing_ids, set(&[]));
    assert_eq!(d.num_reordered, 1);
}

#[test]
fn strawman_a_holds_back_three() {
    let mut d = DecodedQuack::new(Quack::StrawmanA { sidecar_id: 15 });
    assert_eq!(d.decode(&[10, 11, 12, 13, 14, 15, 16]), 2);
    assert_eq!(d.acked_ids, set(&[15]));
    assert_eq!(d.missing_indexes, vec![0, 1]);
    assert_eq!(d.missing_ids, set(&[10, 11]));
    assert_eq!(d.num_reordered, 3);
}

#[test]
fn strawman_a_at_the_front_of_the_log() {
    let mut d = DecodedQuack::new(Quack::StrawmanA { sidecar_id: 10 });
    assert_eq!(d.decode(&[10, 11]), 1);
    assert_eq!(d.acked_ids, set(&[10]));
    assert_eq!(d.num_reordered, 0);
}

#[test]
fn strawman_a_of_an_unknown_packet() {
    let mut d = DecodedQuack::new(Quack::StrawmanA { sidecar_id: 99 });
    assert_eq!(d.decode(&[1, 2, 3, 4]), 1);
    assert_eq!(d.acked_ids, set(&[]));
    assert_eq!(d.missing_indexes, vec![0]);
    assert_eq!(d.num_reordered, 3);
}

#[test]
fn single_echo_against_an_empty_log() {
    let mut d = DecodedQuack::new(Quack::StrawmanA { sidecar_id: 7 });
    assert_eq!(d.decode(&[]), 0);
    assert!(d.acked_ids.is_empty());
    assert!(d.missing_indexes.is_empty());
    assert_eq!(d.num_reordered, 0);
}

#[test]
fn window_whose_newest_packet_is_not_in_the_log() {
    // Nothing is held back, so the log is settled beyond its end.
    let window: VecDeque<u32> = [1, 2, 9].into_iter().collect();
    let mut d = DecodedQuack::new(Quack::StrawmanB { window });
    assert_eq!(d.decode(&[1, 2]), 3);
    assert_eq!(d.acked_ids, set(&[1, 2]));
    assert_eq!(d.num_reordered, 0);

    // The last packet is held back.
    let window: VecDeque<u32> = [1, 9].into_iter().collect();
    let mut d = DecodedQuack::new(Quack::StrawmanB { window });
    assert_eq!(d.decode(&[1, 2]), 1);
    assert_eq!(d.num_reordered, 1);
}

#[test]
fn strawman_b_settles_up_to_the_newest() {
    let window: VecDeque<u32> = [10, 11, 12].into_iter().collect();
    let mut d = DecodedQuack::new(Quack::StrawmanB { window });
    assert_eq!(d.decode(&[10, 11, 12, 13]), 3);
    assert_eq!(d.acked_ids, set(&[10, 11, 12]));
    assert!(d.missing_ids.is_empty());
    assert_eq!(d.num_reordered, 0);
}

#[test]
fn strawman_b_holds_back_packets_near_the_newest() {
    let window: VecDeque<u32> = [1, 3, 4, 6].into_iter().collect();
    let mut d = DecodedQuack::new(Quack::StrawmanB { window });
    // The newest stands at position 6; 0 and 2 are missing for good, 5 is held back.
    assert_eq!(d.decode(&[0, 1, 2, 3, 4, 5, 6, 7]), 5);
    assert_eq!(d.acked_ids, set(&[1, 3, 4, 6]));
    assert_eq!(d.missing_indexes, vec![0, 2]);
    assert_eq!(d.missing_ids, set(&[0, 2]));
    assert_eq!(d.num_reordered, 1);
}

#[test]
fn quack_that_counts_nothing_is_ignored() {
    let mut r = path(false);
    send(&mut r, 0..3, at(0));
    let step = r.on_quack_received(0, 102);
    assert_eq!(step.action, QuackAction::Ignore);
    assert!(step.inserted.is_empty());
    assert_eq!(r.sidecar.next_log_index, 0);
}

#[test]
fn quack_of_everything_settles_the_log() {
    let mut r = path(false);
    send(&mut r, 0..3, at(0));
    assert_eq!(r.sidecar.log, vec![100, 101, 102]);
    let step = r.on_quack_received(3, 102);
    assert_eq!(step.action, QuackAction::Settle);
    assert_eq!(step.inserted, vec![100, 101, 102]);
    assert!(r.sidecar.log.is_empty());
    assert_eq!(r.sidecar.next_log_index, 0);
    assert_eq!(r.sidecar.quack_count, 3);

    // The same quack again says nothing new.
    send(&mut r, 3..4, at(1));
    let step = r.on_quack_received(3, 103);
    assert_eq!(step.action, QuackAction::Ignore);
}

#[test]
fn quack_covers_the_log_up_to_its_last_value() {
    let mut r = path(false);
    send(&mut r, 0..4, at(0));
    let step = r.on_quack_received(2, 101);
    assert_eq!(step.inserted, vec![100, 101]);
    assert_eq!(step.action, QuackAction::Decode { missing: 0 });
    assert_eq!(r.sidecar.next_log_index, 2);

    let result = r.on_quack_decoded(0, vec![false, false], at(1));
    assert_eq!((result.lost_packets, result.lost_bytes), (0, 0));
    assert!(result.removed.is_empty());
    assert_eq!(r.sidecar.log, vec![102, 103]);
    assert_eq!(r.sidecar.next_log_index, 0);
}

#[test]
fn quack_that_counts_more_than_was_sent_resets() {
    let mut r = path(false);
    send(&mut r, 0..2, at(0));
    let step = r.on_quack_received(5, 101);
    assert_eq!(step.action, QuackAction::Reset);

    // Not so soon after the last reset.
    assert_eq!(r.begin_quack_reset(at(10)), None);
    assert_eq!(r.begin_quack_reset(at(11)), Some(1));
    assert_eq!(r.sidecar.log, vec![100, 101]);
    r.finish_quack_reset(at(11));
    assert!(r.sidecar.log.is_empty());
    assert_eq!(r.sidecar.quack_count, 0);
    assert_eq!(r.sidecar.last_decoded_quack_count, 0);
    assert_eq!(r.sidecar.next_log_index, 0);
    assert_eq!(r.begin_quack_reset(at(21)), None);
    assert_eq!(r.begin_quack_reset(at(22)), Some(2));
}

#[test]
fn quack_that_misses_too_much_resets() {
    let mut r = path(false);
    send(&mut r, 0..4, at(0));
    let step = r.on_quack_received(1, 103);
    assert_eq!(step.inserted.len(), 4);
    assert_eq!(step.action, QuackAction::Reset);
}

#[test]
fn reset_is_sent_only_if_allowed() {
    let mut r = path(false);
    r.sidecar.quack_reset = false;
    assert_eq!(r.begin_quack_reset(at(1000)), None);
    assert_eq!(r.sidecar.quack_epoch, 0);

    let mut r = path(true);
    assert_eq!(r.begin_quack_reset(at(300)), None);
    assert_eq!(r.begin_quack_reset(at(301)), Some(1));
    r.sidecar.quack_epoch = 255;
    assert_eq!(r.begin_quack_reset(at(301)), Some(0));
}

#[test]
fn missing_packets_are_lost_and_sent_again() {
    let mut r = path(false);
    send(&mut r, 0..8, at(0));
    let step = r.on_quack_received(7, 107);
    assert_eq!(step.action, QuackAction::Decode { missing: 1 });

    let mut roots = vec![false; 8];
    roots[1] = true;
    let result = r.on_quack_decoded(1, roots, at(5));
    assert_eq!((result.lost_packets, result.lost_bytes), (1, 1000));
    assert_eq!(result.removed, vec![101]);

    assert_eq!(r.lost_count, 1);
    assert_eq!(r.bytes_lost, 1000);
    assert_eq!(r.path.bytes_in_flight, 7000);
    assert_eq!(r.spaces[APPLICATION].sent.len(), 8);
    assert_eq!(handles(&r.spaces[APPLICATION].lost), vec![101]);
    assert!(r.spaces[APPLICATION].acked.is_empty());
    assert_eq!(r.path.congestion_window, 6000);
    assert_eq!(
        r.path.congestion_recovery_metadata,
        Some(QuackMetadata { near_subpath_numer: 2, near_subpath_denom: 152 })
    );
    assert_eq!(r.sidecar.quack_count, 7);
    assert!(r.sidecar.log.is_empty());
}

#[test]
fn received_packets_count_as_acknowledged() {
    let mut r = path(true);
    send(&mut r, 0..8, at(0));
    let step = r.on_quack_received(7, 107);
    assert_eq!(step.action, QuackAction::Decode { missing: 1 });

    let mut roots = vec![false; 8];
    roots[1] = true;
    let result = r.on_quack_decoded(1, roots, at(5));
    assert_eq!((result.lost_packets, result.lost_bytes), (1, 1000));
    assert_eq!(
        handles(&r.spaces[APPLICATION].acked),
        vec![100, 102, 103, 104, 105, 106, 107]
    );
    assert_eq!(handles(&r.spaces[APPLICATION].lost), vec![101]);
    assert_eq!(r.path.bytes_in_flight, 0);
    assert_eq!(r.path.latest_rtt, Duration::from_millis(5));
    assert_eq!(r.spaces[APPLICATION].sent.len(), 8);
    assert_eq!(
        r.path.congestion_recovery_metadata,
        Some(QuackMetadata { near_subpath_numer: 40, near_subpath_denom: 41 })
    );
}

#[test]
fn quack_that_acknowledges_nothing_new_changes_nothing() {
    let mut r = path(true);
    send(&mut r, 0..2, at(0));
    r.on_quack_received(1, 101);
    let mut d = r.on_quack_decoded(1, vec![true, true], at(1));
    assert_eq!((d.lost_packets, d.lost_bytes), (0, 0));
    assert_eq!(r.sidecar.log, vec![100, 101]);
    assert_eq!(r.sidecar.next_log_index, 2);
    d = r.on_quack_decoded(1, vec![true, true], at(1));
    assert!(d.removed.is_empty());
}

#[test]
fn loss_that_was_detected_before_is_not_counted_again() {
    let mut r = path(false);
    send(&mut r, 0..8, at(0));
    r.on_quack_received(7, 107);
    let mut roots = vec![false; 8];
    roots[1] = true;
    r.spaces[APPLICATION].sent[1].time_lost = Some(at(1));
    let result = r.on_quack_decoded(1, roots, at(5));
    assert_eq!((result.lost_packets, result.lost_bytes), (0, 0));
    assert_eq!(result.removed, vec![101]);
    assert_eq!(r.path.congestion_window, 12000);
}

#[test]
fn the_same_report_twice() {
    let mut r = path(false);
    send(&mut r, 0..3, at(0));
    let space = &mut r.spaces[APPLICATION];
    assert_eq!(space.mark_missing(set(&[101]), at(1)).lost_packets, 1);
    assert_eq!(space.mark_missing(set(&[101]), at(2)).lost_packets, 0);
    assert_eq!(handles(&space.lost), vec![101]);
    assert_eq!(space.mark_echoed(set(&[100]), at(3)).0.len(), 1);
    assert_eq!(space.mark_echoed(set(&[100]), at(4)).0.len(), 0);
    assert_eq!(handles(&space.acked), vec![100]);
    assert_eq!(space.in_flight_count, 1);
}

#[test]
fn single_echo_is_not_acted_on() {
    let mut r = path(true);
    send(&mut r, 0..3, at(0));
    assert_eq!(r.on_quack_received_strawman_a(102, at(1)), Ok((0, 0)));
    assert_eq!(r.sidecar.log, vec![100, 101, 102]);
    assert_eq!(r.path.bytes_in_flight, 3000);
}

#[test]
fn window_of_echoes_is_applied() {
    let mut r = path(true);
    send(&mut r, 0..6, at(0));
    let window: VecDeque<u32> = [101, 102, 103, 104].into_iter().collect();
    assert_eq!(r.on_quack_received_strawman_b(window, at(4)), Ok((1, 1000)));
    assert_eq!(handles(&r.spaces[APPLICATION].acked), vec![101, 102, 103, 104]);
    assert_eq!(handles(&r.spaces[APPLICATION].lost), vec![100]);
    assert_eq!(r.path.bytes_in_flight, 1000);
    assert_eq!(r.sidecar.log, vec![105]);
}
