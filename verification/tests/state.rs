use recovery::algorithms::CongestionControl;
use recovery::congestion::CongestionControlAlgorithm;
use recovery::congestion::CongestionControlOps;
use recovery::congestion::CongestionState;
use recovery::delivery_rate::Rate;
use recovery::frame::Frame;
use recovery::frame::Frames;
use recovery::metrics::MetricsUpdated;
use recovery::metrics::QlogMetrics;
use recovery::minmax::Minmax;
use recovery::model::HandshakeStatus;
use recovery::pacer::Pacer;
use recovery::packet::Epoch;
use recovery::prr::PRR;
use recovery::ranges::PktRange;
use recovery::ranges::RangeSet;
use recovery::recovery::Config;
use recovery::recovery::Recovery;
use recovery::recovery::RecoveryConfig;
use recovery::reno::Reno;
use recovery::sent::Acked;
use recovery::sent::Sent;
use recovery::time::deadline_before;
use recovery::time::sub_abs;
use recovery::time::Duration;
use recovery::time::Instant;

const INITIAL: usize = 0;
const HANDSHAKE: usize = 1;
const APPLICATION: usize = 2;

/// A path on which Reno stands in for CUBIC and for BBR.
type Path = Recovery<CongestionControl<Reno, Reno>>;

fn at(ms: i64) -> Instant {
    Instant::from_nanos(1_000_000_000 + ms * 1_000_000)
}

fn ms(n: u64) -> Duration {
    Duration::from_millis(n)
}

fn config() -> Config {
    Config {
        max_send_udp_payload_size: 1200,
        cc_algorithm: CongestionControlAlgorithm::Reno,
        hystart: true,
        pacing: true,
        sidecar_threshold: 0,
        quack_reset: false,
        max_pacing_rate: None,
        ack_reduction: false,
    }
}

fn path() -> Path {
    Recovery::new(&config(), at(0))
}

fn packet(pkt_num: u64, size: usize, now: Instant) -> Sent {
    Sent {
        sidecar_id: pkt_num as u32,
        pkt_num,
        frames: Frames::from_vec(vec![Frame { handle: pkt_num }]),
        time_sent: now,
        time_acked_sidecar: None,
        time_acked: None,
        time_lost: None,
        size,
        ack_eliciting: true,
        in_flight: true,
        delivered: 0,
        delivered_time: now,
        first_sent_time: now,
        is_app_limited: false,
        has_data: true,
    }
}

fn send(r: &mut Path, pkt: Sent, epoch: Epoch, now: Instant) {
    r.on_packet_sent(pkt, epoch, HandshakeStatus::default(), now);
}

fn ranges(blocks: &[(u64, u64)]) -> RangeSet {
    let mut set = RangeSet::new();
    for &(start, end) in blocks {
        set.insert(start, end);
    }
    set
}

fn ack(r: &mut Path, blocks: &[(u64, u64)], now: Instant) -> (usize, usize) {
    r.on_ack_received(
        &ranges(blocks),
        0,
        Epoch::Application,
        HandshakeStatus::default(),
        now,
        &mut Vec::new(),
    )
    .unwrap()
}

fn handles(frames: &[Frame]) -> Vec<u64> {
    frames.iter().map(|f| f.handle).collect()
}

#[test]
fn names_of_algorithms() {
    assert_eq!(
        CongestionControlAlgorithm::from_name("cubic"),
        Ok(CongestionControlAlgorithm::CUBIC)
    );
    assert_eq!(
        CongestionControlAlgorithm::from_name("bbr"),
        Ok(CongestionControlAlgorithm::BBR)
    );
    assert!(CongestionControlAlgorithm::from_name("Reno").is_err());
    assert!(CongestionControlAlgorithm::from_name("").is_err());
}

#[test]
fn algorithm_of_a_connection() {
    let mut c = config();
    let r: Path = Recovery::new(&c, at(0));
    assert!(matches!(r.cc_ops, CongestionControl::Reno(_)));
    c.cc_algorithm = CongestionControlAlgorithm::CUBIC;
    let r: Path = Recovery::new(&c, at(0));
    assert!(matches!(r.cc_ops, CongestionControl::Cubic(_)));
    c.cc_algorithm = CongestionControlAlgorithm::BBR;
    let r: Path = Recovery::new(&c, at(0));
    assert!(matches!(r.cc_ops, CongestionControl::Bbr(_)));
    assert_eq!(r.cwnd(), 12000);
    let config: RecoveryConfig<CongestionControl<Reno, Reno>> = RecoveryConfig::from_config(&c);
    assert_eq!(config.max_ack_delay, ms(0));
    assert!(matches!(config.cc_ops, CongestionControl::Bbr(_)));
}

#[test]
fn hooks_of_the_chosen_algorithm_are_called() {
    let mut c = config();
    c.cc_algorithm = CongestionControlAlgorithm::BBR;
    let mut r: Path = Recovery::new(&c, at(0));
    for n in 0..6 {
        send(&mut r, packet(n, 1000, at(0)), Epoch::Application, at(0));
    }
    assert_eq!(r.path.bytes_in_flight, 6000);
    assert_eq!(ack(&mut r, &[(5, 6)], at(10)), (3, 3000));
    assert_eq!((r.path.bytes_in_flight, r.cwnd()), (2000, 6000));
    r.collapse_cwnd();
    assert_eq!(r.cwnd(), 2400);
}

#[test]
fn datagrams_of_size_zero() {
    let mut r = path();
    r.update_max_datagram_size(0, at(1));
    assert_eq!((r.max_datagram_size(), r.cwnd()), (0, 0));
    assert_eq!(r.path.pacer.capacity, 0);
    r.update_max_datagram_size(1200, at(1));
    assert_eq!((r.max_datagram_size(), r.cwnd()), (0, 0));
}

#[test]
fn initial_state() {
    let mut c = config();
    c.sidecar_threshold = 20;
    let r: Path = Recovery::new(&c, at(0));
    assert_eq!(r.cwnd(), 12000);
    assert_eq!(r.cwnd_available(), 12000);
    assert_eq!(r.send_quantum(), 12000);
    assert_eq!(r.max_datagram_size(), 1200);
    assert_eq!(r.rtt(), ms(333));
    assert_eq!(r.rttvar().nanos, 166_500_000);
    assert_eq!(r.min_rtt(), None);
    // 333 ms and four times half of that.
    assert_eq!(r.pto(), ms(999));
    assert_eq!(r.delivery_rate(), 0);
    assert_eq!(r.loss_detection_timer(), None);
    assert!(!r.app_limited());
    assert!(r.sidecar.enabled);
    assert_eq!(r.path.ssthresh, usize::MAX);
    assert_eq!(r.spaces[INITIAL].largest_acked_pkt, u64::MAX);
}

#[test]
fn absolute_difference() {
    assert_eq!(sub_abs(ms(5), ms(3)), ms(2));
    assert_eq!(sub_abs(ms(3), ms(5)), ms(2));
    assert_eq!(sub_abs(ms(3), ms(3)), ms(0));
}

#[test]
fn eighths_are_rounded() {
    assert_eq!(Duration::from_nanos(100).eighths(9).nanos, 113);
    assert_eq!(Duration::from_nanos(3).eighths(9).nanos, 3);
    assert_eq!(Duration::from_nanos(4).eighths(1).nanos, 1);
    assert_eq!(Duration::from_nanos(8).eighths(10).nanos, 10);
}

#[test]
fn missing_deadline_sorts_first() {
    assert!(deadline_before(None, Some(at(0))));
    assert!(deadline_before(Some(at(0)), Some(at(1))));
    assert!(!deadline_before(Some(at(1)), Some(at(1))));
    assert!(!deadline_before(Some(at(0)), None));
    assert!(!deadline_before(None, None));
}

#[test]
fn ranges_merge() {
    let set = ranges(&[(10, 12), (0, 3), (5, 6), (3, 5), (11, 20)]);
    assert_eq!(set.ranges.len(), 2);
    assert!(set.ranges[0] == PktRange { start: 0, end: 6 });
    assert!(set.ranges[1] == PktRange { start: 10, end: 20 });
    assert_eq!(set.last(), Some(19));
    assert_eq!(RangeSet::new().last(), None);
}

#[test]
fn frames_are_taken_once() {
    let mut frames = Frames::from_vec(vec![Frame { handle: 1 }, Frame { handle: 2 }]);
    assert_eq!(handles(&frames.to_vec()), vec![1, 2]);
    assert_eq!(handles(&frames.take()), vec![1, 2]);
    assert!(frames.take().is_empty());
    assert!(frames.to_vec().is_empty());
}

#[test]
fn rtt_samples() {
    let mut s = CongestionState::new(1200, true, true, None, at(0));
    s.update_rtt(ms(100), ms(10), ms(25), at(100));
    assert_eq!(s.smoothed_rtt, Some(ms(100)));
    assert_eq!(s.rttvar, ms(50));
    assert_eq!(s.min_rtt, ms(100));

    // The delay is taken off: 190 - 25. srtt = 7/8 * 100 + 1/8 * 165.
    s.update_rtt(ms(190), ms(40), ms(25), at(200));
    assert_eq!(s.latest_rtt, ms(190));
    assert_eq!(s.min_rtt, ms(100));
    assert_eq!(s.smoothed_rtt.unwrap().nanos, 108_125_000);
    // 3/4 * 50 + 1/4 * 65.
    assert_eq!(s.rttvar.nanos, 53_750_000);

    // A delay that would take the sample below the minimum is not plausible.
    s.update_rtt(ms(110), ms(25), ms(25), at(300));
    assert_eq!(s.smoothed_rtt.unwrap().nanos, 94_609_375 + 13_750_000);
}

#[test]
fn smallest_sample_of_the_window() {
    let mut m = Minmax::new(ms(0), at(0));
    assert_eq!(m.reset(at(0), ms(25)), ms(25));
    assert_eq!(m.running_min(ms(500), at(250), ms(24)), ms(24));
    assert_eq!(m.running_min(ms(500), at(500), ms(25)), ms(24));
    // The smallest sample has left the window.
    assert_eq!(m.running_min(ms(500), at(900), ms(25)), ms(25));
}

#[test]
fn ack_records_and_frames() {
    let mut r = path();
    send(&mut r, packet(0, 1000, at(0)), Epoch::Application, at(0));
    send(&mut r, packet(1, 1000, at(0)), Epoch::Application, at(0));
    let mut newly_acked: Vec<Acked> = Vec::new();
    let result = r.on_ack_received(
        &ranges(&[(0, 1)]),
        0,
        Epoch::Application,
        HandshakeStatus::default(),
        at(30),
        &mut newly_acked,
    );
    assert_eq!(result, Ok((0, 0)));
    // The algorithm has taken the records.
    assert!(newly_acked.is_empty());
    assert_eq!(handles(&r.spaces[APPLICATION].acked), vec![0]);
    assert_eq!(r.spaces[APPLICATION].in_flight_count, 1);
    assert_eq!(r.path.bytes_in_flight, 1000);
    assert_eq!(r.rtt(), ms(30));
    assert_eq!(r.min_rtt(), Some(ms(30)));
    assert_eq!(r.spaces[APPLICATION].largest_acked_pkt, 0);
}

#[test]
fn second_copy_of_an_ack_does_nothing() {
    let mut r = path();
    for n in 0..4 {
        send(&mut r, packet(n, 1000, at(0)), Epoch::Application, at(0));
    }
    assert_eq!(ack(&mut r, &[(1, 3)], at(20)), (0, 0));
    let in_flight = r.path.bytes_in_flight;
    let timer = r.loss_detection_timer();
    let rtt = r.rtt();
    assert_eq!(ack(&mut r, &[(1, 3)], at(25)), (0, 0));
    assert_eq!(r.path.bytes_in_flight, in_flight);
    assert_eq!(r.loss_detection_timer(), timer);
    assert_eq!(r.rtt(), rtt);
    assert_eq!(handles(&r.spaces[APPLICATION].acked), vec![1, 2]);
}

#[test]
fn ack_of_an_initial_packet_ignores_the_delay() {
    let mut r = path();
    r.max_ack_delay = ms(25);
    send(&mut r, packet(0, 1000, at(0)), Epoch::Initial, at(0));
    send(&mut r, packet(1, 1000, at(0)), Epoch::Initial, at(0));
    for (n, now) in [(0, at(10)), (1, at(50))] {
        r.on_ack_received(
            &ranges(&[(n, n + 1)]),
            20_000,
            Epoch::Initial,
            HandshakeStatus::default(),
            now,
            &mut Vec::new(),
        )
        .unwrap();
    }
    // 7/8 * 10 + 1/8 * 50.
    assert_eq!(r.rtt().nanos, 15_000_000);
    assert_eq!(r.spaces[INITIAL].sent.len(), 0);
}

#[test]
fn only_the_largest_packet_of_a_frame_gives_a_sample() {
    let mut r = path();
    send(&mut r, packet(0, 1000, at(0)), Epoch::Application, at(0));
    // Packet 5 was sent on another path.
    ack(&mut r, &[(0, 1), (5, 6)], at(30));
    assert_eq!(r.path.smoothed_rtt, None);
    assert_eq!(r.spaces[APPLICATION].largest_acked_pkt, 5);
}

#[test]
fn loss_by_packet_threshold() {
    let mut r = path();
    for n in 0..6 {
        send(&mut r, packet(n, 1000, at(0)), Epoch::Application, at(0));
    }
    // Packets 0, 1 and 2 are three or more behind.
    assert_eq!(ack(&mut r, &[(5, 6)], at(10)), (3, 3000));
    assert_eq!(handles(&r.spaces[APPLICATION].lost), vec![0, 1, 2]);
    assert_eq!(r.lost_count, 3);
    assert_eq!(r.bytes_lost, 3000);
    assert_eq!(r.path.bytes_in_flight, 2000);
    // The window is halved and a recovery period begins.
    assert_eq!(r.cwnd(), 6000);
    assert_eq!(r.path.ssthresh, 6000);
    assert_eq!(r.path.congestion_recovery_start_time, Some(at(10)));
    // The next packet is lost after 9/8 of the RTT.
    let deadline = Instant::from_nanos(1_000_000_000 + 11_250_000);
    assert_eq!(r.loss_detection_timer(), Some(deadline));

    // When that time has come, both remaining packets are.
    let lost = r.on_loss_detection_timeout(HandshakeStatus::default(), deadline);
    assert_eq!(lost, (2, 2000));
    assert_eq!(r.path.bytes_in_flight, 0);
    // The recovery period goes on.
    assert_eq!(r.cwnd(), 6000);
    assert_eq!(r.loss_detection_timer(), None);
}

#[test]
fn losses_are_detected_once_at_a_time() {
    let mut r = path();
    for n in 0..8 {
        send(&mut r, packet(n, 1000, at(0)), Epoch::Application, at(0));
    }
    assert_eq!(ack(&mut r, &[(7, 8)], at(10)), (5, 5000));
    let loss_time = r.spaces[APPLICATION].loss_time;
    let len = r.spaces[APPLICATION].sent.len();
    assert_eq!(r.detect_lost_packets(Epoch::Application, at(10)), (0, 0));
    assert_eq!(r.spaces[APPLICATION].loss_time, loss_time);
    assert_eq!(r.spaces[APPLICATION].sent.len(), len);
    assert_eq!(handles(&r.spaces[APPLICATION].lost), vec![0, 1, 2, 3, 4]);
    assert_eq!((r.lost_count, r.bytes_lost), (5, 5000));
    assert_eq!((r.path.bytes_in_flight, r.cwnd()), (2000, 6000));
}

#[test]
fn spurious_loss_after_a_long_time_raises_the_time_threshold() {
    let mut r = path();
    for n in 0..30 {
        send(&mut r, packet(n, 100, at(0)), Epoch::Application, at(0));
    }
    ack(&mut r, &[(29, 30)], at(10));
    assert_eq!(r.time_thresh, 9);
    ack(&mut r, &[(0, 1)], at(40));
    assert_eq!(r.lost_spurious_count, 1);
    assert_eq!(r.time_thresh, 10);
    // The distance is larger than the limit.
    assert_eq!(r.pkt_thresh, 20);
}

#[test]
fn probe_copies_frames_and_backs_off() {
    let mut r = path();
    for n in 0..4 {
        send(&mut r, packet(n, 1000, at(0)), Epoch::Application, at(0));
    }
    // 333 ms + 4 * 166.5 ms.
    assert_eq!(r.loss_detection_timer(), Some(at(999)));
    assert_eq!(
        r.on_loss_detection_timeout(HandshakeStatus::default(), at(999)),
        (0, 0)
    );
    assert_eq!(r.pto_count, 1);
    assert_eq!(r.spaces[APPLICATION].loss_probes, 1);
    assert_eq!(handles(&r.spaces[APPLICATION].lost), vec![0]);
    assert_eq!(r.spaces[APPLICATION].sent.len(), 4);
    assert_eq!(handles(&r.spaces[APPLICATION].sent[0].frames.to_vec()), vec![0]);
    assert_eq!(r.loss_detection_timer(), Some(at(2 * 999)));
    assert_eq!(r.cwnd_available(), usize::MAX);
    assert!(r.should_elicit_ack(Epoch::Application));
    assert!(!r.should_elicit_ack(Epoch::Initial));

    r.on_loss_detection_timeout(HandshakeStatus::default(), at(1998));
    r.on_loss_detection_timeout(HandshakeStatus::default(), at(4000));
    assert_eq!(r.pto_count, 3);
    assert_eq!(r.spaces[APPLICATION].loss_probes, 2);
    assert_eq!(handles(&r.spaces[APPLICATION].lost), vec![0, 0, 1, 0, 1]);
    assert_eq!(r.loss_detection_timer(), Some(at(8 * 999)));
    assert_eq!(r.lost_count, 0);
    assert_eq!(r.cwnd(), 12000);

    // An acknowledgement ends the backoff.
    ack(&mut r, &[(0, 1)], at(4100));
    assert_eq!(r.pto_count, 0);
}

#[test]
fn probe_before_the_handshake_is_complete() {
    let waiting = HandshakeStatus {
        has_handshake_keys: false,
        peer_verified_address: false,
        completed: false,
    };
    let mut r = path();
    // Nothing is in flight: the client keeps the handshake going.
    r.on_loss_detection_timeout(waiting, at(100));
    assert_eq!(r.spaces[INITIAL].loss_probes, 1);
    assert_eq!(r.loss_detection_timer(), Some(at(100 + 2 * 999)));

    let keys = HandshakeStatus { has_handshake_keys: true, ..waiting };
    r.on_loss_detection_timeout(keys, at(200));
    assert_eq!(r.spaces[HANDSHAKE].loss_probes, 2);

    // Application data is not probed for before the handshake is complete.
    let mut r = path();
    r.on_packet_sent(packet(0, 1000, at(0)), Epoch::Application, keys, at(0));
    assert_eq!(r.loss_detection_timer(), None);
}

#[test]
fn probe_of_application_data_waits_for_the_ack_delay() {
    let mut r = path();
    r.max_ack_delay = ms(25);
    send(&mut r, packet(0, 1000, at(0)), Epoch::Application, at(0));
    assert_eq!(r.loss_detection_timer(), Some(at(999 + 25)));
    // A packet of an earlier space comes first.
    send(&mut r, packet(0, 1000, at(10)), Epoch::Handshake, at(10));
    assert_eq!(r.loss_detection_timer(), Some(at(1009)));
}

#[test]
fn loss_time_of_an_early_space_is_hidden_by_a_later_one() {
    let mut r = path();
    r.spaces[INITIAL].loss_time = Some(at(5));
    send(&mut r, packet(0, 1000, at(0)), Epoch::Application, at(0));
    assert_eq!(r.loss_detection_timer(), Some(at(999)));
    r.spaces[HANDSHAKE].loss_time = Some(at(7));
    r.spaces[APPLICATION].loss_time = Some(at(6));
    send(&mut r, packet(1, 1000, at(0)), Epoch::Application, at(0));
    assert_eq!(r.loss_detection_timer(), Some(at(5)));
}

#[test]
fn discarded_space_is_not_in_flight() {
    let mut r = path();
    send(&mut r, packet(0, 500, at(0)), Epoch::Initial, at(0));
    send(&mut r, packet(1, 700, at(0)), Epoch::Initial, at(0));
    send(&mut r, packet(0, 1000, at(0)), Epoch::Handshake, at(0));
    r.on_pkt_num_space_discarded(Epoch::Initial, HandshakeStatus::default(), at(1));
    assert_eq!(r.path.bytes_in_flight, 1000);
    assert_eq!(r.spaces[INITIAL].sent.len(), 0);
    assert_eq!(r.spaces[INITIAL].in_flight_count, 0);
    assert_eq!(r.spaces[INITIAL].largest_sent_pkt, 1);
    assert_eq!(r.loss_detection_timer(), Some(at(999)));
    r.on_pkt_num_space_discarded(Epoch::Handshake, HandshakeStatus::default(), at(1));
    assert_eq!(r.path.bytes_in_flight, 0);
    assert_eq!(r.loss_detection_timer(), None);
}

#[test]
fn path_change_detects_losses() {
    let mut r = path();
    send(&mut r, packet(0, 1000, at(0)), Epoch::Application, at(0));
    send(&mut r, packet(1, 1000, at(0)), Epoch::Application, at(0));
    ack(&mut r, &[(1, 2)], at(10));
    assert_eq!(r.on_path_change(Epoch::Application, at(11)), (0, 0));
    assert_eq!(r.on_path_change(Epoch::Application, at(12)), (1, 1000));
}

#[test]
fn packets_that_elicit_nothing() {
    let mut r = path();
    for n in 0..24 {
        assert!(!r.should_elicit_ack(Epoch::Application));
        let mut pkt = packet(n, 50, at(0));
        pkt.ack_eliciting = false;
        pkt.in_flight = false;
        send(&mut r, pkt, Epoch::Application, at(0));
    }
    assert!(r.should_elicit_ack(Epoch::Application));
    assert_eq!(r.path.bytes_in_flight, 0);
    assert_eq!(r.spaces[APPLICATION].in_flight_count, 0);
    assert_eq!(r.loss_detection_timer(), None);
    assert_eq!(r.spaces[APPLICATION].largest_sent_pkt, 23);
    assert_eq!(r.bytes_sent, 24 * 50);
    send(&mut r, packet(24, 50, at(0)), Epoch::Application, at(0));
    assert!(!r.should_elicit_ack(Epoch::Application));
}

#[test]
fn application_limit() {
    let mut r = path();
    send(&mut r, packet(0, 1000, at(0)), Epoch::Application, at(0));
    assert!(r.app_limited());
    send(&mut r, packet(1, 11000, at(0)), Epoch::Application, at(0));
    assert!(!r.app_limited());
    assert_eq!(r.cwnd_available(), 0);
    r.update_app_limited(true);
    assert!(r.app_limited());
    r.delivery_rate_update_app_limited(true);
    assert!(r.path.delivery_rate.app_limited());
}

#[test]
fn window_starts_anew() {
    let mut r = path();
    for n in 0..6 {
        send(&mut r, packet(n, 1000, at(0)), Epoch::Application, at(0));
    }
    ack(&mut r, &[(5, 6)], at(10));
    assert_eq!(r.cwnd(), 6000);
    r.reset();
    assert_eq!(r.cwnd(), 12000);
    assert_eq!(r.path.ssthresh, usize::MAX);
    assert_eq!(r.path.congestion_recovery_start_time, None);
    assert_eq!(r.spaces[APPLICATION].in_flight_count, 0);
    assert_eq!(r.path.hystart.window_end, None);
    r.on_init();
    assert_eq!(r.cwnd(), 12000);
}

#[test]
fn datagram_size_shrinks_with_the_initial_window() {
    let mut r = path();
    r.update_max_datagram_size(1500, at(1));
    assert_eq!(r.max_datagram_size(), 1200);
    assert_eq!(r.cwnd(), 12000);
    r.update_max_datagram_size(1000, at(1));
    assert_eq!(r.max_datagram_size(), 1000);
    assert_eq!(r.cwnd(), 10000);
    // The same size again, or a larger one, changes nothing.
    r.update_max_datagram_size(1000, at(1));
    r.update_max_datagram_size(1100, at(1));
    assert_eq!(r.max_datagram_size(), 1000);
    assert_eq!(r.cwnd(), 10000);
    assert_eq!(r.send_quantum(), 12000);
    r.path.congestion_window = 7777;
    r.update_max_datagram_size(900, at(2));
    assert_eq!(r.cwnd(), 7777);
    assert_eq!(r.path.pacer.capacity, 7200);
    assert_eq!(r.get_packet_send_time(), at(2));
}

#[test]
fn pacing_rate_follows_the_window() {
    let mut r = path();
    r.path.smoothed_rtt = Some(ms(100));
    send(&mut r, packet(0, 1000, at(0)), Epoch::Application, at(0));
    // 12000 bytes in 100 ms, and a quarter more.
    assert_eq!(r.path.pacer.rate(), 150_000);
    r.path.smoothed_rtt = Some(ms(0));
    send(&mut r, packet(1, 1000, at(0)), Epoch::Application, at(0));
    assert_eq!(r.path.pacer.rate(), u64::MAX);
    r.set_pacing_rate(77, at(0));
    assert_eq!(r.path.pacer.rate(), 77);
}

#[test]
fn pacer_limits_its_rate() {
    let mut p = Pacer::new(true, 12000, 0, 1000, Some(500), at(0));
    p.update(12000, 1000, at(0));
    assert_eq!(p.rate(), 500);
    p.update(12000, 100, at(0));
    assert_eq!(p.rate(), 100);
    assert_eq!(p.max_pacing_rate(), Some(500));
}

#[test]
fn pacer_sends_bursts() {
    // 100 kB per second in bursts of 10 kB.
    let mut p = Pacer::new(true, 10_000, 100_000, 1000, None, at(0));
    p.send(6000, at(0));
    assert_eq!(p.next_time(), at(0));
    p.send(6000, at(0));
    assert_eq!(p.next_time(), at(0));
    // The burst was 12 kB, so the next packet leaves 120 ms later.
    p.send(6000, at(5));
    assert_eq!(p.next_time(), at(125));
    // A packet of another size ends the burst.
    p.send(1000, at(5));
    p.send(1000, at(5));
    assert_eq!(p.next_time(), at(195));
}

#[test]
fn rate_reduction_leaves_room() {
    let mut p = PRR::new();
    p.snd_cnt = 1500;
    p.on_packet_sent(1000);
    assert_eq!((p.prr_out, p.snd_cnt), (1000, 500));
    p.on_packet_sent(1000);
    assert_eq!((p.prr_out, p.snd_cnt), (2000, 0));

    let mut r = path();
    r.path.bytes_in_flight = 13000;
    r.path.prr.snd_cnt = 1200;
    assert_eq!(r.cwnd_available(), 1200);
}

#[test]
fn delivery_rate_of_a_round_trip() {
    let mut r = path();
    send(&mut r, packet(0, 1000, at(0)), Epoch::Application, at(0));
    send(&mut r, packet(1, 1000, at(0)), Epoch::Application, at(0));
    ack(&mut r, &[(0, 2)], at(50));
    // Two packets in 50 ms.
    assert_eq!(r.delivery_rate(), 40_000);
}

#[test]
fn delivery_rate_clock_starts_anew_when_idle() {
    let mut rate = Rate::new(at(0));
    let mut pkt = packet(3, 1000, at(20));
    rate.on_packet_sent(&mut pkt, 0);
    assert_eq!(rate.first_sent_time, at(20));
    assert_eq!(pkt.delivered_time, at(20));
    let mut next = packet(4, 1000, at(30));
    rate.on_packet_sent(&mut next, 1000);
    assert_eq!(next.first_sent_time, at(20));
    assert_eq!(rate.last_sent_packet, 4);
}

#[test]
fn clock_of_the_estimate_and_packets_not_in_flight() {
    let mut r = path();
    send(&mut r, packet(0, 50, at(0)), Epoch::Application, at(0));
    // What is in flight without this packet counts as nothing.
    let mut pkt = packet(1, 50, at(9));
    pkt.in_flight = false;
    send(&mut r, pkt, Epoch::Application, at(9));
    assert_eq!(r.path.delivery_rate.first_sent_time, at(9));
    let mut pkt = packet(2, 51, at(12));
    pkt.in_flight = false;
    send(&mut r, pkt, Epoch::Application, at(12));
    assert_eq!(r.path.delivery_rate.first_sent_time, at(9));
}

#[test]
fn reno_reduces_once_per_period() {
    let mut s = CongestionState::new(1200, true, true, None, at(0));
    let mut reno = Reno;
    reno.congestion_event(&mut s, 1000, at(0), Epoch::Application, at(10), None);
    assert_eq!(s.congestion_window, 6000);
    reno.congestion_event(&mut s, 1000, at(10), Epoch::Application, at(20), None);
    assert_eq!(s.congestion_window, 6000);
    reno.congestion_event(&mut s, 1000, at(11), Epoch::Application, at(20), None);
    assert_eq!(s.congestion_window, 3000);
    reno.congestion_event(&mut s, 1000, at(21), Epoch::Application, at(30), None);
    assert_eq!(s.congestion_window, 2400);
}

#[test]
fn reno_grows_by_a_datagram_per_window() {
    let mut s = CongestionState::new(1200, true, true, None, at(0));
    s.ssthresh = 12000;
    let mut reno = Reno;
    let record = Acked {
        pkt_num: 0,
        time_sent: at(0),
        size: 6000,
        rtt: ms(10),
        delivered: 0,
        delivered_time: at(0),
        first_sent_time: at(0),
        is_app_limited: false,
    };
    s.bytes_in_flight = 20000;
    let mut packets = vec![record];
    reno.on_packets_acked(&mut s, &mut packets, Epoch::Application, at(10));
    assert_eq!((s.congestion_window, s.bytes_in_flight), (12000, 14000));
    let mut packets = vec![record];
    reno.on_packets_acked(&mut s, &mut packets, Epoch::Application, at(10));
    assert_eq!((s.congestion_window, s.bytes_acked_ca), (13200, 0));
}

#[test]
fn report_holds_what_has_changed() {
    let mut r = path();
    assert_eq!(
        r.maybe_qlog(),
        Some(MetricsUpdated {
            min_rtt: None,
            smoothed_rtt: Some(ms(333)),
            latest_rtt: None,
            rtt_variance: Some(Duration::from_nanos(166_500_000)),
            congestion_window: Some(12000),
            bytes_in_flight: None,
            ssthresh: Some(usize::MAX as u64),
            pacing_rate: None,
        })
    );
    assert_eq!(r.maybe_qlog(), None);
    send(&mut r, packet(0, 1000, at(0)), Epoch::Application, at(0));
    let update = r.maybe_qlog().unwrap();
    assert_eq!(update.bytes_in_flight, Some(1000));
    assert_eq!(update.congestion_window, None);
    assert_eq!(r.maybe_qlog(), None);
}

#[test]
fn report_of_equal_figures() {
    let mut m = QlogMetrics::new();
    assert_eq!(m.maybe_update(QlogMetrics::new()), None);
    let mut latest = QlogMetrics::new();
    latest.pacing_rate = 5;
    assert_eq!(m.maybe_update(latest).unwrap().pacing_rate, Some(5));
    assert_eq!(m.pacing_rate, 5);
}

#[test]
fn bytes_in_flight_are_those_of_outstanding_packets() {
    let mut r = path();
    for n in 0..10 {
        send(&mut r, packet(n, 100 + n as usize, at(0)), Epoch::Application, at(0));
    }
    ack(&mut r, &[(3, 5), (8, 9)], at(10));
    let outstanding: usize = r.spaces[APPLICATION]
        .sent
        .iter()
        .filter(|p| p.time_acked.is_none() && p.time_lost.is_none())
        .map(|p| p.size)
        .sum();
    assert_eq!(r.path.bytes_in_flight, outstanding);
    assert!(outstanding > 0);
    assert!(r.bytes_lost as usize <= r.bytes_sent);
}
