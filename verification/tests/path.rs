use std::str::FromStr;

use recovery::algorithms::CongestionControl;
use recovery::congestion::CongestionControlAlgorithm;
use recovery::congestion::MINIMUM_WINDOW_PACKETS;
use recovery::error::Error;
use recovery::frame::Frames;
use recovery::model::HandshakeStatus;
use recovery::model::INITIAL_PACKET_THRESHOLD;
use recovery::packet::Epoch;
use recovery::ranges::RangeSet;
use recovery::recovery::Config;
use recovery::recovery::Recovery;
use recovery::reno::Reno;
use recovery::sent::Sent;
use recovery::time::Duration;
use recovery::time::Instant;

const APPLICATION: usize = 2;

/// A path on which Reno stands in for CUBIC and for BBR.
type Path = Recovery<CongestionControl<Reno, Reno>>;

fn config(cc_algorithm: CongestionControlAlgorithm) -> Config {
    Config {
        max_send_udp_payload_size: 1200,
        cc_algorithm,
        hystart: true,
        pacing: true,
        sidecar_threshold: 0,
        quack_reset: false,
        max_pacing_rate: None,
        ack_reduction: false,
    }
}

fn start() -> Instant {
    Instant::from_nanos(1_000_000_000)
}

fn packet(pkt_num: u64, size: usize, now: Instant) -> Sent {
    Sent {
        sidecar_id: pkt_num as u32,
        pkt_num,
        frames: Frames::new(),
        time_sent: now,
        time_acked_sidecar: None,
        time_acked: None,
        time_lost: None,
        size,
        ack_eliciting: true,
        in_flight: true,
        delivered: 0,
        delivered_time: now,
        first_sent_time: now,
        is_app_limited: false,
        has_data: false,
    }
}

fn sent_len<C>(r: &Recovery<C>) -> usize {
    r.spaces[APPLICATION].sent.len()
}

#[test]
fn lookup_cc_algo_ok() {
    let algo = CongestionControlAlgorithm::from_str("reno").unwrap();
    assert_eq!(algo, CongestionControlAlgorithm::Reno);
}

#[test]
fn lookup_cc_algo_bad() {
    assert_eq!(
        CongestionControlAlgorithm::from_str("???"),
        Err(Error::CongestionControl)
    );
}

#[test]
fn collapse_cwnd() {
    let cfg = config(CongestionControlAlgorithm::Reno);

    let mut r: Path = Recovery::new(&cfg, start());

    // cwnd will be reset.
    r.collapse_cwnd();
    assert_eq!(r.cwnd(), r.max_datagram_size() * MINIMUM_WINDOW_PACKETS);
}

#[test]
fn loss_on_pto() {
    let cfg = config(CongestionControlAlgorithm::Reno);

    let mut r: Path = Recovery::new(&cfg, start());

    let mut now = start();

    assert_eq!(sent_len(&r), 0);

    // Start by sending a few packets.
    r.on_packet_sent(
        packet(0, 1000, now),
        Epoch::Application,
        HandshakeStatus::default(),
        now,
    );
    assert_eq!(sent_len(&r), 1);
    assert_eq!(r.path.bytes_in_flight, 1000);

    r.on_packet_sent(
        packet(1, 1000, now),
        Epoch::Application,
        HandshakeStatus::default(),
        now,
    );
    assert_eq!(sent_len(&r), 2);
    assert_eq!(r.path.bytes_in_flight, 2000);

    r.on_packet_sent(
        packet(2, 1000, now),
        Epoch::Application,
        HandshakeStatus::default(),
        now,
    );
    assert_eq!(sent_len(&r), 3);
    assert_eq!(r.path.bytes_in_flight, 3000);

    r.on_packet_sent(
        packet(3, 1000, now),
        Epoch::Application,
        HandshakeStatus::default(),
        now,
    );
    assert_eq!(sent_len(&r), 4);
    assert_eq!(r.path.bytes_in_flight, 4000);

    // Wait for 10ms.
    now = now.plus(Duration::from_millis(10));

    // Only the first 2 packets are acked.
    let mut acked = RangeSet::new();
    acked.insert(0, 2);

    assert_eq!(
        r.on_ack_received(
            &acked,
            25,
            Epoch::Application,
            HandshakeStatus::default(),
            now,
            &mut Vec::new(),
        ),
        Ok((0, 0))
    );

    assert_eq!(sent_len(&r), 2);
    assert_eq!(r.path.bytes_in_flight, 2000);
    assert_eq!(r.lost_count, 0);

    // Wait until loss detection timer expires.
    now = r.loss_detection_timer().unwrap();

    // PTO.
    r.on_loss_detection_timeout(HandshakeStatus::default(), now);
    assert_eq!(r.spaces[APPLICATION].loss_probes, 1);
    assert_eq!(r.lost_count, 0);
    assert_eq!(r.pto_count, 1);

    r.on_packet_sent(
        packet(4, 1000, now),
        Epoch::Application,
        HandshakeStatus::default(),
        now,
    );
    assert_eq!(sent_len(&r), 3);
    assert_eq!(r.path.bytes_in_flight, 3000);

    r.on_packet_sent(
        packet(5, 1000, now),
        Epoch::Application,
        HandshakeStatus::default(),
        now,
    );
    assert_eq!(sent_len(&r), 4);
    assert_eq!(r.path.bytes_in_flight, 4000);
    assert_eq!(r.lost_count, 0);

    // Wait for 10ms.
    now = now.plus(Duration::from_millis(10));

    // PTO packets are acked.
    let mut acked = RangeSet::new();
    acked.insert(4, 6);

    assert_eq!(
        r.on_ack_received(
            &acked,
            25,
            Epoch::Application,
            HandshakeStatus::default(),
            now,
            &mut Vec::new(),
        ),
        Ok((2, 2000))
    );

    assert_eq!(sent_len(&r), 4);
    assert_eq!(r.path.bytes_in_flight, 0);

    assert_eq!(r.lost_count, 2);

    // Wait 1 RTT.
    now = now.plus(r.rtt());

    r.detect_lost_packets(Epoch::Application, now);

    assert_eq!(sent_len(&r), 0);
}

#[test]
fn loss_on_timer() {
    let cfg = config(CongestionControlAlgorithm::Reno);

    let mut r: Path = Recovery::new(&cfg, start());

    let mut now = start();

    assert_eq!(sent_len(&r), 0);

    // Start by sending a few packets.
    r.on_packet_sent(
        packet(0, 1000, now),
        Epoch::Application,
        HandshakeStatus::default(),
        now,
    );
    assert_eq!(sent_len(&r), 1);
    assert_eq!(r.path.bytes_in_flight, 1000);

    r.on_packet_sent(
        packet(1, 1000, now),
        Epoch::Application,
        HandshakeStatus::default(),
        now,
    );
    assert_eq!(sent_len(&r), 2);
    assert_eq!(r.path.bytes_in_flight, 2000);

    r.on_packet_sent(
        packet(2, 1000, now),
        Epoch::Application,
        HandshakeStatus::default(),
        now,
    );
    assert_eq!(sent_len(&r), 3);
    assert_eq!(r.path.bytes_in_flight, 3000);

    r.on_packet_sent(
        packet(3, 1000, now),
        Epoch::Application,
        HandshakeStatus::default(),
        now,
    );
    assert_eq!(sent_len(&r), 4);
    assert_eq!(r.path.bytes_in_flight, 4000);

    // Wait for 10ms.
    now = now.plus(Duration::from_millis(10));

    // Only the first 2 packets and the last one are acked.
    let mut acked = RangeSet::new();
    acked.insert(0, 2);
    acked.insert(3, 4);

    assert_eq!(
        r.on_ack_received(
            &acked,
            25,
            Epoch::Application,
            HandshakeStatus::default(),
            now,
            &mut Vec::new(),
        ),
        Ok((0, 0))
    );

    assert_eq!(sent_len(&r), 2);
    assert_eq!(r.path.bytes_in_flight, 1000);
    assert_eq!(r.lost_count, 0);

    // Wait until loss detection timer expires.
    now = r.loss_detection_timer().unwrap();

    // Packet is declared lost.
    r.on_loss_detection_timeout(HandshakeStatus::default(), now);
    assert_eq!(r.spaces[APPLICATION].loss_probes, 0);

    assert_eq!(sent_len(&r), 2);
    assert_eq!(r.path.bytes_in_flight, 0);

    assert_eq!(r.lost_count, 1);

    // Wait 1 RTT.
    now = now.plus(r.rtt());

    r.detect_lost_packets(Epoch::Application, now);

    assert_eq!(sent_len(&r), 0);
}

#[test]
fn loss_on_reordering() {
    let cfg = config(CongestionControlAlgorithm::Reno);

    let mut r: Path = Recovery::new(&cfg, start());

    let mut now = start();

    assert_eq!(sent_len(&r), 0);

    // Start by sending a few packets.
    r.on_packet_sent(
        packet(0, 1000, now),
        Epoch::Application,
        HandshakeStatus::default(),
        now,
    );
    assert_eq!(sent_len(&r), 1);
    assert_eq!(r.path.bytes_in_flight, 1000);

    r.on_packet_sent(
        packet(1, 1000, now),
        Epoch::Application,
        HandshakeStatus::default(),
        now,
    );
    assert_eq!(sent_len(&r), 2);
    assert_eq!(r.path.bytes_in_flight, 2000);

    r.on_packet_sent(
        packet(2, 1000, now),
        Epoch::Application,
        HandshakeStatus::default(),
        now,
    );
    assert_eq!(sent_len(&r), 3);
    assert_eq!(r.path.bytes_in_flight, 3000);

    r.on_packet_sent(
        packet(3, 1000, now),
        Epoch::Application,
        HandshakeStatus::default(),
        now,
    );
    assert_eq!(sent_len(&r), 4);
    assert_eq!(r.path.bytes_in_flight, 4000);

    // Wait for 10ms.
    now = now.plus(Duration::from_millis(10));

    // ACKs are reordered.
    let mut acked = RangeSet::new();
    acked.insert(2, 4);

    assert_eq!(
        r.on_ack_received(
            &acked,
            25,
            Epoch::Application,
            HandshakeStatus::default(),
            now,
            &mut Vec::new(),
        ),
        Ok((1, 1000))
    );

    now = now.plus(Duration::from_millis(10));

    let mut acked = RangeSet::new();
    acked.insert(0, 2);

    assert_eq!(r.pkt_thresh, INITIAL_PACKET_THRESHOLD);

    assert_eq!(
        r.on_ack_received(
            &acked,
            25,
            Epoch::Application,
            HandshakeStatus::default(),
            now,
            &mut Vec::new(),
        ),
        Ok((0, 0))
    );

    assert_eq!(sent_len(&r), 4);
    assert_eq!(r.path.bytes_in_flight, 0);

    // Spurious loss.
    assert_eq!(r.lost_count, 1);
    assert_eq!(r.lost_spurious_count, 1);

    // Packet threshold was increased.
    assert_eq!(r.pkt_thresh, 4);

    // Wait 1 RTT.
    now = now.plus(r.rtt());

    r.detect_lost_packets(Epoch::Application, now);

    assert_eq!(sent_len(&r), 0);
}

#[test]
fn pacing() {
    let cfg = config(CongestionControlAlgorithm::CUBIC);

    // Nothing is lost here: the window of CUBIC grows as that of Reno does.
    let mut r: Path = Recovery::new(&cfg, start());

    let mut now = start();

    assert_eq!(sent_len(&r), 0);

    // send out first packet (a full initcwnd).
    r.on_packet_sent(
        packet(0, 12000, now),
        Epoch::Application,
        HandshakeStatus::default(),
        now,
    );

    assert_eq!(sent_len(&r), 1);
    assert_eq!(r.path.bytes_in_flight, 12000);

    // First packet will be sent out immediately.
    assert_eq!(r.path.pacer.rate(), 0);
    assert_eq!(r.get_packet_send_time(), now);

    // Wait 50ms for ACK.
    now = now.plus(Duration::from_millis(50));

    let mut acked = RangeSet::new();
    acked.insert(0, 1);

    assert_eq!(
        r.on_ack_received(
            &acked,
            10,
            Epoch::Application,
            HandshakeStatus::default(),
            now,
            &mut Vec::new(),
        ),
        Ok((0, 0))
    );

    assert_eq!(sent_len(&r), 0);
    assert_eq!(r.path.bytes_in_flight, 0);
    assert_eq!(r.path.smoothed_rtt.unwrap(), Duration::from_millis(50));

    // 1 MSS increased.
    assert_eq!(r.path.congestion_window, 12000 + 1200);

    // Send out second packet.
    r.on_packet_sent(
        packet(1, 6000, now),
        Epoch::Application,
        HandshakeStatus::default(),
        now,
    );

    assert_eq!(sent_len(&r), 1);
    assert_eq!(r.path.bytes_in_flight, 6000);

    // Pacing is not done during initial phase of connection.
    assert_eq!(r.get_packet_send_time(), now);

    // Send the third packet out.
    r.on_packet_sent(
        packet(2, 6000, now),
        Epoch::Application,
        HandshakeStatus::default(),
        now,
    );

    assert_eq!(sent_len(&r), 2);
    assert_eq!(r.path.bytes_in_flight, 12000);

    // Send the third packet out.
    r.on_packet_sent(
        packet(3, 1000, now),
        Epoch::Application,
        HandshakeStatus::default(),
        now,
    );

    assert_eq!(sent_len(&r), 3);
    assert_eq!(r.path.bytes_in_flight, 13000);

    // We pace this outgoing packet. as all conditions for pacing
    // are passed.
    let pacing_rate = (r.path.congestion_window as f64 * 1.25 / 0.05) as u64;
    assert_eq!(r.path.pacer.rate(), pacing_rate);

    let pause = std::time::Duration::from_secs_f64(12000.0 / pacing_rate as f64);
    assert_eq!(
        r.get_packet_send_time(),
        now.plus(Duration::from_nanos(pause.as_nanos() as u64))
    );
}
