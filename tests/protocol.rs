use rp1210test::packet::J1939Packet;
use rp1210test::protocol::{
    control, data_frame, exit_frame, is_echo_of, is_pong, parameter, ping_frame, pong_frame,
    request_frame, server_action, RxEvent, RxRun, SeqMismatch, ServerAction, DATA_CMD, EXIT_CMD,
    PING_CMD, RX_CMD, TX_CMD,
};
use rp1210test::stats::{frames_per_second, latency, LatencyStats, RateMeter};

fn capture(ts: u32, sent: &J1939Packet) -> J1939Packet {
    let mut raw = ts.to_be_bytes().to_vec();
    raw.push(0);
    raw.extend_from_slice(sent.raw());
    J1939Packet::new_rp1210(&raw, 1000).unwrap()
}

fn data_from(source: u8, seq: u32) -> J1939Packet {
    capture(0, &data_frame(seq, 0xFFF1, 0xF9, source))
}

#[test]
fn control_payload_layout() {
    assert_eq!(control(RX_CMD, 0x01020304), vec![2, 0, 0, 0, 1, 2, 3, 4]);
    assert_eq!(control(DATA_CMD, 7), vec![4, 0, 0, 0, 0, 0, 0, 7]);
    assert_eq!(parameter(&[3, 0, 0, 0, 0, 0, 1, 0]), Some(256));
    assert_eq!(parameter(&[3, 0, 0, 0, 0, 0, 1]), None);
}

#[test]
fn protocol_frames() {
    let p = ping_frame(1, 0xFFF1, 0, 0xF9);
    assert_eq!(p.data(), &[PING_CMD, 0, 0, 0, 0, 0, 0, 1]);
    assert_eq!(p.pgn(), 0xFFF1);
    assert_eq!(p.source(), 0xF9);
    assert_eq!(p.priority(), 6);
    let r = request_frame(TX_CMD, 10, 0xFFF1, 0, 0xF9);
    assert_eq!(r.data(), &[TX_CMD, 0, 0, 0, 0, 0, 0, 10]);
    let e = exit_frame(0xFFF1, 0, 0xF9);
    assert_eq!(e.data(), &[EXIT_CMD, 0, 0, 0, 0, 0, 0, 0]);
    let d = data_frame(0x01000000, 0xEF00, 0x25, 0xF9);
    assert_eq!(d.data(), &[DATA_CMD, 0, 0, 0, 1, 0, 0, 0]);
    assert_eq!(d.pgn(), 0xEF25);
}

#[test]
fn pong_goes_back_to_sender() {
    let ping = capture(5, &ping_frame(3, 0xFFF1, 0, 0x20));
    let pong = pong_frame(&ping, 0xFFF1, 0xF9);
    assert_eq!(pong.source(), 0xF9);
    assert_eq!(pong.data(), ping.data());
    assert!(is_pong(&capture(9, &pong), 0xF9, 0xFFF1));
    assert!(!is_pong(&capture(9, &pong), 0x20, 0xFFF1));
    assert!(!is_pong(&capture(9, &pong), 0xF9, 0xFFF2));
    assert!(!is_pong(&data_from(0xF9, 1), 0xF9, 0xFFF1));
}

#[test]
fn echo_matches_payload() {
    let sent = data_frame(5, 0xFFF1, 0, 0xF9);
    assert!(is_echo_of(&capture(1, &sent), &sent));
    assert!(!is_echo_of(&capture(1, &data_frame(6, 0xFFF1, 0, 0xF9)), &sent));
    assert!(!is_echo_of(&capture(1, &J1939Packet::new_packet(6, 0xFFF1, 0, 0xF9, &[4])), &sent));
}

#[test]
fn server_dispatch() {
    let me = 0xF9;
    let peer = 0x20;
    let from_peer = |payload: &[u8]| capture(0, &J1939Packet::new_packet(6, 0xFFF1, me, peer, payload));
    match server_action(&from_peer(&[PING_CMD, 0, 0, 0, 0, 0, 0, 1]), me, 0xFFF1) {
        ServerAction::Pong(f) => {
            assert_eq!(f.source(), me);
            assert_eq!(f.data(), &[PING_CMD, 0, 0, 0, 0, 0, 0, 1]);
        }
        _ => panic!("expected a pong"),
    }
    assert!(matches!(
        server_action(&from_peer(&[RX_CMD, 0, 0, 0, 0, 0, 0, 9]), me, 0xFFF1),
        ServerAction::Receive { source: 0x20, count: 9 }
    ));
    assert!(matches!(
        server_action(&from_peer(&[TX_CMD, 0, 0, 0, 0, 0, 1, 0]), me, 0xFFF1),
        ServerAction::Transmit { dest: 0x20, count: 256 }
    ));
    assert!(matches!(server_action(&from_peer(&[TX_CMD, 0, 0]), me, 0xFFF1), ServerAction::Malformed));
    assert!(matches!(server_action(&from_peer(&[DATA_CMD, 0, 0, 0, 0, 0, 0, 0]), me, 0xFFF1), ServerAction::Ignore));
    assert!(matches!(server_action(&from_peer(&[EXIT_CMD, 0, 0, 0, 0, 0, 0, 0]), me, 0xFFF1), ServerAction::Exit));
    assert!(matches!(server_action(&from_peer(&[9]), me, 0xFFF1), ServerAction::Unknown));
    assert!(matches!(server_action(&from_peer(&[]), me, 0xFFF1), ServerAction::Unknown));
    // other PGN, or our own frame
    assert!(matches!(server_action(&from_peer(&[EXIT_CMD]), me, 0xFFF2), ServerAction::Ignore));
    let own = capture(0, &J1939Packet::new_packet(6, 0xFFF1, 0, me, &[EXIT_CMD]));
    assert!(matches!(server_action(&own, me, 0xFFF1), ServerAction::Ignore));
}

#[test]
fn rx_in_order_has_no_mismatch() {
    let mut run = RxRun::new(0xFFF1, 0x20, 4);
    for seq in [0, 1, 2, 3] {
        assert_eq!(run.feed(&data_from(0x20, seq)), RxEvent::InSequence(seq));
    }
    assert!(run.done());
    assert!(run.mismatches.is_empty());
}

#[test]
fn rx_gap_is_one_mismatch() {
    let mut run = RxRun::new(0xFFF1, 0x20, 4);
    assert_eq!(run.feed(&data_from(0x20, 0)), RxEvent::InSequence(0));
    assert_eq!(run.feed(&data_from(0x20, 1)), RxEvent::InSequence(1));
    assert_eq!(
        run.feed(&data_from(0x20, 3)),
        RxEvent::OutOfSequence(SeqMismatch { expected: 2, received: 3 })
    );
    assert!(!run.done());
    assert_eq!(run.feed(&data_from(0x20, 4)), RxEvent::InSequence(4));
    assert!(run.done());
    assert_eq!(run.mismatches, vec![SeqMismatch { expected: 2, received: 3 }]);
    // complete: further frames are not taken
    assert_eq!(run.feed(&data_from(0x20, 5)), RxEvent::Skipped);
    assert_eq!(run.received, 4);
}

#[test]
fn rx_skips_other_traffic() {
    let mut run = RxRun::new(0xFFF1, 0x20, 2);
    assert_eq!(run.feed(&data_from(0x21, 0)), RxEvent::Skipped);
    assert_eq!(run.feed(&capture(0, &ping_frame(0, 0xFFF1, 0, 0x20))), RxEvent::Skipped);
    assert_eq!(run.feed(&capture(0, &data_frame(0, 0xFFF2, 0, 0x20))), RxEvent::Skipped);
    assert_eq!(
        run.feed(&capture(0, &J1939Packet::new_packet(6, 0xFFF1, 0, 0x20, &[DATA_CMD, 0]))),
        RxEvent::Malformed
    );
    assert_eq!(run.received, 1);
    assert_eq!(run.expected, 0);
}

#[test]
fn rx_sequence_wraps() {
    let mut run = RxRun::new(0xFFF1, 0x20, 3);
    run.expected = u32::MAX;
    assert_eq!(run.feed(&data_from(0x20, u32::MAX)), RxEvent::InSequence(u32::MAX));
    assert_eq!(run.feed(&data_from(0x20, 0)), RxEvent::InSequence(0));
}

#[test]
fn latency_of_reply() {
    let echo = capture(100, &ping_frame(1, 0xFFF1, 0, 0xF9));
    let pong = capture(103, &ping_frame(1, 0xFFF1, 0xF9, 0));
    assert_eq!(latency(&echo, &pong), 3000);
    assert_eq!(latency(&pong, &echo), -3000);
}

#[test]
fn latency_statistics() {
    let mut s = LatencyStats::new();
    s.record(3000);
    s.record(1000);
    s.record(5000);
    s.record_missing();
    assert_eq!(s.samples, 3);
    assert_eq!(s.missed, 1);
    assert_eq!(s.total, 9000);
    assert_eq!(s.min, 1000);
    assert_eq!(s.max, 5000);
}

#[test]
fn throughput_formula() {
    assert_eq!(frames_per_second(100, 2_000_000), Some(50));
    assert_eq!(frames_per_second(3, 1_000), Some(3000));
    assert_eq!(frames_per_second(3, 0), None);
}

#[test]
fn rate_meter_reports_after_period() {
    let mut m = RateMeter::new(1000);
    for _ in 0..99 {
        assert_eq!(m.on_frame(5000), None);
    }
    assert_eq!(m.on_frame(11000), None);
    assert_eq!(m.on_frame(21000), Some(5));
    assert_eq!(m.count, 0);
    assert_eq!(m.start_ms, 21000);
    assert_eq!(m.on_frame(20000), None);
}
