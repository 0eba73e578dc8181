use rp1210test::bus::{BusLog, Poll};
use rp1210test::packet::J1939Packet;

fn frame(n: u8) -> J1939Packet {
    J1939Packet::new_packet(6, 0xFFF1, 0, 0xF9, &[n])
}

#[test]
fn two_subscriptions_see_every_frame_in_order() {
    let mut bus = BusLog::new();
    let a = bus.subscribe();
    let b = bus.subscribe();
    assert_ne!(a, b);
    bus.publish(frame(b'A'));
    bus.publish(frame(b'B'));
    bus.publish(frame(b'C'));
    for id in [a, b] {
        for n in [b'A', b'B', b'C'] {
            assert_eq!(bus.next(id).unwrap().data(), &[n]);
        }
        assert!(bus.next(id).is_none());
    }
}

#[test]
fn interleaved_reads_keep_order() {
    let mut bus = BusLog::new();
    let a = bus.subscribe();
    bus.publish(frame(1));
    let b = bus.subscribe();
    assert_eq!(bus.next(a).unwrap().data(), &[1]);
    bus.publish(frame(2));
    assert_eq!(bus.next(b).unwrap().data(), &[2]);
    bus.publish(frame(3));
    assert_eq!(bus.next(a).unwrap().data(), &[2]);
    assert_eq!(bus.next(a).unwrap().data(), &[3]);
    assert_eq!(bus.next(b).unwrap().data(), &[3]);
    assert!(bus.next(a).is_none());
    assert!(bus.next(b).is_none());
}

#[test]
fn no_replay_of_history() {
    let mut bus = BusLog::new();
    let a = bus.subscribe();
    bus.publish(frame(1));
    let late = bus.subscribe();
    assert!(bus.next(late).is_none());
    bus.publish(frame(2));
    assert_eq!(bus.next(late).unwrap().data(), &[2]);
    assert_eq!(bus.next(a).unwrap().data(), &[1]);
}

#[test]
fn frames_without_subscribers_are_dropped() {
    let mut bus = BusLog::new();
    assert!(!bus.has_subscribers());
    bus.publish(frame(1));
    assert_eq!(bus.retained(), 0);
    let a = bus.subscribe();
    assert!(bus.has_subscribers());
    assert!(bus.next(a).is_none());
}

#[test]
fn read_frames_are_released() {
    let mut bus = BusLog::new();
    let a = bus.subscribe();
    let b = bus.subscribe();
    bus.publish(frame(1));
    bus.publish(frame(2));
    assert_eq!(bus.retained(), 2);
    bus.next(a);
    bus.next(a);
    assert_eq!(bus.retained(), 2);
    bus.next(b);
    assert_eq!(bus.retained(), 1);
    bus.unsubscribe(b);
    assert_eq!(bus.retained(), 0);
    bus.unsubscribe(a);
    assert!(!bus.has_subscribers());
}

#[test]
fn ended_subscription_reads_nothing_and_its_id_is_reused() {
    let mut bus = BusLog::new();
    let a = bus.subscribe();
    let b = bus.subscribe();
    bus.unsubscribe(a);
    bus.publish(frame(1));
    assert!(bus.next(a).is_none());
    assert!(bus.next(99).is_none());
    let c = bus.subscribe();
    assert_eq!(c, a);
    assert!(bus.next(c).is_none());
    assert_eq!(bus.next(b).unwrap().data(), &[1]);
}

#[test]
fn bounded_wait_on_empty_bus_ends_at_deadline() {
    let mut bus = BusLog::new();
    let a = bus.subscribe();
    assert!(matches!(bus.poll(a, 1_000, Some(201_000)), Poll::Wait(Some(200_000))));
    assert!(matches!(bus.poll(a, 150_000, Some(201_000)), Poll::Wait(Some(51_000))));
    assert!(matches!(bus.poll(a, 201_000, Some(201_000)), Poll::Ended));
    assert!(matches!(bus.poll(a, 900_000, Some(201_000)), Poll::Ended));
}

#[test]
fn poll_yields_frames_before_deadline_only() {
    let mut bus = BusLog::new();
    let a = bus.subscribe();
    bus.publish(frame(1));
    bus.publish(frame(2));
    match bus.poll(a, 10, Some(20)) {
        Poll::Ready(p) => assert_eq!(p.data(), &[1]),
        _ => panic!("expected a frame"),
    }
    assert!(matches!(bus.poll(a, 20, Some(20)), Poll::Ended));
    match bus.poll(a, 30, None) {
        Poll::Ready(p) => assert_eq!(p.data(), &[2]),
        _ => panic!("expected a frame"),
    }
    assert!(matches!(bus.poll(a, 30, None), Poll::Wait(None)));
    assert!(matches!(bus.poll(a + 1, 0, None), Poll::Ended));
}
