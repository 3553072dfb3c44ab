use dns_forwarder::client::{prepare_upstream, Delivery, SlotError, Slots};
use dns_forwarder::decode::DecodeError;
use dns_forwarder::protocol::Message;

fn response_bytes() -> Vec<u8> {
    vec![
        15, 245, 129, 128, 0, 1, 0, 1, 0, 0, 0, 1, 3, 119, 119, 119, 6, 103, 111, 111, 103, 108,
        101, 3, 99, 111, 109, 0, 0, 1, 0, 1, 192, 12, 0, 1, 0, 1, 0, 0, 0, 18, 0, 4, 142, 250, 179,
        228, 0, 0, 41, 2, 0, 0, 0, 0, 0, 0, 0,
    ]
}

#[test]
fn slots_are_distinct_while_pending() {
    let mut slots: Slots<&str> = Slots::new();
    let a = slots.create(100, "a").unwrap();
    let b = slots.create(100, "b").unwrap();
    assert_ne!(a, b);
    assert_eq!(a, 1);
    assert_eq!(b, 2);
    assert!(slots.in_use(a));
    assert_eq!(slots.remove(a), Some((100, "a")));
    assert!(!slots.in_use(a));
    assert_eq!(slots.remove(a), None);
}

#[test]
fn create_skips_ids_in_use() {
    let mut slots: Slots<u8> = Slots::new();
    for _ in 0..5 {
        slots.create(0, 0).unwrap();
    }
    assert_eq!(slots.remove(3), Some((0, 0)));
    // The counter moves on; it does not go back to the freed id at once.
    assert_eq!(slots.create(0, 0).unwrap(), 6);
}

#[test]
fn timed_out_queries_leave_no_slot_behind() {
    let mut slots: Slots<()> = Slots::new();
    for i in 0..(u16::MAX as u32 + 1) {
        let id = slots.create(i as u16, ()).expect("a slot is free");
        assert!(slots.remove(id).is_some());
    }
    assert!(slots.create(1, ()).is_ok());
}

#[test]
fn create_fails_only_when_every_id_is_in_flight() {
    let mut slots: Slots<()> = Slots::new();
    for _ in 0..(u16::MAX as u32 + 1) {
        slots.create(0, ()).unwrap();
    }
    assert_eq!(slots.create(0, ()), Err(SlotError::OutOfSlots));
    slots.remove(40000);
    assert_eq!(slots.create(0, ()), Ok(40000));
}

#[test]
fn delivery_restores_client_id() {
    let mut slots: Slots<&str> = Slots::new();
    let slot = slots.create(0x1234, "waiter").unwrap();
    let mut bytes = response_bytes();
    bytes[0] = (slot >> 8) as u8;
    bytes[1] = (slot & 0xFF) as u8;
    match slots.deliver(&bytes) {
        Delivery::Delivered(who, msg) => {
            assert_eq!(who, "waiter");
            assert_eq!(msg.header.id, 0x1234);
            assert_eq!(msg.answers.len(), 1);
        }
        _ => panic!("expected a delivery"),
    }
    assert!(!slots.in_use(slot));
}

#[test]
fn orphan_and_malformed_datagrams_are_dropped() {
    let mut slots: Slots<&str> = Slots::new();
    let slot = slots.create(5, "w").unwrap();
    let bytes = response_bytes();
    match slots.deliver(&bytes) {
        Delivery::Orphan(msg) => assert_eq!(msg.header.id, 0x0FF5),
        _ => panic!("expected an orphan"),
    }
    match slots.deliver(&bytes[..5]) {
        Delivery::Malformed(e) => assert_eq!(e, DecodeError::Truncated),
        _ => panic!("expected a malformed datagram"),
    }
    assert!(slots.in_use(slot));
}

#[test]
fn upstream_datagram_carries_slot_id() {
    let msg = Message::from_bytes(&response_bytes()).unwrap();
    let packet = prepare_upstream(&msg, 0xABCD).unwrap();
    assert_eq!(&packet[..2], &[0xAB, 0xCD]);
    assert_eq!(&packet[2..], &response_bytes()[2..]);
    assert_eq!(msg.header.id, 0x0FF5);
}
