use dns_forwarder::decode::{DecodeError, LabelKind};
use dns_forwarder::encode::{EncodeError, MessageWriter};
use dns_forwarder::protocol::{Flags, Header, Message, Question};

fn query_bytes() -> Vec<u8> {
    vec![
        112, 27, 1, 32, 0, 1, 0, 0, 0, 0, 0, 1, 3, 119, 119, 119, 6, 103, 111, 111, 103, 108, 101,
        3, 99, 111, 109, 0, 0, 15, 0, 3, 0, 0, 41, 16, 0, 0, 0, 0, 0, 0, 0,
    ]
}

#[test]
fn message_query_roundtrip() {
    let sample = [
        112, 27, 1, 32, 0, 1, 0, 0, 0, 0, 0, 1, 3, 119, 119, 119, 6, 103, 111, 111, 103, 108, 101,
        3, 99, 111, 109, 0, 0, 15, 0, 3, 0, 0, 41, 16, 0, 0, 0, 0, 0, 0, 0,
    ];
    let message = Message::from_bytes(&sample).unwrap();
    assert_eq!(sample, message.to_udp_packet().unwrap().as_slice());
}

#[test]
fn message_google_response_roundtrip() {
    let sample = [
        15, 245, 129, 128, 0, 1, 0, 1, 0, 0, 0, 1, 3, 119, 119, 119, 6, 103, 111, 111, 103, 108,
        101, 3, 99, 111, 109, 0, 0, 1, 0, 1, 192, 12, 0, 1, 0, 1, 0, 0, 0, 18, 0, 4, 142, 250, 179,
        228, 0, 0, 41, 2, 0, 0, 0, 0, 0, 0, 0,
    ];
    let message = Message::from_bytes(&sample).unwrap();
    assert_eq!(sample, message.to_udp_packet().unwrap().as_slice());
}

#[test]
fn labelkind_parsing() {
    assert_eq!(LabelKind::read(&[0], 0).unwrap().0, LabelKind::Absent);
    assert_eq!(LabelKind::read(&[1], 0).unwrap().0, LabelKind::Data(1));
    assert_eq!(LabelKind::read(&[0xC0u8, 0x0C], 0).unwrap().0, LabelKind::Pointer(12));
}

#[test]
fn message_tracker() {
    let mut tracker = MessageWriter::new(Vec::new());
    tracker.write_name("www.google.com").unwrap();
    tracker.write_name("google.com").unwrap();
    println!("{:?}", tracker.underlying);
    let mut expected = vec![3, b'w', b'w', b'w', 6];
    expected.extend_from_slice(b"google");
    expected.extend_from_slice(&[3, b'c', b'o', b'm', 0]);
    expected.extend_from_slice(&[0xC0, 4]);
    assert_eq!(tracker.underlying, expected);
}

#[test]
fn decoded_query_fields() {
    let message = Message::from_bytes(&query_bytes()).unwrap();
    assert_eq!(message.header.id, 0x701B);
    assert_eq!(message.questions.len(), 1);
    assert_eq!(message.questions[0].qname, "www.google.com");
    assert_eq!(message.questions[0].qtype, 15);
    assert_eq!(message.questions[0].qclass, 3);
    assert_eq!(message.additionals.len(), 1);
    assert_eq!(message.additionals[0].name, "");
    assert_eq!(message.additionals[0].rtype, 41);
    assert_eq!(message.additionals[0].rclass, 4096);
}

#[test]
fn decode_pointer_after_label() {
    // "mail" followed by a pointer to "google.com" at offset 16.
    let mut b = query_bytes();
    b[7] = 1; // one answer
    b.truncate(32);
    b.extend_from_slice(&[4, b'm', b'a', b'i', b'l', 0xC0, 16]);
    b.extend_from_slice(&[0, 1, 0, 1, 0, 0, 0, 60, 0, 0]);
    b[11] = 0;
    let message = Message::from_bytes(&b).unwrap();
    assert_eq!(message.answers[0].name, "mail.google.com");
    assert_eq!(message.answers[0].ttl, 60);
}

#[test]
fn decode_rejects_short_header() {
    assert_eq!(Message::from_bytes(&[0, 1, 2]).unwrap_err(), DecodeError::Truncated);
}

#[test]
fn decode_rejects_two_questions() {
    let mut b = query_bytes();
    b[5] = 2;
    assert_eq!(Message::from_bytes(&b).unwrap_err(), DecodeError::UnsupportedQuestionCount);
}

#[test]
fn decode_rejects_truncated_record() {
    let b = query_bytes();
    assert_eq!(Message::from_bytes(&b[..40]).unwrap_err(), DecodeError::Truncated);
}

#[test]
fn decode_rejects_invalid_utf8() {
    let mut b = query_bytes();
    b[13] = 0xFF;
    assert_eq!(Message::from_bytes(&b).unwrap_err(), DecodeError::InvalidLabel);
}

#[test]
fn decode_rejects_pointer_cycle() {
    let mut b = query_bytes();
    b[12] = 0xC0;
    b[13] = 12;
    assert_eq!(Message::from_bytes(&b).unwrap_err(), DecodeError::PointerLoop);
}

fn one_question(name: &str) -> Message {
    Message {
        header: Header {
            id: 7,
            flags: Flags::from_bytes(1, 0),
            qdcount: 1,
            ancount: 0,
            nscount: 0,
            arcount: 0,
        },
        questions: vec![Question { qname: name.to_string(), qtype: 1, qclass: 1 }],
        answers: vec![],
        authorities: vec![],
        additionals: vec![],
    }
}

#[test]
fn encode_rejects_empty_label() {
    assert_eq!(one_question("a..b").to_udp_packet().unwrap_err(), EncodeError::EmptyLabel);
}

#[test]
fn encode_rejects_long_label() {
    let long = "x".repeat(64);
    assert_eq!(one_question(&long).to_udp_packet().unwrap_err(), EncodeError::LabelTooLong);
    let ok = "x".repeat(63);
    assert!(one_question(&ok).to_udp_packet().is_ok());
}

#[test]
fn encode_then_decode_gives_same_question() {
    let bytes = one_question("example.org").to_udp_packet().unwrap();
    assert_eq!(bytes.len(), 12 + 13 + 4);
    let back = Message::from_bytes(&bytes).unwrap();
    assert_eq!(back.questions[0].qname, "example.org");
    assert_eq!(back.header.flags.rd(), 1);
}

#[test]
fn flags_read_their_bits() {
    let f = Flags::from_bytes(0b1010_1111, 0b1011_0011);
    assert_eq!(f.qr(), 1);
    assert_eq!(f.opcode(), 0b0101);
    assert_eq!(f.aa(), 1);
    assert_eq!(f.tc(), 1);
    assert_eq!(f.rd(), 1);
    assert_eq!(f.ra(), 1);
    assert_eq!(f.z(), 0);
    assert_eq!(f.ad(), 1);
    assert_eq!(f.cd(), 1);
    assert_eq!(f.rcode(), 3);
}

fn all_flags(f: &Flags) -> [u8; 10] {
    [f.qr(), f.opcode(), f.aa(), f.tc(), f.rd(), f.ra(), f.z(), f.ad(), f.cd(), f.rcode()]
}

#[test]
fn flags_setters_touch_only_their_field() {
    for start in [Flags::from_bytes(0, 0), Flags::from_bytes(0xFF, 0xFF), Flags::from_bytes(0x5A, 0xA5)] {
        let before = all_flags(&start);
        let cases: [(usize, u8); 10] =
            [(0, 1), (1, 9), (2, 1), (3, 1), (4, 1), (5, 1), (6, 1), (7, 1), (8, 1), (9, 2)];
        for (field, value) in cases {
            let mut f = start;
            match field {
                0 => f.set_qr(value),
                1 => f.set_opcode(value),
                2 => f.set_aa(value),
                3 => f.set_tc(value),
                4 => f.set_rd(value),
                5 => f.set_ra(value),
                6 => f.set_z(value),
                7 => f.set_ad(value),
                8 => f.set_cd(value),
                _ => f.set_rcode(value),
            }
            let after = all_flags(&f);
            for i in 0..10 {
                if i == field {
                    assert_eq!(after[i], value);
                } else {
                    assert_eq!(after[i], before[i]);
                }
            }
        }
    }
}

#[test]
fn set_qr_clears_and_sets() {
    let mut f = Flags::from_bytes(0x81, 0x80);
    f.set_qr(0);
    assert_eq!(f.qr(), 0);
    assert_eq!(f.rd(), 1);
    f.set_qr(1);
    assert_eq!(f.qr(), 1);
    assert_eq!(f.left, 0x81);
}
