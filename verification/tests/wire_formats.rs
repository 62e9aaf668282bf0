use insub::cli::hex_pk;
use insub::dht::record::record::{Record, RecordTag, MAX_RECORD_SIZE};
use insub::network::addr::{read_addr, write_addr, PeerAddr};
use insub::network::relay::RelayFrame;
use insub::protocol::message::Message;
use insub::protocol::packet::{flag_to_int, Packet, PacketFlag, PacketFlags, CURRENT_VERSION};
use insub::protocol::payload::{Payload, PayloadTag};
use insub::protocol::wire::{push_u128, push_u16, push_u32, push_u64, read_u128, read_u16, read_u32, read_u64, take_bytes};

#[test]
fn flag_bits_are_powers_of_two() {
    assert_eq!(flag_to_int(PacketFlag::AckRequired), 1);
    assert_eq!(flag_to_int(PacketFlag::Ack), 2);
    assert_eq!(flag_to_int(PacketFlag::Fragmented), 4);
    assert_eq!(flag_to_int(PacketFlag::LastFragment), 8);
}

#[test]
fn setting_a_flag_keeps_the_others() {
    let mut flags = PacketFlags::from_int(0);
    assert!(!flags.contains(PacketFlag::Ack));
    flags.set(PacketFlag::Ack);
    flags.set(PacketFlag::LastFragment);
    assert_eq!(flags.to_int(), 10);
    assert!(flags.contains(PacketFlag::Ack));
    assert!(flags.contains(PacketFlag::LastFragment));
    assert!(!flags.contains(PacketFlag::AckRequired));
    assert!(!flags.contains(PacketFlag::Fragmented));
    flags.set(PacketFlag::Ack);
    assert_eq!(flags.to_int(), 10);
}

#[test]
fn integers_are_big_endian() {
    let mut out: Vec<u8> = Vec::new();
    push_u16(&mut out, 0x0102);
    push_u32(&mut out, 0x03040506);
    push_u64(&mut out, 0x0708090a0b0c0d0e);
    push_u128(&mut out, 1);
    assert_eq!(&out[..14], &[1u8, 2, 3, 4, 5, 6, 7, 8, 9, 10, 11, 12, 13, 14][..]);
    assert_eq!(out.len(), 30);
    assert_eq!(out[29], 1);
    assert_eq!(read_u16(&out, 0), 0x0102);
    assert_eq!(read_u32(&out, 2), 0x03040506);
    assert_eq!(read_u64(&out, 6), 0x0708090a0b0c0d0e);
    assert_eq!(read_u128(&out, 14), 1);
}

#[test]
fn take_bytes_splits_or_refuses() {
    let mut v = vec![1u8, 2, 3, 4, 5];
    let a: [u8; 2] = take_bytes::<2>(&mut v).unwrap();
    assert_eq!(a, [1, 2]);
    assert_eq!(v, vec![3u8, 4, 5]);
    let r = take_bytes::<4>(&mut v);
    assert!(r.is_err());
    assert_eq!(v, vec![3u8, 4, 5]);
}

#[test]
fn payload_wire_layout() {
    let p = Payload::new_fragment(PayloadTag::Message, vec![0xaa, 0xbb], 0x0102, 3, 7);
    let bytes = p.serialize();
    let mut expected = vec![2u8];
    expected.extend_from_slice(&[0u8; 14]);
    expected.extend_from_slice(&[1, 2, 3, 7, 0xaa, 0xbb]);
    assert_eq!(bytes, expected);
    let back = Payload::from_serialized(bytes).unwrap();
    assert_eq!(back.tag, PayloadTag::Message);
    assert_eq!(back.data, vec![0xaa, 0xbb]);
    assert_eq!(back.fragment_id, 0x0102);
    assert_eq!(back.fragment_index, 3);
    assert_eq!(back.fragment_total, 7);
}

#[test]
fn payload_tags_roundtrip_and_unknown_bytes_fail() {
    let tags = [
        PayloadTag::Handshake,
        PayloadTag::Message,
        PayloadTag::DhtQuery,
        PayloadTag::DhtResponse,
        PayloadTag::RelayFrame,
        PayloadTag::FileChunk,
        PayloadTag::KeepAlive,
        PayloadTag::Dummy,
        PayloadTag::DhtOperation,
    ];
    for (i, t) in tags.iter().enumerate() {
        assert_eq!(t.to_byte() as usize, i + 1);
        assert_eq!(PayloadTag::from_byte(t.to_byte()), Some(*t));
    }
    assert_eq!(PayloadTag::from_byte(0), None);
    assert_eq!(PayloadTag::from_byte(10), None);
    let mut bad = vec![0u8; 19];
    bad[0] = 0x7f;
    assert!(Payload::from_serialized(bad).is_err());
    assert!(Payload::from_serialized(vec![1u8; 18]).is_err());
}

#[test]
fn packet_roundtrip_and_header_layout() {
    let payload = Payload::new(PayloadTag::KeepAlive, vec![9, 8, 7]);
    let packet = Packet::new(5, 0xdead, payload);
    assert_eq!(packet.header.version, CURRENT_VERSION);
    let bytes = packet.serialize();
    assert_eq!(bytes.len(), 28 + 19 + 3);
    assert_eq!(&bytes[..8], &[0u8, 0, 0, 0, 0, 0, 0, 1][..]);
    assert_eq!(&bytes[8..12], &[0u8, 0, 0, 5][..]);
    assert_eq!(bytes[26], 0xde);
    assert_eq!(bytes[27], 0xad);
    let back = Packet::from_serialized(bytes).unwrap();
    assert_eq!(back.header.flags.to_int(), 5);
    assert_eq!(back.header.id, 0xdead);
    assert_eq!(back.payload.tag, PayloadTag::KeepAlive);
    assert_eq!(back.payload.data, vec![9, 8, 7]);
    assert!(Packet::from_serialized(vec![0u8; 27]).is_err());
}

#[test]
fn message_roundtrip_with_and_without_reply() {
    let m = Message { id: 42, content: "hello".to_string(), timestamp: 1_700_000_000, reply_to: Some(7) };
    let bytes = m.serialize().unwrap();
    assert_eq!(bytes.len(), 45);
    assert_eq!(&bytes[40..], b"hello");
    let back = Message::from_serialized(bytes).unwrap();
    assert_eq!(back.id, 42);
    assert_eq!(back.content, "hello");
    assert_eq!(back.timestamp, 1_700_000_000);
    assert_eq!(back.reply_to, Some(7));

    let m2 = Message { id: 1, content: String::new(), timestamp: 0, reply_to: None };
    let back2 = Message::from_serialized(m2.serialize().unwrap()).unwrap();
    assert_eq!(back2.reply_to, None);
    assert_eq!(back2.content, "");
}

#[test]
fn message_with_bad_utf8_is_refused() {
    let mut bytes = vec![0u8; 40];
    bytes.push(0xff);
    assert!(Message::from_serialized(bytes).is_err());
}

#[test]
fn new_message_keeps_content_and_reply() {
    let m = Message::new("hi".to_string(), Some(3));
    assert_eq!(m.content, "hi");
    assert_eq!(m.reply_to, Some(3));
    assert!(m.timestamp > 1_600_000_000);
}

#[test]
fn record_roundtrip_and_limits() {
    let r = Record::new(RecordTag::Contact, vec![1, 2, 3]);
    let bytes = r.serialize();
    assert_eq!(bytes, vec![1u8, 1, 2, 3]);
    let back = Record::from_serialized(bytes).unwrap();
    assert_eq!(back.tag, RecordTag::Contact);
    assert_eq!(back.data, vec![1, 2, 3]);
    assert!(Record::from_serialized(vec![1u8]).is_err());
    assert!(Record::from_serialized(vec![2u8, 0]).is_err());
    let mut big = vec![1u8];
    big.extend(std::iter::repeat(0u8).take(MAX_RECORD_SIZE + 1));
    assert!(Record::from_serialized(big).is_err());
    assert_eq!(RecordTag::from_byte(1), Some(RecordTag::Contact));
    assert_eq!(RecordTag::Contact.to_byte(), 1);
}

#[test]
fn relay_frame_roundtrip() {
    let f = RelayFrame::new(0x0102, vec![5, 6]);
    let bytes = f.serialize();
    assert_eq!(bytes.len(), 18);
    assert_eq!(bytes[14], 1);
    assert_eq!(bytes[15], 2);
    let back = RelayFrame::from_serialized(bytes).unwrap();
    assert_eq!(back.dest_id, 0x0102);
    assert_eq!(back.payload, vec![5, 6]);
    assert!(RelayFrame::from_serialized(vec![0u8; 15]).is_err());
}

#[test]
fn addresses_roundtrip() {
    let a = PeerAddr::V4 { ip: 0x7f000001, port: 9000 };
    let mut out = Vec::new();
    write_addr(&a, &mut out);
    assert_eq!(out, vec![4u8, 127, 0, 0, 1, 0x23, 0x28]);
    let b = PeerAddr::V6 { ip: 1, port: 1 };
    write_addr(&b, &mut out);
    assert_eq!(out.len(), 7 + 19);
    let (a2, next) = read_addr(&out, 0).unwrap();
    assert_eq!(a2, a);
    let (b2, end) = read_addr(&out, next).unwrap();
    assert_eq!(b2, b);
    assert_eq!(end, out.len());
    assert!(read_addr(&[5u8, 0, 0], 0).is_none());
    assert!(read_addr(&[4u8, 0, 0], 0).is_none());
}

#[test]
fn hex_keys_parse_with_or_without_prefix() {
    let s = "ab".repeat(32);
    assert_eq!(hex_pk(&s), Some([0xab; 32]));
    assert_eq!(hex_pk(&format!("0x{}", s)), Some([0xab; 32]));
    assert_eq!(hex_pk(&"AB".repeat(32)), Some([0xab; 32]));
    let mut expected = [0u8; 32];
    expected[31] = 0x0f;
    assert_eq!(hex_pk(&format!("{}0f", "00".repeat(31))), Some(expected));
    assert_eq!(hex_pk(&"ab".repeat(31)), None);
    assert_eq!(hex_pk(&"zz".repeat(32)), None);
    assert_eq!(hex_pk("abc"), None);
    let k = [7u8; 32];
    assert_eq!(hex_pk(&hex::encode(k)), Some(k));
}

#[test]
fn printed_ids_read_back_as_keys() {
    let mut raw = [0u8; 32];
    for (i, b) in raw.iter_mut().enumerate() {
        *b = (i * 37) as u8;
    }
    let id = insub::dht::node_id::NodeID { id: raw };
    assert_eq!(hex_pk(&id.to_hex()), Some(raw));
    assert_eq!(hex_pk(&format!("0x{}", id.to_hex())), Some(raw));
}
