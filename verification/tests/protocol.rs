use sidewire::bytes::{push_be16, push_be32, read_be16, read_be32, same};
use sidewire::capabilities::{display, names, ALL, CLIPBOARD, CORE, FLOW_CONTROL, HEARTBEAT};
use sidewire::device_id::{key_from_hex, key_to_hex, DeviceId, HexError};
use sidewire::frame::{
    decode_frame_bytes, decode_frame_header, encode_frame_bytes, frame_header, negotiated_version,
    protocol_compatible, protocol_label, protocol_major, protocol_minor, raw_frame, FrameError,
    FrameKind, HEADER_LEN, MAX_PAYLOAD, PROTOCOL_MAJOR, PROTOCOL_MINOR, VERSION,
};
use sidewire::messages::SecurityMode;
use sidewire::packet::{packet_header, packet_len, WriteCursor, MAX_PACKET};

#[test]
fn protocol_negotiates_within_major_only() {
    let older_minor = (PROTOCOL_MAJOR as u16) << 8;
    assert!(protocol_compatible(older_minor));
    assert_eq!(negotiated_version(older_minor), Some(older_minor));

    let newer_minor = ((PROTOCOL_MAJOR as u16) << 8) | (PROTOCOL_MINOR.saturating_add(3) as u16);
    assert!(protocol_compatible(newer_minor));
    assert_eq!(negotiated_version(newer_minor), Some(VERSION));
    let next_major = ((PROTOCOL_MAJOR + 1) as u16) << 8;
    assert!(!protocol_compatible(next_major));
    assert_eq!(negotiated_version(next_major), None);
    assert_eq!(protocol_label(VERSION), "1.1");
}

#[test]
fn version_parts() {
    assert_eq!(protocol_major(0x0205), 2);
    assert_eq!(protocol_minor(0x0205), 5);
    assert_eq!(protocol_label(0x0c0a), "12.10");
}

#[test]
fn vectored_writer_round_trips_payload() {
    let frame = raw_frame(FrameKind::PtyInput, 42, b"abc123".to_vec());
    let header = frame_header(FrameKind::PtyInput, 42, 6).unwrap();
    let mut cursor = WriteCursor::new(header.len(), frame.payload.len());
    let mut wire = Vec::new();
    let all = [&header[..], &frame.payload[..]].concat();
    while cursor.in_header() {
        let n = (all.len() - wire.len()).min(7);
        wire.extend_from_slice(&all[wire.len()..wire.len() + n]);
        assert!(cursor.advance(n));
    }
    assert_eq!(cursor.header_offset, header.len());
    assert_eq!(cursor.body_offset, wire.len() - header.len());
    wire.extend_from_slice(&frame.payload[cursor.body_offset..]);
    assert!(!WriteCursor::new(1, 1).advance(0));
    let read = decode_frame_bytes(&wire).unwrap();
    assert_eq!(read.kind, FrameKind::PtyInput);
    assert_eq!(read.stream_id, 42);
    assert_eq!(read.payload, b"abc123");
}

#[test]
fn vectored_writer_round_trips_empty_payload() {
    let wire = encode_frame_bytes(&raw_frame(FrameKind::PtyClose, 7, Vec::new())).unwrap();
    assert_eq!(wire.len(), HEADER_LEN);
    let frame = decode_frame_bytes(&wire).unwrap();
    assert_eq!(frame.kind, FrameKind::PtyClose);
    assert_eq!(frame.stream_id, 7);
    assert!(frame.payload.is_empty());
}

#[test]
fn frame_bytes_are_laid_out_exactly() {
    let wire = encode_frame_bytes(&raw_frame(FrameKind::Ping, 0x01020304, vec![9, 8])).unwrap();
    let mut expected = b"SIDE".to_vec();
    expected.extend_from_slice(&VERSION.to_be_bytes());
    expected.extend_from_slice(&FrameKind::Ping.code().to_be_bytes());
    expected.extend_from_slice(&[1, 2, 3, 4, 0, 0, 0, 2, 9, 8]);
    assert_eq!(wire, expected);
    assert_eq!(
        decode_frame_header(&wire[..HEADER_LEN]).unwrap(),
        (FrameKind::Ping, 0x01020304, 2)
    );
}

#[test]
fn frame_faults() {
    let good = encode_frame_bytes(&raw_frame(FrameKind::Ping, 1, vec![5])).unwrap();
    assert!(decode_frame_bytes(&good[..HEADER_LEN - 1]).is_err());
    let mut bad = good.clone();
    bad[0] ^= 1;
    assert!(decode_frame_bytes(&bad).is_err());
    let mut bad = good.clone();
    bad[4] = 2;
    assert!(decode_frame_bytes(&bad).is_err());
    let mut bad = good.clone();
    bad[6] = 0xff;
    bad[7] = 0xff;
    assert!(decode_frame_bytes(&bad).is_err());
    let mut bad = good.clone();
    bad.push(0);
    assert_eq!(decode_frame_bytes(&bad).unwrap_err(), FrameError::Length);
    assert!(frame_header(FrameKind::Ping, 1, MAX_PAYLOAD + 1).is_err());
    assert!(frame_header(FrameKind::Ping, 1, MAX_PAYLOAD).is_ok());
    let mut huge = frame_header(FrameKind::Ping, 1, 0).unwrap();
    huge[12] = 0xff;
    let error = decode_frame_header(&huge).unwrap_err();
    assert!(!error.message().is_empty());
}

#[test]
fn every_frame_kind_keeps_its_number() {
    let mut seen = 0;
    for code in 0..=u16::MAX {
        if let Ok(kind) = FrameKind::from_code(code) {
            assert_eq!(kind.code(), code);
            assert!(!kind.label().is_empty());
            seen += 1;
        }
    }
    assert!(seen > 25);
    assert!(FrameKind::from_code(u16::MAX).is_err());
}

#[test]
fn packets() {
    assert_eq!(packet_header(0x0102).unwrap(), vec![0, 0, 1, 2]);
    assert_eq!(packet_len(&[0, 0, 1, 2]).unwrap(), 0x0102);
    assert_eq!(packet_len(&packet_header(MAX_PACKET).unwrap()).unwrap(), MAX_PACKET);
    let error = packet_header(MAX_PACKET + 1).unwrap_err();
    assert_eq!(error.0, MAX_PACKET + 1);
    assert!(error.message().contains("131073"));
    assert!(packet_len(&[0xff, 0, 0, 0]).is_err());
}

#[test]
fn big_endian_numbers() {
    let mut out = Vec::new();
    push_be16(&mut out, 0x0a0b);
    push_be32(&mut out, 0x01020304);
    assert_eq!(out, vec![0x0a, 0x0b, 1, 2, 3, 4]);
    assert_eq!(read_be16(&out, 0), 0x0a0b);
    assert_eq!(read_be32(&out, 2), 0x01020304);
    assert!(same(&out, &out.clone()));
    assert!(!same(&out, &out[1..]));
}

#[test]
fn security_key_hex_round_trips() {
    let key = [0xabu8; 32];
    let encoded = key_to_hex(&key);
    assert_eq!(encoded.len(), 64);
    assert_eq!(key_from_hex(&encoded).unwrap(), key);
}

#[test]
fn hex_faults() {
    assert!(key_from_hex("abc").is_err());
    assert!(key_from_hex(&"g".repeat(64)).is_err());
    assert_eq!(key_from_hex(&format!(" {}\n", "AB".repeat(32))).unwrap(), [0xab; 32]);
    assert_eq!(DeviceId::parse("123").unwrap_err(), HexError::DeviceId);
    assert!(!HexError::DeviceId.message().is_empty());
    let id = DeviceId::parse("00112233445566778899aabbccddeeff").unwrap();
    assert_eq!(id.short(), "00112233");
    assert_eq!(id.to_hex(), "00112233445566778899aabbccddeeff");
    assert!(id == DeviceId::parse("00112233445566778899AABBCCDDEEFF").unwrap());
    assert!(id != DeviceId([0; 16]));
}

#[test]
fn capability_names() {
    assert_eq!(names(CORE | CLIPBOARD), vec!["core", "clipboard"]);
    assert_eq!(display(0), "none");
    assert_eq!(display(HEARTBEAT | FLOW_CONTROL), "heartbeat,flow-control");
    assert_eq!(names(ALL).len(), 7);
    assert_eq!(display(ALL | 1 << 40), display(ALL));
}

#[test]
fn security_modes_have_names() {
    assert_eq!(SecurityMode::Secure.as_str(), "secure");
    assert_eq!(SecurityMode::Insecure.as_str(), "insecure");
}
