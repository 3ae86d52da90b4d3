use sidewire::device_id::DeviceId;
use sidewire::frame::{FrameKind, HEADER_LEN, VERSION};
use sidewire::handshake::{
    check_decision, check_device, check_device_frame, check_peer, decision, let_in, GreetingFault,
    SecurityFault,
};
use sidewire::messages::{PeerRole, SecurityMode};
use sidewire::noise::{
    noise_initiator, noise_initiator_finish, noise_responder, open_record, seal_record,
};
use sidewire::record::{
    read_tunnel_record, tunnel_record, FrameAssembler, FrameRecords, RecordError, TunnelError,
    TunnelRecord, NOISE_CHUNK,
};
use sidewire::security::{pairing_psk, proxy_prologue, security_prologue};

#[test]
fn pairing_key_binds_both_identities() {
    let host = DeviceId([1; 16]);
    let device = DeviceId([2; 16]);
    assert_eq!(
        pairing_psk(b"shared", host, device),
        pairing_psk(b"shared", host, device)
    );
    assert_ne!(
        pairing_psk(b"shared", host, device),
        pairing_psk(b"shared", device, host)
    );
}

#[test]
fn pairing_key_is_the_hash_of_its_parts() {
    let mut input = b"SideWire pairing v1".to_vec();
    input.extend_from_slice(&[1; 16]);
    input.extend_from_slice(&[2; 16]);
    input.extend_from_slice(b"shared");
    assert_eq!(
        pairing_psk(b"shared", DeviceId([1; 16]), DeviceId([2; 16])),
        *blake3::hash(&input).as_bytes()
    );
}

#[test]
fn prologues() {
    assert_eq!(
        security_prologue(257, DeviceId([0; 16]), DeviceId([0xff; 16])),
        format!("SideWire/v257/{}->{}", "00".repeat(16), "ff".repeat(16)).into_bytes()
    );
    let digest = blake3::hash(b"SideWire proxy v1forwardtoken");
    assert_eq!(
        proxy_prologue(b"token", "forward"),
        format!("SideWire/proxy/v{}/forward/{}", VERSION, digest.to_hex()).into_bytes()
    );
}

#[test]
fn noise_frame_transport_round_trips_record_boundaries() {
    for size in [
        0usize,
        1,
        NOISE_CHUNK - HEADER_LEN - 1,
        NOISE_CHUNK - HEADER_LEN,
        NOISE_CHUNK - HEADER_LEN + 1,
        NOISE_CHUNK * 2,
    ] {
        let psk = [13u8; 32];
        let (state, first) = noise_initiator(&psk, b"boundary-test").unwrap();
        let (mut responder, second) = noise_responder(&psk, b"boundary-test", &first).unwrap();
        let mut initiator = noise_initiator_finish(state, &second).unwrap();
        let payload = vec![0x3cu8; size];
        let mut records = FrameRecords::new(FrameKind::FileChunk, 88, &payload).unwrap();
        let mut assembler = FrameAssembler::new();
        let mut received = None;
        while let Some(record) = records.next_record() {
            assert!(received.is_none());
            let sealed = seal_record(&mut initiator, &record).unwrap();
            assert_eq!(sealed.len(), record.len() + 16);
            let opened = open_record(&mut responder, &sealed).unwrap();
            assert_eq!(opened, record);
            received = assembler.feed(&opened).unwrap();
        }
        let frame = received.unwrap();
        assert_eq!(frame.stream_id, 88);
        assert_eq!(frame.payload, payload);
    }
}

#[test]
fn noise_frame_transport_round_trips_large_frame() {
    let psk = [7u8; 32];
    let prologue = b"sidewire-test";
    let (state, first) = noise_initiator(&psk, prologue).unwrap();
    let (mut responder, second) = noise_responder(&psk, prologue, &first).unwrap();
    let mut initiator = noise_initiator_finish(state, &second).unwrap();
    let payload = vec![0x5au8; 170 * 1024];
    let mut records = FrameRecords::new(FrameKind::FileChunk, 77, &payload).unwrap();
    let mut assembler = FrameAssembler::new();
    let mut received = None;
    while let Some(record) = records.next_record() {
        let sealed = seal_record(&mut initiator, &record).unwrap();
        assert_ne!(&sealed[..record.len()], &record[..]);
        received = assembler
            .feed(&open_record(&mut responder, &sealed).unwrap())
            .unwrap();
    }
    let incoming = received.unwrap();
    assert_eq!(incoming.kind, FrameKind::FileChunk);
    assert_eq!(incoming.stream_id, 77);
    assert_eq!(incoming.payload, payload);
}

#[test]
fn frames_cross_one_after_the_other() {
    let (state, first) = noise_initiator(&[5; 32], b"frames").unwrap();
    let (mut responder, second) = noise_responder(&[5; 32], b"frames", &first).unwrap();
    let mut initiator = noise_initiator_finish(state, &second).unwrap();
    let mut assembler = FrameAssembler::new();
    for (stream_id, size) in [(1u32, NOISE_CHUNK * 2), (2, 0), (3, NOISE_CHUNK), (4, 9)] {
        let payload = vec![stream_id as u8; size];
        let mut records = FrameRecords::new(FrameKind::FileChunk, stream_id, &payload).unwrap();
        let mut received = None;
        while let Some(record) = records.next_record() {
            assert!(received.is_none());
            let sealed = seal_record(&mut initiator, &record).unwrap();
            received = assembler
                .feed(&open_record(&mut responder, &sealed).unwrap())
                .unwrap();
        }
        let frame = received.unwrap();
        assert_eq!((frame.kind, frame.stream_id), (FrameKind::FileChunk, stream_id));
        assert_eq!(frame.payload, payload);
    }
}

#[test]
fn noise_refuses_another_secret_or_prologue() {
    let (_, first) = noise_initiator(&[1; 32], b"p").unwrap();
    assert!(noise_responder(&[2; 32], b"p", &first).is_err());
    let (state, first) = noise_initiator(&[1; 32], b"p").unwrap();
    assert!(noise_responder(&[1; 32], b"q", &first).is_err());
    let (_, second) = noise_responder(&[1; 32], b"p", &first).unwrap();
    let mut broken = second.clone();
    broken[0] ^= 1;
    let error = match noise_initiator_finish(state, &broken) {
        Ok(_) => panic!("a broken message was taken"),
        Err(error) => error,
    };
    assert!(!error.message().is_empty());
}

#[test]
fn noise_records_come_once_and_in_order() {
    let (state, first) = noise_initiator(&[3; 32], b"").unwrap();
    let (mut responder, second) = noise_responder(&[3; 32], b"", &first).unwrap();
    let mut initiator = noise_initiator_finish(state, &second).unwrap();
    let one = seal_record(&mut initiator, b"one").unwrap();
    let two = seal_record(&mut initiator, b"two").unwrap();
    assert!(open_record(&mut responder, &two).is_err());
    assert_eq!(open_record(&mut responder, &one).unwrap(), b"one");
    assert!(open_record(&mut responder, &one).is_err());
    assert_eq!(open_record(&mut responder, &two).unwrap(), b"two");
    let back = seal_record(&mut responder, b"back").unwrap();
    assert_eq!(open_record(&mut initiator, &back).unwrap(), b"back");
    assert!(seal_record(&mut initiator, &vec![0; NOISE_CHUNK + 2]).is_err());
}

#[test]
fn record_faults() {
    let mut a = FrameAssembler::new();
    assert_eq!(a.feed(&[]).unwrap_err(), RecordError::Empty);
    let mut a = FrameAssembler::new();
    assert_eq!(a.feed(&[7, 1]).unwrap_err(), RecordError::Flag(7));
    let mut a = FrameAssembler::new();
    assert_eq!(a.feed(&[1, 1]).unwrap_err(), RecordError::TruncatedHeader);
    let mut records = FrameRecords::new(FrameKind::Ping, 1, b"xy").unwrap();
    let record = records.next_record().unwrap();
    assert!(records.next_record().is_none());
    let mut a = FrameAssembler::new();
    let mut unfinished = record.clone();
    unfinished[0] = 0;
    assert_eq!(a.feed(&unfinished).unwrap_err(), RecordError::MissingFinal);
    let mut a = FrameAssembler::new();
    let mut longer = record.clone();
    longer.push(1);
    assert_eq!(a.feed(&longer).unwrap_err(), RecordError::Exceeded);
    let mut a = FrameAssembler::new();
    assert!(a.feed(&record[..record.len() - 1]).is_err());
    assert!(!RecordError::Exceeded.message().is_empty());
    let mut a = FrameAssembler::new();
    assert_eq!(a.feed(&record).unwrap().unwrap().payload, b"xy");
    assert_eq!(a.feed(&record).unwrap().unwrap().payload, b"xy");
}

#[test]
fn noise_tunnel_preserves_tcp_half_close() {
    let psk = [9u8; 32];
    let prologue = b"sidewire-tunnel-test";
    let (state, first) = noise_initiator(&psk, prologue).unwrap();
    let (mut right, second) = noise_responder(&psk, prologue, &first).unwrap();
    let mut left = noise_initiator_finish(state, &second).unwrap();
    let mut request = Vec::new();
    let mut ended = false;
    for read in [&b"request"[..], &b""[..]] {
        let sealed = seal_record(&mut left, &tunnel_record(read)).unwrap();
        match read_tunnel_record(&open_record(&mut right, &sealed).unwrap()).unwrap() {
            TunnelRecord::Data(data) => request.extend_from_slice(&data),
            TunnelRecord::End => ended = true,
        }
    }
    assert!(ended);
    assert_eq!(request, b"request");
    let sealed = seal_record(&mut right, &tunnel_record(b"response")).unwrap();
    match read_tunnel_record(&open_record(&mut left, &sealed).unwrap()).unwrap() {
        TunnelRecord::Data(data) => assert_eq!(data, b"response"),
        TunnelRecord::End => panic!("the other direction ended too"),
    }
}

#[test]
fn tunnel_faults() {
    assert_eq!(read_tunnel_record(&[]).err(), Some(TunnelError::Empty));
    assert_eq!(read_tunnel_record(&[2]).err(), Some(TunnelError::Invalid));
    assert_eq!(read_tunnel_record(&[1, 0]).err(), Some(TunnelError::Invalid));
    assert_eq!(TunnelError::Empty.message(), "empty encrypted proxy record");
    assert_eq!(TunnelError::Invalid.message(), "invalid encrypted proxy record");
}

#[test]
fn peers_are_let_in_by_mode_and_secret() {
    let host = DeviceId([1; 16]);
    let device = DeviceId([2; 16]);
    let secure = SecurityMode::Secure;
    let insecure = SecurityMode::Insecure;
    assert!(check_peer(VERSION, secure, secure).is_ok());
    let fault = check_peer(VERSION, insecure, secure).unwrap_err();
    assert_eq!(
        fault.message(PeerRole::Host, true),
        "security mode mismatch: peer insecure, host secure"
    );
    assert_eq!(
        SecurityFault::Mode(insecure, secure).message(PeerRole::Device, false),
        "security mode mismatch: host insecure, device secure; both sides must explicitly use the same mode"
    );
    let fault = check_peer(0x0200, secure, secure).unwrap_err();
    assert_eq!(
        fault.message(PeerRole::Host, false),
        "protocol mismatch: device 2.0, host 1.1"
    );
    let fault = let_in(secure, secure, VERSION, device, None, device, host);
    let fault = match fault {
        Ok(_) => panic!("an unpaired device was let in"),
        Err(fault) => fault,
    };
    assert_eq!(
        fault.message(PeerRole::Host, true),
        "device 02020202 is not paired; run sidewire pair first"
    );
    assert_eq!(
        SecurityFault::NotPaired(host).message(PeerRole::Device, true),
        "host 01010101 is not paired"
    );
    let admission = match let_in(secure, secure, 0x0100, device, Some([5; 32]), device, host) {
        Ok(admission) => admission,
        Err(_) => panic!("a paired device was refused"),
    };
    assert_eq!(admission.secret, Some([5; 32]));
    assert_eq!(admission.prologue, security_prologue(0x0100, device, host));
    let open = match let_in(insecure, insecure, VERSION, device, Some([5; 32]), device, host) {
        Ok(admission) => admission,
        Err(_) => panic!("an insecure device was refused"),
    };
    assert_eq!(open.secret, None);
}

#[test]
fn decisions() {
    let yes = decision(None);
    assert!(yes.accepted);
    assert_eq!(yes.message, "ok");
    assert!(check_decision(yes).is_ok());
    let no = decision(Some("no".to_string()));
    assert!(!no.accepted);
    assert_eq!(check_decision(no).unwrap_err(), "no");
}

#[test]
fn greetings_of_devices() {
    let id = DeviceId([4; 16]);
    assert!(check_device_frame(FrameKind::Hello, true).is_ok());
    assert_eq!(
        check_device_frame(FrameKind::Ping, true).unwrap_err().message(),
        "expected device Hello"
    );
    assert_eq!(
        check_device_frame(FrameKind::Hello, false).unwrap_err().message(),
        "expected device HelloAck"
    );
    assert_eq!(
        check_device(true, 0x0100, 1 | 1 << 50, Some(id), id, "").unwrap(),
        (1, 0x0100)
    );
    assert_eq!(
        check_device(true, 0x0200, 1, Some(id), id, "n").unwrap_err(),
        GreetingFault::Incompatible
    );
    assert_eq!(
        check_device(true, VERSION, 2, Some(id), id, "n").unwrap_err(),
        GreetingFault::NoCore
    );
    assert_eq!(
        check_device(false, VERSION, 1, None, id, "n").unwrap_err().message(),
        "device HelloAck did not include device_id"
    );
    assert_eq!(
        check_device(true, VERSION, 1, Some(DeviceId([5; 16])), id, "n").unwrap_err(),
        GreetingFault::IdChanged
    );
    assert_eq!(
        check_device(false, VERSION, 1, Some(id), id, " \t").unwrap_err(),
        GreetingFault::EmptyName
    );
}
