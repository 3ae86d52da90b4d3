use sidewire::client::{
    all_outcome, awaited, check_exit, check_some_devices, clipboard_of, clipboard_plan,
    device_failure, device_header, device_row, devices_of, doctor_device, doctor_host,
    doctor_identity, doctor_property, done_of, exec_frame, exec_of, found_row, latency_of,
    parse_tcp_spec, short, temporary_file, wait_on, AppCommand, ClipboardCommand, DeviceCommand,
    ExecFrame, ExecResult,
};
use sidewire::config::{
    check_all, resolve_device, resolve_run_as, server_endpoints, AppConfig, ConfigError,
};
use sidewire::connector::{
    call_step, check_identity, Backoff, Beat, BeatAction, CallStep, Considered, Discovered,
    Heartbeat,
};
use sidewire::control::{
    control_response, control_route, exec_stream_done, exec_stream_ready, process_control,
    pty_opened, pty_ready, pty_refused, ControlPlan, ControlRequest, ControlResponse, ControlRoute,
    Opened, Outcome, PtyRelay, RelayAction, RelayError, RelayEvent,
};
use sidewire::device::ProxyPlan;
use sidewire::device_id::DeviceId;
use sidewire::discovery::{
    check_discovered, device_row as discovered_row, discovered, discovery_reply,
    is_discovery_request, note_device, DiscoveredDevice,
};
use sidewire::frame::{FrameKind, VERSION};
use sidewire::messages::{
    ClipboardData, DiscoveryReply, ExecIdentity, ProxyTokenMode, SecurityMode, DISCOVERY_REQUEST,
};
use sidewire::registry::{
    has_heartbeat, is_default, select_device, selector_matches, ConnectionMode, DeviceInfo,
    DeviceSession, Registration, Registry,
};
use sidewire::remote::{
    bound_port, check_relay_token, clipboard_contents, clipboard_reply, forward_message,
    forward_request, ping_reply, proxy_reply, pull_reply, relay_plan, require_capability,
    reverse_message, reverse_request, ExecOutput, ExecReply, PullAction, PullRun, PushAction,
    PushEvent, PushPhase,
};
use sidewire::serve::Delivery;
use sidewire::streams::{
    frame_completes_stream, write_outcome, DeviceStream, Received, Routed, Router, StreamError,
    ROUTE_CAPACITY,
};

fn device(id: &str, name: &str) -> DeviceInfo {
    DeviceInfo {
        id: id.into(),
        name: name.into(),
        peer: "127.0.0.1:1".into(),
        mode: "outbound".into(),
        security: "secure".into(),
        protocol: "1.1".into(),
        capabilities: 9,
    }
}

#[test]
fn id_prefix_selects_between_duplicate_names() {
    let devices = vec![
        device("11111111111111111111111111111111", "twin"),
        device("22222222222222222222222222222222", "twin"),
    ];
    assert!(select_device(&devices, Some("twin")).is_err());
    assert_eq!(
        select_device(&devices, Some("11111111")).unwrap().id,
        devices[0].id
    );
    assert!(selector_matches(&devices[1], "2222"));
}

#[test]
fn devices_are_selected_with_reasons() {
    let devices = vec![device(&"11".repeat(16), "one"), device(&"22".repeat(16), "two")];
    assert_eq!(
        select_device(&devices, None).unwrap_err(),
        "multiple devices connected; select one with -s <name-or-id> or configure default-device"
    );
    assert_eq!(
        select_device(&[], None).unwrap_err(),
        "no SideWire devices connected"
    );
    assert_eq!(
        select_device(&devices, Some("x")).unwrap_err(),
        "device selector 'x' did not match any connected device"
    );
    assert_eq!(select_device(&devices[..1], None).unwrap().name, "one");
    assert!(selector_matches(&devices[0], "11-11"));
    assert!(!selector_matches(&devices[0], "111"));
    assert!(selector_matches(&devices[0], "ONE"));
    assert!(is_default(&devices, 1, Some("two")));
    assert!(!is_default(&devices, 0, Some("two")));
    assert!(!is_default(&devices, 0, None));
    assert_eq!(awaited(&devices, None).unwrap().name, "one");
    assert_eq!(awaited(&[], None).unwrap_err(), "no device connected");
    assert_eq!(awaited(&devices, Some("TWO")).unwrap().name, "two");
    assert!(wait_on(29_999, 30, "e").is_ok());
    assert_eq!(
        wait_on(30_000, 30, "e").unwrap_err(),
        "timed out waiting for SideWire device: e"
    );
    assert!(wait_on(u64::MAX, 0, "e").is_ok());
}

fn session(id: u8, name: &str, mode: ConnectionMode, connection: u64) -> DeviceSession {
    DeviceSession {
        id: DeviceId([id; 16]),
        name: name.to_string(),
        peer: format!("10.0.0.{id}:5"),
        mode,
        security: SecurityMode::Secure,
        capabilities: 17,
        protocol: VERSION,
        connection,
    }
}

#[test]
fn sessions_are_registered_by_identity() {
    let mut r = Registry::new();
    let inbound = ConnectionMode::Inbound;
    let outbound = ConnectionMode::Outbound;
    assert_eq!(
        r.register(session(0x22, "twin", inbound, 1), false),
        Registration::Accepted { close: None }
    );
    assert_eq!(
        r.register(session(0x11, "twin", outbound, 2), false),
        Registration::Accepted { close: None }
    );
    assert_eq!(
        r.register(session(0x22, "twin", outbound, 3), true),
        Registration::Duplicate
    );
    assert_eq!(r.get(DeviceId([0x22; 16])).unwrap().connection, 1);
    assert_eq!(
        r.register(session(0x11, "twin", outbound, 4), true),
        Registration::Accepted { close: Some(2) }
    );
    assert!(!r.remove_if_same(DeviceId([0x11; 16]), 2));
    assert_eq!(r.get(DeviceId([0x11; 16])).unwrap().connection, 4);
    let list = r.list();
    assert_eq!(list[0].id, "11".repeat(16));
    assert_eq!(list[1].id, "22".repeat(16));
    assert_eq!(list[0].mode, "outbound");
    assert_eq!(list[0].protocol, "1.1");
    assert_eq!(
        r.resolve(Some("twin")).unwrap_err(),
        "device selector 'twin' is ambiguous: 22222222:twin, 11111111:twin; use an ID prefix"
    );
    assert_eq!(r.resolve(Some("2222")).unwrap(), 0);
    assert!(r.resolve(None).is_err());
    assert!(r.resolve(Some("nobody")).is_err());
    assert!(has_heartbeat(r.get(DeviceId([0x11; 16])).unwrap()));
    assert!(r.remove_if_same(DeviceId([0x11; 16]), 4));
    assert_eq!(r.resolve(None).unwrap(), 0);
    assert_eq!(
        r.register(session(0x22, "twin", outbound, 9), false),
        Registration::Accepted { close: None }
    );
}

#[test]
fn control_requests_are_answered() {
    let mut r = Registry::new();
    r.register(session(1, "one", ConnectionMode::Inbound, 1), false);
    match process_control(&ControlRequest::Devices, &r) {
        ControlPlan::Respond(response) => assert_eq!(devices_of(response).unwrap().len(), 1),
        ControlPlan::Ask(_) => panic!("a list was asked of a device"),
    }
    assert!(matches!(
        process_control(&ControlRequest::Ping { device: None }, &r),
        ControlPlan::Ask(0)
    ));
    match process_control(&ControlRequest::ClipboardGet { device: Some("x".to_string()) }, &r) {
        ControlPlan::Respond(ControlResponse::Error { message }) => assert_eq!(
            message,
            "device selector 'x' did not match any connected device"
        ),
        _ => panic!("no error"),
    }
    let stream = ControlRequest::ExecStream {
        device: None,
        program: "id".to_string(),
        args: Vec::new(),
        cwd: None,
        run_as: ExecIdentity::Root,
    };
    assert_eq!(control_route(&stream), ControlRoute::ExecStream);
    assert_eq!(control_route(&ControlRequest::Devices), ControlRoute::Answer);
    match process_control(&stream, &r) {
        ControlPlan::Respond(ControlResponse::Error { message }) => {
            assert_eq!(message, "exec stream request must use streaming control")
        }
        _ => panic!("no error"),
    }
    for (outcome, text) in [
        (Outcome::Pushed(5), "pushed 5 bytes"),
        (Outcome::Pulled(6), "pulled 6 bytes"),
        (Outcome::ClipboardUpdated, "Android clipboard updated"),
        (Outcome::ClipboardCleared, "Android clipboard cleared"),
        (Outcome::Proxied("p".to_string()), "p"),
    ] {
        assert_eq!(done_of(control_response(Ok(outcome)), "u").unwrap(), text);
    }
    assert_eq!(latency_of(control_response(Ok(Outcome::Latency(7)))).unwrap(), 7);
    assert_eq!(
        clipboard_of(control_response(Ok(Outcome::Clipboard("c".to_string())))).unwrap(),
        "c"
    );
    let exec = exec_of(control_response(Ok(Outcome::Exec {
        stdout: "o".to_string(),
        stderr: "e".to_string(),
        code: Some(3),
    })))
    .unwrap();
    assert_eq!((exec.stdout.as_str(), exec.stderr.as_str(), exec.code), ("o", "e", Some(3)));
    assert_eq!(
        exec_of(control_response(Err("bad".to_string()))).unwrap_err(),
        "bad"
    );
    assert_eq!(
        devices_of(ControlResponse::Pong { latency_ms: 1 }).unwrap_err(),
        "unexpected server response"
    );
    assert_eq!(
        latency_of(ControlResponse::Done { message: "x".to_string() }).unwrap_err(),
        "unexpected ping response"
    );
    assert_eq!(done_of(exec_stream_ready(), "u").unwrap(), "exec stream ready");
    assert_eq!(done_of(pty_ready(12), "u").unwrap(), "pty pid=12");
    assert_eq!(done_of(pty_refused(b"n\xff"), "u").unwrap_err(), "n\u{fffd}");
    assert!(exec_stream_done(FrameKind::ExecExit));
    assert!(!exec_stream_done(FrameKind::ExecStdout));
    assert_eq!(pty_opened(FrameKind::PtyOpenAck), Ok(Opened::Yes));
    assert_eq!(pty_opened(FrameKind::Error), Ok(Opened::No));
    assert_eq!(
        pty_opened(FrameKind::Ping).unwrap_err().message(),
        "unexpected PTY open response Ping"
    );
}

#[test]
fn terminals_are_relayed() {
    let mut relay = PtyRelay::new(9);
    assert_eq!(
        relay.step(RelayEvent::Client(FrameKind::PtyInput)),
        RelayAction::Forward
    );
    assert_eq!(
        relay.step(RelayEvent::Device { kind: FrameKind::PtyOutput, stream_id: 9 }),
        RelayAction::Deliver { write: true, done: false }
    );
    assert_eq!(relay.step(RelayEvent::ClientWriteFailed), RelayAction::Nothing);
    assert_eq!(
        relay.step(RelayEvent::Device { kind: FrameKind::PtyOutput, stream_id: 9 }),
        RelayAction::Deliver { write: false, done: false }
    );
    assert_eq!(relay.step(RelayEvent::ClientGone), RelayAction::Close);
    let mut late = relay;
    assert_eq!(
        late.step(RelayEvent::DrainTimeout),
        RelayAction::Fail(RelayError::NotTerminated)
    );
    assert_eq!(
        RelayError::NotTerminated.message(),
        "PTY did not terminate after client disconnect"
    );
    assert_eq!(
        relay.step(RelayEvent::Device { kind: FrameKind::PtyExit, stream_id: 9 }),
        RelayAction::Deliver { write: false, done: true }
    );
    let mut relay = PtyRelay::new(9);
    assert_eq!(
        relay.step(RelayEvent::Client(FrameKind::PtyClose)),
        RelayAction::ForwardLast
    );
    match PtyRelay::new(9).step(RelayEvent::Client(FrameKind::Ping)) {
        RelayAction::Fail(error) => {
            assert_eq!(error.message(), "unexpected local PTY frame Ping")
        }
        other => panic!("{other:?}"),
    }
    match PtyRelay::new(9).step(RelayEvent::Device { kind: FrameKind::PtyOutput, stream_id: 8 }) {
        RelayAction::Fail(error) => {
            assert_eq!(error.message(), "unexpected remote stream 8 during PTY")
        }
        other => panic!("{other:?}"),
    }
}

#[test]
fn replies_are_understood() {
    assert_eq!(ping_reply(FrameKind::Pong, b"n", b"n", 12).unwrap(), 12);
    assert_eq!(
        ping_reply(FrameKind::Pong, b"n", b"n", u128::MAX).unwrap(),
        u64::MAX
    );
    assert_eq!(
        ping_reply(FrameKind::Pong, b"m", b"n", 1).unwrap_err(),
        "ping nonce mismatch"
    );
    assert_eq!(
        ping_reply(FrameKind::Error, b"\xffx", b"n", 1).unwrap_err(),
        "remote ping error: \u{fffd}x"
    );
    assert_eq!(
        ping_reply(FrameKind::Ping, b"", b"n", 1).unwrap_err(),
        "unexpected ping response Ping"
    );
    assert!(clipboard_reply(FrameKind::ClipboardData, b"").is_ok());
    assert_eq!(
        clipboard_reply(FrameKind::Error, b"x").unwrap_err(),
        "remote clipboard error: x"
    );
    assert_eq!(clipboard_contents(ClipboardData { text: None }), "");
    assert_eq!(
        clipboard_contents(ClipboardData { text: Some("t".to_string()) }),
        "t"
    );
    assert_eq!(
        proxy_reply(FrameKind::Pong, b"").unwrap_err(),
        "unexpected proxy response Pong"
    );
    assert!(require_capability(9, 8, "clipboard").is_ok());
    assert_eq!(
        require_capability(1, 8, "clipboard").unwrap_err(),
        "device does not support clipboard"
    );
}

#[test]
fn command_output_is_gathered() {
    let mut output = ExecOutput::new();
    for (kind, payload) in [
        (FrameKind::ExecStdout, &b"a"[..]),
        (FrameKind::ExecStderr, &b"x"[..]),
        (FrameKind::ExecStdout, &b"b\xff"[..]),
        (FrameKind::Pong, &b"ignored"[..]),
    ] {
        assert!(matches!(output.step(kind, payload), ExecReply::More));
    }
    assert!(matches!(output.step(FrameKind::ExecExit, b""), ExecReply::Exit));
    assert_eq!(output.finish(), ("ab\u{fffd}".to_string(), "x".to_string()));
    match output.step(FrameKind::Error, b"e") {
        ExecReply::Failed(message) => assert_eq!(message, "remote error: e"),
        _ => panic!("an error was taken for output"),
    }
}

#[test]
fn files_go_to_a_device() {
    let mut phase = PushPhase::Opening;
    let reply = |kind| PushEvent::Reply { kind, payload: b"why" };
    assert!(matches!(phase.step(reply(FrameKind::FileMeta)), PushAction::ReadNext));
    assert!(matches!(phase.step(PushEvent::Read(5)), PushAction::SendChunk));
    let mut early = phase;
    match early.step(reply(FrameKind::FileEnd)) {
        PushAction::Fail(message) => {
            assert_eq!(message, "remote ended push before upload completed")
        }
        _ => panic!("an early end was taken"),
    }
    match early.step(reply(FrameKind::Pong)) {
        PushAction::Fail(message) => {
            assert_eq!(message, "unexpected push response during upload Pong")
        }
        _ => panic!("a pong was taken"),
    }
    assert!(matches!(phase.step(PushEvent::Read(0)), PushAction::SendEnd));
    match phase.step(reply(FrameKind::Error)) {
        PushAction::Fail(message) => assert_eq!(message, "remote push error: why"),
        _ => panic!("an error was taken"),
    }
    assert!(matches!(phase.step(reply(FrameKind::FileEnd)), PushAction::Done));
    let mut phase = PushPhase::Opening;
    match phase.step(reply(FrameKind::Pong)) {
        PushAction::Fail(message) => assert_eq!(message, "unexpected push response Pong"),
        _ => panic!("a pong was taken"),
    }
}

#[test]
fn files_come_from_a_device() {
    assert!(pull_reply(FrameKind::FileMeta, b"").is_ok());
    assert_eq!(
        pull_reply(FrameKind::Error, b"no").unwrap_err(),
        "remote pull error: no"
    );
    let mut run = PullRun::new(5);
    assert!(matches!(run.step(FrameKind::FileChunk, b"abc"), PullAction::Write));
    let mut short_run = run;
    match short_run.step(FrameKind::FileEnd, b"") {
        PullAction::Fail(message) => {
            assert_eq!(message, "pull size mismatch: expected 5, got 3")
        }
        _ => panic!("a short file was taken"),
    }
    assert!(matches!(run.step(FrameKind::FileChunk, b"de"), PullAction::Write));
    match run.step(FrameKind::Ping, b"") {
        PullAction::Fail(message) => assert_eq!(message, "unexpected pull frame Ping"),
        _ => panic!("a ping was taken"),
    }
    assert!(matches!(run.step(FrameKind::FileEnd, b""), PullAction::Done(5)));
}

#[test]
fn ports_are_forwarded_and_reversed() {
    let forward = forward_request(80, 8080, vec![1]);
    assert_eq!(forward.id, "forward-80-8080");
    assert_eq!(forward.bind, "0.0.0.0:0");
    assert_eq!(forward.target, "127.0.0.1:8080");
    assert_eq!(forward.token_mode, ProxyTokenMode::Expect);
    let reverse = reverse_request(1, 2, "10.0.0.5", 3, vec![1]);
    assert_eq!(reverse.id, "reverse-1-2");
    assert_eq!(reverse.bind, "127.0.0.1:1");
    assert_eq!(reverse.target, "10.0.0.5:3");
    assert_eq!(reverse.token_mode, ProxyTokenMode::Send);
    assert_eq!(forward_message(80, 8080), "tcp:80 -> device tcp:8080");
    assert_eq!(reverse_message(1, 2), "device tcp:1 -> host tcp:2");
    assert_eq!(bound_port("0.0.0.0:4242"), Some(4242));
    assert_eq!(bound_port("[::]:65536"), None);
    assert_eq!(bound_port("77"), Some(77));
    assert!(check_relay_token(b"a", b"a").is_ok());
    assert_eq!(
        check_relay_token(b"a", b"b").unwrap_err(),
        "reverse relay token mismatch"
    );
    assert!(matches!(
        relay_plan(ProxyTokenMode::Expect, true, b"t"),
        ProxyPlan::Noise { initiator: true, .. }
    ));
    assert!(matches!(
        relay_plan(ProxyTokenMode::Send, false, b"t"),
        ProxyPlan::ExpectToken
    ));
    assert_eq!(parse_tcp_spec("tcp:80").unwrap(), 80);
    assert_eq!(parse_tcp_spec("81").unwrap(), 81);
    assert_eq!(
        parse_tcp_spec("udp:80").unwrap_err(),
        "invalid tcp endpoint 'udp:80'"
    );
}

#[test]
fn dropping_active_stream_notifies_remote() {
    let mut router = Router::new(VERSION, 32);
    let id = router.open_stream().unwrap();
    let frame = router.drop_stream(id, false).expect("stream cancellation was not sent");
    assert_eq!(frame.kind, FrameKind::StreamCancel);
    assert_eq!(frame.stream_id, id);
    assert_eq!(frame.payload, b"local stream dropped before completion");
    let id = router.open_stream().unwrap();
    assert!(router.drop_stream(id, true).is_none());
    let mut old = Router::new(0x0100, 32);
    let id = old.open_stream().unwrap();
    assert!(old.drop_stream(id, false).is_none());
}

#[test]
fn full_stream_does_not_block_other_streams() {
    let mut router = Router::new(VERSION, 32);
    let blocked = router.open_stream().unwrap();
    let healthy = router.open_stream().unwrap();
    let mut waiting = 0;
    let mut lost = None;
    for _ in 0..=ROUTE_CAPACITY {
        assert!(matches!(
            router.route(FrameKind::PtyOutput, blocked, b"blocked"),
            Routed::Deliver
        ));
        let delivery = if waiting < ROUTE_CAPACITY {
            waiting += 1;
            Delivery::Taken
        } else {
            Delivery::Full
        };
        lost = router.delivered(blocked, delivery);
    }
    assert!(matches!(
        router.route(FrameKind::PtyOutput, healthy, b"healthy"),
        Routed::Deliver
    ));
    let (reason, told) = lost.unwrap();
    assert!(reason.contains("receive queue overflow"));
    assert_eq!(told.unwrap().stream_id, blocked);
    let mut stream = DeviceStream::new(blocked);
    let error = stream.received(Some(reason), Received::Frame(FrameKind::PtyOutput)).unwrap_err();
    assert!(error.message().contains("receive queue overflow"));
    assert!(stream.completed);
    assert!(!router.closed);
    assert!(matches!(
        router.route(FrameKind::PtyOutput, blocked, b""),
        Routed::Inactive
    ));
}

#[test]
fn streams_are_numbered_round_the_clock() {
    let mut router = Router::new(VERSION, 32);
    router.next_stream_id = u32::MAX;
    assert_eq!(router.open_stream().unwrap(), u32::MAX);
    assert_eq!(router.open_stream().unwrap(), 1);
    router.next_stream_id = u32::MAX;
    assert_eq!(router.open_stream().unwrap(), 2);
    match router.route(FrameKind::StreamCancel, 1, b"") {
        Routed::Cancel(reason) => assert_eq!(reason, "remote canceled stream 1"),
        other => panic!("{other:?}"),
    }
    match router.route(FrameKind::StreamCancel, 2, b"why\xff") {
        Routed::Cancel(reason) => assert_eq!(reason, "why\u{fffd}"),
        other => panic!("{other:?}"),
    }
    assert!(matches!(router.route(FrameKind::StreamCancel, 2, b""), Routed::Inactive));
    assert!(matches!(router.route(FrameKind::Pong, 2, b""), Routed::LatePong));
    assert!(router.close());
    assert!(!router.close());
    assert_eq!(
        router.open_stream().unwrap_err().message(),
        "device connection is closed"
    );
    assert!(router.check_queue().is_err());
    assert!(router.delivered(3, Delivery::Closed).is_none());
}

#[test]
fn streams_are_used_while_they_are_open() {
    let mut stream = DeviceStream::new(4);
    assert!(stream.check_send(4, None, false).is_ok());
    assert_eq!(
        stream.check_send(5, None, false).unwrap_err().message(),
        "frame stream 5 does not match routed stream 4"
    );
    assert!(matches!(
        stream.check_send(4, None, true).unwrap_err(),
        StreamError::Closed
    ));
    assert_eq!(
        stream.sent(Some("c".to_string()), false, Ok(())).unwrap_err(),
        "c"
    );
    assert_eq!(
        stream.sent(None, true, Ok(())).unwrap_err(),
        "device connection is closed"
    );
    assert_eq!(
        stream.sent(None, false, Err("w".to_string())).unwrap_err(),
        "w"
    );
    assert!(!stream.received(None, Received::Empty).unwrap());
    assert!(stream.received(None, Received::Frame(FrameKind::ExecStdout)).unwrap());
    assert!(!stream.completed);
    assert!(stream.received(None, Received::Frame(FrameKind::ExecExit)).unwrap());
    assert!(stream.completed);
    assert_eq!(
        stream.received(None, Received::Disconnected).unwrap_err().message(),
        "device connection closed while stream was active"
    );
    assert!(frame_completes_stream(FrameKind::Error));
    assert!(!frame_completes_stream(FrameKind::FileMeta));
    assert_eq!(
        write_outcome(None).unwrap_err(),
        "device connection writer stopped"
    );
    assert!(write_outcome(Some(Ok(()))).is_ok());
}

#[test]
fn silent_devices_are_given_up() {
    let mut h = Heartbeat::new();
    assert_eq!(h.step(Beat::Answered), BeatAction::Continue);
    assert_eq!(h.step(Beat::Failed), BeatAction::Missed(1));
    assert_eq!(h.step(Beat::TimedOut), BeatAction::Missed(2));
    assert_eq!(h.step(Beat::Answered), BeatAction::Recovered(2));
    h.step(Beat::TimedOut);
    h.step(Beat::TimedOut);
    assert_eq!(h.step(Beat::TimedOut), BeatAction::Close);
}

#[test]
fn devices_are_called_again() {
    let mut b = Backoff::new(30);
    let pauses: Vec<u64> = (0..7).map(|_| b.ended(false)).collect();
    assert_eq!(pauses, vec![1, 2, 4, 8, 16, 30, 30]);
    assert_eq!(b.ended(true), 1);
    assert_eq!(b.ended(false), 2);
    b.idle();
    assert_eq!(b.ended(false), 1);
    let mut b = Backoff::new(10);
    let pauses: Vec<u64> = (0..6).map(|_| b.ended(false)).collect();
    assert_eq!(pauses, vec![1, 2, 4, 8, 10, 10]);
    let mut b = Backoff::new(u64::MAX);
    let last = (0..70).map(|_| b.ended(false)).last();
    assert_eq!(last, Some(u64::MAX));
    assert_eq!(call_step(true, true), CallStep::Connected);
    assert_eq!(call_step(false, false), CallStep::Unknown);
    assert_eq!(call_step(false, true), CallStep::Call);
    let one = DeviceId([1; 16]);
    assert!(check_identity("e", None, one).is_ok());
    assert!(check_identity("e", Some(one), one).is_ok());
    assert_eq!(
        check_identity("e", Some(one), DeviceId([2; 16])).unwrap_err(),
        "discovery identity changed at e: expected 01010101, got 02020202"
    );
}

fn found(id: u8, endpoint: &str, version: u16) -> DiscoveredDevice {
    DiscoveredDevice {
        device_id: DeviceId([id; 16]),
        name: "n".to_string(),
        endpoint: endpoint.to_string(),
        protocol_version: version,
        security: SecurityMode::Secure,
    }
}

#[test]
fn devices_are_discovered() {
    assert!(is_discovery_request(b"SIDEWIRE_DISCOVER_V1"));
    assert!(is_discovery_request(&DISCOVERY_REQUEST));
    assert!(!is_discovery_request(b"SIDEWIRE_DISCOVER_V2"));
    let reply = discovery_reply(DeviceId([3; 16]), "n".to_string(), 58321, SecurityMode::Secure);
    assert_eq!(reply.protocol_version, VERSION);
    let d = discovered(
        DiscoveryReply {
            device_id: DeviceId([3; 16]),
            name: "n".to_string(),
            port: 58321,
            protocol_version: VERSION,
            security: SecurityMode::Secure,
        },
        "10.0.0.9",
    );
    assert_eq!(d.endpoint, "10.0.0.9:58321");
    assert_eq!(discovered_row(&d), format!("n\t10.0.0.9:58321\t{VERSION}"));
    let mut devices = Vec::new();
    note_device(&mut devices, found(1, "a", VERSION));
    note_device(&mut devices, found(2, "b", VERSION));
    note_device(&mut devices, found(1, "c", VERSION));
    assert_eq!(devices.len(), 2);
    assert_eq!(devices[0].endpoint, "c");
    assert!(check_discovered(&devices).is_ok());
    note_device(&mut devices, found(4, "d", 0x0200));
    assert_eq!(
        check_discovered(&devices).unwrap_err(),
        "protocol mismatch: CLI=257 device=512"
    );
    assert_eq!(
        check_discovered(&[]).unwrap_err(),
        "no inbound SideWire device discovered"
    );
}

#[test]
fn discovered_devices_are_called_where_they_answered_last() {
    let mut d = Discovered::new();
    let secure = SecurityMode::Secure;
    assert_eq!(d.consider(found(1, "a", VERSION), secure), Considered::Start);
    assert_eq!(d.consider(found(1, "b", VERSION), secure), Considered::Known);
    assert_eq!(d.endpoint(DeviceId([1; 16])).unwrap(), "b");
    assert_eq!(
        d.consider(found(2, "a", 0x0200), secure),
        Considered::Incompatible
    );
    assert_eq!(
        d.consider(found(2, "a", VERSION), SecurityMode::Insecure),
        Considered::OtherSecurity
    );
    assert!(d.endpoint(DeviceId([2; 16])).is_none());
}

#[test]
fn settings_are_kept() {
    let mut c = AppConfig::new();
    c.set("connect", " 10.0.0.1:5 ").unwrap();
    c.set("default-device", "a1b2").unwrap();
    c.set("run-as", " ROOT").unwrap();
    assert_eq!(
        c.show(),
        vec!["connect=10.0.0.1:5", "default-device=a1b2", "run-as=root"]
    );
    assert_eq!(
        resolve_run_as(&c, None, ExecIdentity::Shell),
        ExecIdentity::Root
    );
    assert_eq!(
        resolve_run_as(&c, Some(ExecIdentity::Shell), ExecIdentity::Root),
        ExecIdentity::Shell
    );
    assert_eq!(resolve_device(&c, None).as_deref(), Some("a1b2"));
    assert_eq!(
        resolve_device(&c, Some("x".to_string())).as_deref(),
        Some("x")
    );
    assert_eq!(server_endpoints(&c, Vec::new()), vec!["10.0.0.1:5"]);
    assert_eq!(server_endpoints(&c, vec!["e".to_string()]), vec!["e"]);
    let error = c.set("run-as", "nobody").unwrap_err();
    assert_eq!(error.message(), "run-as must be root or shell");
    match c.set("color", "red").unwrap_err() {
        ConfigError::Key(key) => assert_eq!(key, "color"),
        other => panic!("{other:?}"),
    }
    assert_eq!(
        c.unset("color").unwrap_err().message(),
        "unknown config key 'color' (supported: connect, default-device, run-as)"
    );
    c.unset("default-device").unwrap();
    c.unset("run-as").unwrap();
    c.unset("connect").unwrap();
    assert_eq!(c.show(), vec!["connect=", "default-device=", "run-as="]);
    assert!(check_all(true, false).is_ok());
    assert_eq!(
        check_all(true, true).unwrap_err(),
        "--all cannot be combined with -s/--device"
    );
}

#[test]
fn commands_of_the_command_line() {
    let line = |c: DeviceCommand| {
        let l = c.command_line();
        let mut all = vec![l.program];
        all.extend(l.args);
        all.join(" ")
    };
    let s = |t: &str| t.to_string();
    assert_eq!(
        line(DeviceCommand::Install { file: s("/f") }),
        "/system/bin/pm install -r /f"
    );
    assert_eq!(
        line(DeviceCommand::Uninstall { package: s("p") }),
        "/system/bin/pm uninstall p"
    );
    assert_eq!(line(DeviceCommand::Remove { file: s("/f") }), "/system/bin/rm -f /f");
    assert_eq!(line(DeviceCommand::LogcatClear), "/system/bin/logcat -c");
    assert_eq!(
        line(DeviceCommand::Logcat { args: vec![s("-d")] }),
        "/system/bin/logcat -d"
    );
    assert_eq!(line(DeviceCommand::Reboot { target: None }), "/system/bin/reboot");
    assert_eq!(
        line(DeviceCommand::Reboot { target: Some(s("bootloader")) }),
        "/system/bin/reboot bootloader"
    );
    assert_eq!(
        line(DeviceCommand::Screencap { file: s("/f") }),
        "/system/bin/screencap -p /f"
    );
    assert_eq!(
        line(DeviceCommand::Packages { filter: Some(s("com")) }),
        "/system/bin/pm list packages com"
    );
    assert_eq!(
        line(DeviceCommand::App(AppCommand::Start { package: s("p") })),
        "/system/bin/monkey -p p -c android.intent.category.LAUNCHER 1"
    );
    assert_eq!(
        line(DeviceCommand::App(AppCommand::Stop { package: s("p") })),
        "/system/bin/am force-stop p"
    );
    assert_eq!(
        line(DeviceCommand::App(AppCommand::Clear { package: s("p") })),
        "/system/bin/pm clear p"
    );
    assert_eq!(
        line(DeviceCommand::Find { root: s("/r"), kind: s("f") }),
        "/system/bin/find /r -type f -print0"
    );
    assert_eq!(
        line(DeviceCommand::IsDirectory { path: s("/r") }),
        "/system/bin/sh -c [ -d \"$1\" ] sidewire-dir-test /r"
    );
    assert_eq!(
        line(DeviceCommand::MakeDirectory { path: s("/r") }),
        "/system/bin/mkdir -p /r"
    );
    assert_eq!(
        line(DeviceCommand::Property { name: s("ro.x") }),
        "/system/bin/getprop ro.x"
    );
    assert_eq!(line(DeviceCommand::Identity), "/system/bin/id");
    assert_eq!(
        temporary_file("install", &[0, 1, 2, 3, 4, 5, 6, 0xff], ".apk"),
        "/data/local/tmp/sidewire-install-00010203040506ff.apk"
    );
    let plan = clipboard_plan(ClipboardCommand::Pull);
    assert!(plan.gets && plan.writes_local && !plan.reads_local);
    assert!(clipboard_plan(ClipboardCommand::Push).reads_local);
}

#[test]
fn exit_codes_are_reported() {
    assert!(check_exit(Some(0), "remote exit code ").is_ok());
    assert_eq!(
        check_exit(Some(-7), "remote exit code ").unwrap_err(),
        "remote exit code Some(-7)"
    );
    assert_eq!(
        check_exit(Some(i32::MIN), "x").unwrap_err(),
        "xSome(-2147483648)"
    );
    assert_eq!(
        check_exit(None, "remote exit code ").unwrap_err(),
        "remote exit code None"
    );
    assert!(matches!(exec_frame(FrameKind::ExecStdout, b""), ExecFrame::Stdout));
    assert!(matches!(exec_frame(FrameKind::ExecStderr, b""), ExecFrame::Stderr));
    assert!(matches!(exec_frame(FrameKind::ExecExit, b""), ExecFrame::Exit));
    match exec_frame(FrameKind::Error, b"x") {
        ExecFrame::Fail(message) => assert_eq!(message, "remote error: x"),
        _ => panic!("an error was taken"),
    }
    match exec_frame(FrameKind::Ping, b"x") {
        ExecFrame::Fail(message) => assert_eq!(message, "unexpected exec stream frame Ping"),
        _ => panic!("a ping was taken"),
    }
}

#[test]
fn devices_are_described() {
    let d = device("0123456789abcdef0123456789abcdef", "A32");
    assert_eq!(short(&d.id), "01234567");
    assert_eq!(
        device_row(&d, true),
        "*\t01234567\tA32\toutbound\tsecure\t127.0.0.1:1"
    );
    assert_eq!(found_row(&d), "01234567\tA32\t127.0.0.1:1");
    assert_eq!(device_header(&d), "== A32 [01234567] ==");
    assert_eq!(device_failure(&d, Ok(Some(0))), None);
    assert_eq!(
        device_failure(&d, Ok(Some(2))).unwrap(),
        "[A32] remote exit code Some(2)"
    );
    assert_eq!(device_failure(&d, Err("e".to_string())).unwrap(), "[A32] e");
    let host = doctor_host("1.0.0", "/s", "unix-socket", "/c", &AppConfig::new());
    assert_eq!(host[0], "SideWire CLI\t1.0.0");
    assert_eq!(host[3], "IPC\tunix-socket");
    assert_eq!(host[6], "Default device\t(none)");
    let lines = doctor_device(&d, true);
    assert_eq!(lines[0], "Device\tA32 [01234567]");
    assert_eq!(lines[3], "Paired\tyes");
    assert_eq!(lines[5], "Capabilities\tcore,clipboard");
    let answer = ExecResult {
        stdout: " SM-A325\n".to_string(),
        stderr: String::new(),
        code: Some(0),
    };
    assert_eq!(doctor_property("Model", &answer).unwrap(), "Model\tSM-A325");
    let failed = ExecResult { code: Some(1), ..answer };
    assert_eq!(doctor_property("Model", &failed), None);
    assert_eq!(doctor_identity("Root identity\t", None), "Root identity\tFAIL");
    assert!(check_some_devices(&[]).is_err());
    assert_eq!(
        all_outcome(true, "devices").unwrap_err(),
        "one or more devices failed"
    );
}
