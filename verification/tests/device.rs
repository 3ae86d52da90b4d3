use sidewire::capabilities::{ALL, CLIPBOARD, FLOW_CONTROL, HEARTBEAT, STREAM_CANCEL};
use sidewire::clipboard::{
    check_clipboard_set, clipboard_text, helper_command, helper_outcome, helper_request,
    helper_response_header, helper_step, ClipboardError, HelperProcess, HelperStep,
    MAX_CLIPBOARD_TEXT, OP_SET, STATUS_OK,
};
use sidewire::device::{
    account_file_window, check_proxy_token, file_size, proxy_plan, pty_outcome, pty_output,
    pty_step, pull_outcome, pull_step, push_outcome, push_ready, push_step, terminal_size,
    ExecAction, ExecEvent, ExecStreams, HandlerError, ProxyPlan, PtyAction, PtyEvent, PtyOutput,
    PtyRead, PullAction, PullEvent, PushAction, PushEvent,
};
use sidewire::frame::{FrameKind, VERSION};
use sidewire::messages::{ExecIdentity, ProxyTokenMode};
use sidewire::mux::{writer_step, Acquire, MuxError, MuxState, WriterAction, WriterEvent};
use sidewire::outbound::{next_outbound_delay, CallEnd, CallReport, Outbound};
use sidewire::security::proxy_prologue;
use sidewire::serve::{
    check_first_frame, check_host, daemon_capabilities, link, Delivery, Dispatch, Handler,
    ServeError, ServeState,
};
use sidewire::shell::{
    command_for_identity, identity_command, sanitize_shell_hostname, shell_hostname, shell_quote,
};

#[test]
fn outbound_backoff_grows_and_pairing_grace_forces_fast_retry() {
    let mut grace = 0;
    let mut delay = 1;
    let mut observed = Vec::new();
    for _ in 0..6 {
        delay = next_outbound_delay(delay, &mut grace);
        observed.push(delay);
    }
    assert_eq!(observed, vec![2, 4, 8, 16, 30, 30]);

    grace = 2;
    assert_eq!(next_outbound_delay(30, &mut grace), 1);
    assert_eq!(grace, 1);
    assert_eq!(next_outbound_delay(1, &mut grace), 1);
    assert_eq!(grace, 0);
    assert_eq!(next_outbound_delay(1, &mut grace), 2);
    assert_eq!(next_outbound_delay(u64::MAX, &mut grace), 30);
}

#[test]
fn failed_calls_are_told_once_in_a_while() {
    let mut o = Outbound::new();
    match o.ended(CallEnd::NotReached("refused".to_string()), 900_000_000) {
        CallReport::Failed { message, suppressed } => {
            assert_eq!(message, "refused");
            assert_eq!(suppressed, 0);
        }
        other => panic!("{other:?}"),
    }
    match o.ended(CallEnd::TimedOut, 30_899_999_999) {
        CallReport::PassedOver(message) => assert_eq!(message, "TCP connect timed out after 5s"),
        other => panic!("{other:?}"),
    }
    match o.ended(CallEnd::NoSession(Ok(())), 30_900_000_000) {
        CallReport::Failed { message, suppressed } => {
            assert_eq!(message, "connection ended before SideWire handshake completed");
            assert_eq!(suppressed, 1);
        }
        other => panic!("{other:?}"),
    }
    o.waited();
    o.waited();
    assert_eq!(o.delay, 4);
    match o.ended(CallEnd::Session(Err("gone".to_string())), 31_000_000_000) {
        CallReport::SessionEnded(message) => assert_eq!(message, "gone"),
        other => panic!("{other:?}"),
    }
    assert_eq!(o.delay, 1);
    assert_eq!(o.told, None);
    o.paired();
    for _ in 0..60 {
        o.waited();
        assert_eq!(o.delay, 1);
    }
    o.waited();
    assert_eq!(o.delay, 2);
    assert!(matches!(o.ended(CallEnd::Session(Ok(())), 32_000_000_000), CallReport::Nothing));
    assert!(matches!(
        o.ended(CallEnd::NoSession(Err("x".to_string())), 32_000_000_000),
        CallReport::Failed { .. }
    ));
}

#[test]
fn flow_control_blocks_file_chunks_until_credit() {
    let mut mux = MuxState::new(true, true);
    mux.register_flow_stream(11).unwrap();
    assert_eq!(mux.try_send(FrameKind::FileChunk, 11, 4), Acquire::Wait);
    assert!(mux.add_flow_credit(11, 3).unwrap());
    assert_eq!(mux.try_send(FrameKind::FileChunk, 11, 4), Acquire::Wait);
    assert!(mux.add_flow_credit(11, 1).unwrap());
    assert_eq!(mux.try_send(FrameKind::FileChunk, 11, 4), Acquire::Granted);
    assert_eq!(mux.try_send(FrameKind::FileChunk, 11, 1), Acquire::Wait);
    assert_eq!(mux.try_send(FrameKind::Ping, 11, 4), Acquire::Granted);
    mux.finish_stream(11);
    assert!(!mux.add_flow_credit(11, 1).unwrap());
}

#[test]
fn flow_control_wait_is_canceled_locally() {
    let mut mux = MuxState::new(true, true);
    mux.register_flow_stream(12).unwrap();
    assert_eq!(mux.try_send(FrameKind::FileChunk, 12, 7), Acquire::Wait);
    mux.cancel_local(12);
    match mux.try_send(FrameKind::FileChunk, 12, 7) {
        Acquire::Refused(error) => assert!(error.message().contains("canceled")),
        other => panic!("{other:?}"),
    }
    mux.finish_stream(12);
    assert!(!mux.is_canceled(12));
}

#[test]
fn cancel_is_stream_scoped_and_signaled() {
    let mut mux = MuxState::new(true, false);
    let frame = mux.send_cancel(7, "overflow");
    assert_eq!(frame.kind, FrameKind::StreamCancel);
    assert_eq!(frame.stream_id, 7);
    assert_eq!(frame.payload, b"overflow");
    assert!(mux.check_send(FrameKind::FileChunk, 7, 4).is_err());
    assert!(mux.check_send(FrameKind::FileChunk, 8, 4).is_ok());
    assert!(mux.send_error(7, "late").is_none());
    assert_eq!(mux.send_error(8, "late").unwrap().payload, b"late");
    assert!(mux.sent(7, Ok(())).is_err());
    assert!(mux.sent(8, Ok(())).is_ok());
}

#[test]
fn legacy_peer_gets_error_instead_of_unknown_cancel_kind() {
    let mut mux = MuxState::new(false, false);
    let frame = mux.send_cancel(9, "overflow");
    assert_eq!(frame.kind, FrameKind::Error);
    assert_eq!(frame.stream_id, 9);
    assert_eq!(frame.payload, b"overflow");
}

#[test]
fn flow_control_faults() {
    let mut mux = MuxState::new(true, true);
    mux.register_flow_stream(1).unwrap();
    assert_eq!(mux.register_flow_stream(1).unwrap_err(), MuxError::FlowExists(1));
    assert_eq!(mux.add_flow_credit(1, 0).unwrap_err(), MuxError::EmptyGrant);
    assert!(mux.add_flow_credit(1, 16777216).unwrap());
    assert_eq!(mux.add_flow_credit(1, 1).unwrap_err(), MuxError::CreditTooLarge);
    assert_eq!(
        mux.check_credit(1, 16777217).unwrap_err(),
        MuxError::FrameTooLarge
    );
    assert_eq!(mux.check_credit(2, 1).unwrap_err(), MuxError::MissingFlow(2));
    let mut plain = MuxState::new(true, false);
    assert_eq!(plain.add_flow_credit(1, 1).unwrap_err(), MuxError::NotNegotiated);
    assert_eq!(plain.send_window_update(1, 5), Ok(None));
    assert_eq!(mux.send_window_update(1, 5), Ok(Some(5)));
    assert!(mux.close());
    assert!(!mux.close());
    assert_eq!(mux.check_queue().unwrap_err(), MuxError::WriterStopped);
    assert_eq!(MuxError::WriterStopped.message(), "device connection writer stopped");
}

#[test]
fn the_writer_stops_with_its_connection() {
    assert_eq!(writer_step(false, WriterEvent::Command), WriterAction::Write);
    assert_eq!(writer_step(true, WriterEvent::Command), WriterAction::Refuse);
    assert_eq!(writer_step(false, WriterEvent::Written), WriterAction::Confirm);
    assert_eq!(writer_step(false, WriterEvent::WriteFailed), WriterAction::Report);
    assert_eq!(writer_step(false, WriterEvent::Shutdown), WriterAction::Stop);
    assert_eq!(writer_step(false, WriterEvent::QueueClosed), WriterAction::Stop);
}

#[test]
fn sessions_agree_on_what_both_can_do() {
    assert_eq!(daemon_capabilities(false) & CLIPBOARD, 0);
    assert_eq!(daemon_capabilities(true) & CLIPBOARD, CLIPBOARD);
    let l = link(ALL, HEARTBEAT | STREAM_CANCEL | FLOW_CONTROL, VERSION);
    assert!(l.heartbeat && l.stream_cancel && !l.flow_control);
    assert_eq!(l.silence_limit(), Some(45));
    assert!(link(ALL, ALL, 0x0102).flow_control);
    let l = link(ALL, 1, 0x0100);
    assert!(!l.heartbeat && !l.stream_cancel);
    assert_eq!(l.silence_limit(), None);
    assert!(check_first_frame(FrameKind::Hello, true).is_ok());
    assert_eq!(
        check_first_frame(FrameKind::Ping, true).unwrap_err(),
        ServeError::ExpectedHello
    );
    assert_eq!(
        check_first_frame(FrameKind::Hello, false).unwrap_err(),
        ServeError::ExpectedHelloAck
    );
    assert_eq!(check_host(0x0100, 1).unwrap(), 0x0100);
    assert_eq!(check_host(0x0200, 1).unwrap_err(), ServeError::Incompatible);
    assert_eq!(check_host(VERSION, 2).unwrap_err(), ServeError::NoCore);
}

#[test]
fn requests_start_handlers_and_frames_reach_them() {
    let mut s = ServeState::new(link(ALL, ALL, VERSION));
    assert_eq!(
        s.dispatch(FrameKind::PushRequest, 5).unwrap(),
        Dispatch::Start(Handler::Push)
    );
    assert_eq!(s.dispatch(FrameKind::FileChunk, 5).unwrap(), Dispatch::Deliver);
    assert_eq!(s.delivered(5, Delivery::Taken).is_none(), true);
    assert_eq!(s.dispatch(FrameKind::Ping, 6).unwrap(), Dispatch::Pong);
    let told = s.delivered(5, Delivery::Full).unwrap();
    assert_eq!(told.kind, FrameKind::StreamCancel);
    assert_eq!(
        told.payload,
        b"stream 5 receive queue overflow; stream canceled"
    );
    assert!(s.finished(Handler::Push, 5, Err("late".to_string())).is_none());
    assert_eq!(
        s.dispatch(FrameKind::ExecRequest, 7).unwrap(),
        Dispatch::Start(Handler::Exec)
    );
    match s.dispatch(FrameKind::StreamCancel, 7).unwrap() {
        Dispatch::Canceled { routed, signaled } => {
            assert!(!routed);
            assert!(signaled);
        }
        other => panic!("{other:?}"),
    }
    let error = {
        s.dispatch(FrameKind::PullRequest, 8).unwrap();
        s.finished(Handler::Pull, 8, Err("no such file".to_string())).unwrap()
    };
    assert_eq!(error.kind, FrameKind::Error);
    assert_eq!(error.payload, b"no such file");
    assert_eq!(
        s.dispatch(FrameKind::HelloAck, 9).unwrap(),
        Dispatch::Unsupported
    );
    assert_eq!(
        s.unsupported(FrameKind::HelloAck, 9).unwrap().payload,
        b"unsupported request HelloAck"
    );
}

#[test]
fn commands_stream_until_both_outputs_end() {
    let mut e = ExecStreams::new();
    assert_eq!(
        e.step(3, ExecEvent::Stdout(10)),
        ExecAction::Send(FrameKind::ExecStdout)
    );
    assert_eq!(
        e.step(3, ExecEvent::Stderr(1)),
        ExecAction::Send(FrameKind::ExecStderr)
    );
    assert_eq!(e.step(3, ExecEvent::Stdout(0)), ExecAction::Nothing);
    assert!(!e.done());
    assert_eq!(
        e.step(3, ExecEvent::CancelChanged { alive: false, canceled: true }),
        ExecAction::Nothing
    );
    assert_eq!(
        e.step(3, ExecEvent::CancelChanged { alive: true, canceled: true }),
        ExecAction::Kill(HandlerError::Canceled(3))
    );
    assert_eq!(e.step(3, ExecEvent::Stderr(0)), ExecAction::Nothing);
    assert!(e.done());
}

#[test]
fn files_are_pushed_and_pulled() {
    assert_eq!(
        push_step(4, PushEvent::Frame { kind: FrameKind::FileChunk, stream_id: 4 }),
        PushAction::Write
    );
    assert_eq!(
        push_step(4, PushEvent::Frame { kind: FrameKind::FileEnd, stream_id: 4 }),
        PushAction::Finish
    );
    for (event, text) in [
        (PushEvent::Canceled, "stream 4 canceled"),
        (PushEvent::InboxClosed, "device connection closed during push"),
        (
            PushEvent::Frame { kind: FrameKind::FileEnd, stream_id: 9 },
            "unexpected stream 9 during push",
        ),
        (
            PushEvent::Frame { kind: FrameKind::Ping, stream_id: 4 },
            "unexpected frame Ping during push",
        ),
    ] {
        match push_step(4, event) {
            PushAction::Fail(error) => assert_eq!(error.message(), text),
            other => panic!("{other:?}"),
        }
    }
    assert!(push_ready("/x", Some(b'R'), b"").is_ok());
    assert_eq!(push_ready("/x", None, b"").unwrap_err(), "open /x for push");
    assert_eq!(
        push_ready("/x", Some(b'Q'), b"").unwrap_err(),
        "open /x for push did not become ready"
    );
    assert_eq!(
        push_ready("/x", None, b" Permission denied\n").unwrap_err(),
        "write /x: Permission denied"
    );
    assert!(push_outcome("/x", true, true, b"").is_ok());
    assert_eq!(push_outcome("/x", false, true, b"").unwrap_err(), "write /x");
    assert_eq!(
        push_outcome("/x", true, false, b"full").unwrap_err(),
        "write /x: full"
    );
    assert_eq!(pull_step(1, PullEvent::Read(5)), PullAction::Send);
    assert_eq!(pull_step(1, PullEvent::Read(0)), PullAction::Finish);
    assert_eq!(
        pull_step(1, PullEvent::CancelChanged { alive: true, canceled: false }),
        PullAction::Nothing
    );
    assert_eq!(pull_outcome("/x", false, b"gone\n").unwrap_err(), "read /x: gone");
    assert_eq!(file_size("/x", true, b"1234\n", b"").unwrap(), 1234);
    assert_eq!(file_size("/x", true, b"big", b"").unwrap_err(), "parse size for /x");
    assert_eq!(
        file_size("/x", false, b"", b"\xff no").unwrap_err(),
        "stat /x: \u{fffd} no"
    );
}

#[test]
fn file_windows_are_granted_by_halves() {
    let mut consumed = 0;
    assert_eq!(account_file_window(&mut consumed, 524287).unwrap(), None);
    assert_eq!(account_file_window(&mut consumed, 1).unwrap(), Some(524288));
    assert_eq!(consumed, 0);
    assert_eq!(account_file_window(&mut consumed, 600000).unwrap(), Some(600000));
    let mut full = usize::MAX;
    assert_eq!(
        account_file_window(&mut full, 1).unwrap_err(),
        HandlerError::WindowOverflow
    );
}

#[test]
fn terminals_are_driven_by_frames() {
    let frame = |kind| PtyEvent::Frame { kind, stream_id: 2 };
    assert_eq!(pty_step(2, frame(FrameKind::PtyInput)), PtyAction::Write);
    assert_eq!(pty_step(2, frame(FrameKind::PtyResize)), PtyAction::Resize);
    assert_eq!(pty_step(2, frame(FrameKind::PtyComplete)), PtyAction::Complete);
    assert_eq!(pty_step(2, frame(FrameKind::PtyClose)), PtyAction::Close);
    assert_eq!(pty_step(2, PtyEvent::OutputEnded), PtyAction::Stop);
    for (event, text) in [
        (frame(FrameKind::Ping), "unexpected PTY frame Ping"),
        (
            PtyEvent::InboxClosed,
            "device connection closed while PTY 2 was active",
        ),
        (
            PtyEvent::Frame { kind: FrameKind::PtyInput, stream_id: 5 },
            "unexpected stream 5 while PTY 2 is active",
        ),
    ] {
        match pty_step(2, event) {
            PtyAction::Fail(error) => assert_eq!(error.message(), text),
            other => panic!("{other:?}"),
        }
    }
    assert_eq!(pty_output(PtyRead::Bytes(3)), PtyOutput::Send);
    assert_eq!(pty_output(PtyRead::Bytes(0)), PtyOutput::End);
    assert_eq!(pty_output(PtyRead::HungUp), PtyOutput::End);
    assert_eq!(pty_output(PtyRead::Failed), PtyOutput::Fail);
    assert_eq!(
        pty_outcome(Err("in".to_string()), Err("out".to_string())).unwrap_err(),
        "in"
    );
    assert_eq!(terminal_size(0, 24), (1, 24));
    assert_eq!(terminal_size(80, 0), (80, 1));
}

#[test]
fn proxies_are_protected_like_their_session() {
    match proxy_plan(ProxyTokenMode::Expect, true, b"t") {
        ProxyPlan::Noise { initiator, prologue } => {
            assert!(!initiator);
            assert_eq!(prologue, proxy_prologue(b"t", "forward"));
        }
        _ => panic!("a proxy of an encrypted session is not encrypted"),
    }
    match proxy_plan(ProxyTokenMode::Send, true, b"t") {
        ProxyPlan::Noise { initiator, prologue } => {
            assert!(initiator);
            assert_eq!(prologue, proxy_prologue(b"t", "reverse"));
        }
        _ => panic!("a proxy of an encrypted session is not encrypted"),
    }
    assert!(matches!(
        proxy_plan(ProxyTokenMode::Expect, false, b"t"),
        ProxyPlan::ExpectToken
    ));
    assert!(matches!(
        proxy_plan(ProxyTokenMode::Send, false, b"t"),
        ProxyPlan::SendToken
    ));
    assert!(check_proxy_token(b"t", b"t").is_ok());
    assert_eq!(
        check_proxy_token(b"u", b"t").unwrap_err().message(),
        "proxy token mismatch"
    );
}

#[test]
fn shell_quote_preserves_arguments() {
    assert_eq!(shell_quote("plain"), "'plain'");
    assert_eq!(shell_quote("a b"), "'a b'");
    assert_eq!(shell_quote("a'b"), "'a'\\''b'");
    assert_eq!(shell_quote("한글 $HOME ; x"), "'한글 $HOME ; x'");
}

#[test]
fn shell_hostname_is_safe_for_an_android_prompt() {
    assert_eq!(sanitize_shell_hostname(" a53x\n"), Some("a53x".to_owned()));
    assert_eq!(
        sanitize_shell_hostname("SM-A536N_5G.test"),
        Some("SM-A536N_5G.test".to_owned())
    );
    assert_eq!(sanitize_shell_hostname(" \r\n\t"), None);
}

#[test]
fn hostnames_fall_back() {
    assert_eq!(shell_hostname("A32", Some(b"kernel"), None), "A32");
    assert_eq!(shell_hostname(" ", Some(b"kernel\0rest"), None), "kernel");
    assert_eq!(shell_hostname("", Some(b"LocalHost"), Some(b"a53x\n")), "a53x");
    assert_eq!(shell_hostname("", None, Some(b"")), "android");
}

#[test]
fn commands_run_with_an_identity() {
    let args = vec!["a b".to_string()];
    let plain = command_for_identity("/bin/ls", &args, ExecIdentity::Root, true);
    assert_eq!(plain.program, "/bin/ls");
    assert_eq!(plain.args, args);
    let shell = command_for_identity("/bin/ls", &args, ExecIdentity::Shell, true);
    assert_eq!(shell.program, "/system/bin/su");
    assert_eq!(&shell.args[..3], &["-p", "-Z", "u:r:shell:s0"]);
    assert_eq!(shell.args.last().unwrap(), "exec '/bin/ls' 'a b'");
    assert_eq!(shell.args.len(), 5 + 30 + 4);
    let file = identity_command(ExecIdentity::Shell, "cat \"$1\"", "/x", false);
    assert_eq!(file.program, "/system/bin/sh");
    assert_eq!(file.args, vec!["-c", "cat \"$1\"", "sidewire-file", "/x"]);
}

#[test]
fn helper_codec_preserves_binary_payload() {
    let request = b"hello\nworld\0utf8:\xED\x95\x9C\xEA\xB8\x80";
    let message = helper_request(OP_SET, request).unwrap();
    assert_eq!(message[0], OP_SET);
    let (code, length) = helper_response_header(&message[..5]).unwrap();
    assert_eq!(code, OP_SET);
    assert_eq!(length, request.len());
    assert_eq!(&message[5..], &request[..]);
    let response = b"ok\n\0";
    let answer = helper_request(STATUS_OK, response).unwrap();
    let (status, length) = helper_response_header(&answer[..5]).unwrap();
    assert_eq!(status, STATUS_OK);
    assert_eq!(&answer[5..5 + length], b"ok\n\0");
    let (reusable, payload) = helper_outcome(Some((status, answer[5..].to_vec())));
    assert!(reusable);
    assert_eq!(payload.unwrap(), b"ok\n\0");
}

#[test]
fn helper_codec_rejects_oversized_response() {
    let mut header = vec![STATUS_OK];
    header.extend_from_slice(&((MAX_CLIPBOARD_TEXT as u32) + 1).to_be_bytes());
    let error = helper_response_header(&header).unwrap_err();
    assert!(error.message().contains("exceeds 4 MiB"));
    assert_eq!(
        helper_request(OP_SET, &vec![0; MAX_CLIPBOARD_TEXT + 1]).unwrap_err(),
        ClipboardError::TextTooLarge
    );
}

#[test]
fn the_clipboard_helper_is_kept() {
    assert_eq!(helper_step(false, HelperProcess::Running), HelperStep::Use);
    assert_eq!(helper_step(false, HelperProcess::Absent), HelperStep::Start);
    assert_eq!(helper_step(false, HelperProcess::Exited), HelperStep::Start);
    assert_eq!(
        helper_step(true, HelperProcess::Running),
        HelperStep::Refuse(ClipboardError::Canceled)
    );
    let (reusable, answer) = helper_outcome(Some((1, b"no \xff".to_vec())));
    assert!(reusable);
    assert_eq!(answer.unwrap_err(), "Android clipboard helper failed: no \u{fffd}");
    let (reusable, answer) = helper_outcome(Some((7, Vec::new())));
    assert!(!reusable);
    assert_eq!(answer.unwrap_err(), "invalid clipboard helper status 7");
    let (reusable, answer) = helper_outcome(None);
    assert!(!reusable);
    assert_eq!(answer.unwrap_err(), "persistent clipboard helper I/O failed");
    assert_eq!(clipboard_text("é한".as_bytes().to_vec()).unwrap(), "é한");
    assert_eq!(clipboard_text(vec![0xff]).unwrap_err(), ClipboardError::NotUtf8);
    assert!(check_clipboard_set(true, "x").is_ok());
    assert_eq!(
        check_clipboard_set(false, "x").unwrap_err(),
        ClipboardError::Unavailable
    );
    assert_eq!(
        check_clipboard_set(true, &"x".repeat(MAX_CLIPBOARD_TEXT + 1)).unwrap_err(),
        ClipboardError::TextTooLarge
    );
    assert_eq!(helper_command(false).program, "/system/bin/app_process");
}
