use sidewire::console::{
    check_probe, check_pty_exit, format_completion_candidates, gather, gathers_more, key_bytes,
    normalize_console_line, raw_step, screen_step, shell_args, shell_mode, update_prompt_tail,
    ConsoleEvent, Drawn, Key, LineAction, LineClient, LineEvent, LineReader, LineStep, RawAction,
    ScreenAction, ShellMode, BUFFER_CHARS,
};
use sidewire::frame::FrameKind;
use sidewire::messages::PtyCompleteResult;

#[test]
fn normalizes_windows_console_crlf_to_one_pty_enter() {
    assert_eq!(normalize_console_line(b"ls\r\n"), b"ls\n");
    assert_eq!(normalize_console_line(b"\r\n"), b"\n");
}

#[test]
fn normalizes_unix_console_lf_to_one_pty_enter() {
    assert_eq!(normalize_console_line(b"pwd\n"), b"pwd\n");
    assert_eq!(normalize_console_line(b"\n"), b"\n");
}

#[test]
fn leaves_unterminated_input_unchanged() {
    assert_eq!(normalize_console_line(b"exit"), b"exit");
}

#[test]
fn formats_completion_candidates_in_columns_and_reports_truncation() {
    let candidates = vec!["alpha".into(), "beta".into(), "gamma".into()];
    let output = format_completion_candidates(&candidates, 5, 16);
    assert!(output.contains("alpha"));
    assert!(output.contains("beta"));
    assert!(output.contains("gamma"));
    assert!(output.contains("... 2 more"));
}

#[test]
fn candidates_are_laid_out_exactly() {
    let candidates: Vec<String> = ["alpha", "beta", "gamma"].iter().map(|s| s.to_string()).collect();
    assert_eq!(
        format_completion_candidates(&candidates, 3, 16),
        "alpha  gamma\r\nbeta"
    );
    assert_eq!(
        format_completion_candidates(&candidates, 9, 80),
        "alpha  beta   gamma\r\n... 6 more"
    );
    assert_eq!(
        format_completion_candidates(&candidates, 3, 0),
        "alpha\r\nbeta\r\ngamma"
    );
    assert_eq!(format_completion_candidates(&[], 7, 80), "");
}

#[test]
fn keys_are_sent_as_a_terminal_expects() {
    let key = |k| key_bytes(k, false, false, false);
    assert_eq!(key(Key::Char('한')).unwrap(), "한".as_bytes());
    assert_eq!(key_bytes(Key::Char('C'), true, false, false).unwrap(), vec![3]);
    assert_eq!(key_bytes(Key::Char('é'), true, false, false), None);
    assert_eq!(key_bytes(Key::Char('x'), false, true, false).unwrap(), b"\x1bx");
    assert_eq!(key_bytes(Key::Up, false, false, true), None);
    assert_eq!(key(Key::Enter).unwrap(), b"\r");
    assert_eq!(key(Key::Tab).unwrap(), b"\t");
    assert_eq!(key(Key::BackTab).unwrap(), b"\x1b[Z");
    assert_eq!(key(Key::Backspace).unwrap(), b"\x7f");
    assert_eq!(key(Key::Esc).unwrap(), b"\x1b");
    assert_eq!(key(Key::Up).unwrap(), b"\x1b[A");
    assert_eq!(key(Key::Down).unwrap(), b"\x1b[B");
    assert_eq!(key(Key::Right).unwrap(), b"\x1b[C");
    assert_eq!(key(Key::Left).unwrap(), b"\x1b[D");
    assert_eq!(key(Key::Home).unwrap(), b"\x1b[H");
    assert_eq!(key(Key::End).unwrap(), b"\x1b[F");
    assert_eq!(key(Key::PageUp).unwrap(), b"\x1b[5~");
    assert_eq!(key(Key::PageDown).unwrap(), b"\x1b[6~");
    assert_eq!(key(Key::Delete).unwrap(), b"\x1b[3~");
    assert_eq!(key(Key::Insert).unwrap(), b"\x1b[2~");
    let functions: [&[u8]; 12] = [
        b"\x1bOP", b"\x1bOQ", b"\x1bOR", b"\x1bOS", b"\x1b[15~", b"\x1b[17~", b"\x1b[18~",
        b"\x1b[19~", b"\x1b[20~", b"\x1b[21~", b"\x1b[23~", b"\x1b[24~",
    ];
    for (i, code) in functions.iter().enumerate() {
        assert_eq!(key(Key::Function(i as u8 + 1)).unwrap(), *code);
    }
    assert_eq!(key(Key::Function(13)), None);
    assert_eq!(key(Key::Other), None);
}

#[test]
fn the_last_line_is_remembered() {
    let mut tail = String::new();
    update_prompt_tail(&mut tail, b"out\r\nA32:/ ");
    assert_eq!(tail, "A32:/ ");
    update_prompt_tail(&mut tail, b"$ ");
    assert_eq!(tail, "A32:/ $ ");
    update_prompt_tail(&mut tail, b"x\n");
    assert_eq!(tail, "");
    update_prompt_tail(&mut tail, "한".repeat(200).as_bytes());
    assert_eq!(tail, "한".repeat(170));
    update_prompt_tail(&mut tail, b"\xff");
    assert_eq!(tail, format!("{}\u{fffd}", "한".repeat(169)));
}

fn wide(s: &str) -> Vec<u16> {
    s.encode_utf16().collect()
}

fn result(line: &str, cursor: u32, candidates: &[&str], count: u32) -> PtyCompleteResult {
    PtyCompleteResult {
        line: line.to_string(),
        cursor,
        candidates: candidates.iter().map(|s| s.to_string()).collect(),
        candidate_count: count,
    }
}

#[test]
fn a_second_tab_shows_the_candidates() {
    let mut reader = LineReader::new();
    let (line, cursor) = match reader.typed(&wide("cat fo\t")) {
        LineAction::Complete { line, cursor } => (line, cursor),
        other => panic!("{other:?}"),
    };
    assert_eq!((line.as_str(), cursor), ("cat fo", 6));
    let (drawn, room) =
        reader.completed(&line, cursor, result("cat foo", 7, &["foo1", "foo2"], 2), "$ ", 80);
    assert!(room.is_ok());
    match drawn {
        Drawn::Text(text) => assert_eq!(text, "o"),
        other => panic!("{other:?}"),
    }
    assert_eq!(reader.keep, wide("cat foo"));
    let (line, cursor) = match reader.typed(&wide("cat foo\t")) {
        LineAction::Complete { line, cursor } => (line, cursor),
        other => panic!("{other:?}"),
    };
    let (drawn, _) =
        reader.completed(&line, cursor, result("cat foo", 7, &["foo1", "foo2"], 2), "$ ", 80);
    match drawn {
        Drawn::Text(text) => assert_eq!(text, "\r\nfoo1  foo2\r\n$ cat foo"),
        other => panic!("{other:?}"),
    }
}

#[test]
fn lines_and_tabs_are_read() {
    let mut reader = LineReader::new();
    assert!(matches!(reader.typed(&[]), LineAction::Again));
    match reader.typed(&wide("한 \u{10000}\r\n")) {
        LineAction::Send(sent) => assert_eq!(sent, "한 \u{10000}\n".as_bytes()),
        other => panic!("{other:?}"),
    }
    assert!(matches!(reader.typed(&wide("a\tb")), LineAction::Again));
    assert_eq!(reader.keep, wide("ab"));
    assert!(reader.check_room().is_ok());
    match reader.typed(&wide(&format!("\t{}", "x".repeat(BUFFER_CHARS)))) {
        LineAction::Fail(message) => assert_eq!(message, "console input line is too long"),
        other => panic!("{other:?}"),
    }
    match reader.typed(&wide(&format!("\t{}", "x".repeat(BUFFER_CHARS - 1)))) {
        LineAction::Again => {}
        other => panic!("{other:?}"),
    }
    assert_eq!(reader.check_room().unwrap_err(), "console input line is too long");
    let mut reader = LineReader::new();
    let long = "y".repeat(BUFFER_CHARS);
    let (_, room) = reader.completed("y", 1, result(&long, 1, &[], 1), "", 80);
    assert_eq!(room.unwrap_err(), "completed console line is too long");
    let (drawn, _) = reader.completed("y", 1, result("z", 9, &[], 1), "", 80);
    assert!(matches!(drawn, Drawn::Nothing));
    let (drawn, _) = reader.completed("한", 3, result("한글", 4, &[], 1), "", 80);
    match drawn {
        Drawn::Text(text) => assert_eq!(text, "글"),
        other => panic!("{other:?}"),
    }
}

#[test]
fn raw_terminals() {
    assert!(matches!(
        raw_step(ConsoleEvent::Resize { cols: 1, rows: 2 }),
        RawAction::Resize { cols: 1, rows: 2 }
    ));
    assert!(matches!(raw_step(ConsoleEvent::End), RawAction::CloseAndEnd));
    assert!(matches!(
        raw_step(ConsoleEvent::Complete { line: String::new(), cursor: 0 }),
        RawAction::RefuseCompletion
    ));
    match raw_step(ConsoleEvent::Failed("f".to_string())) {
        RawAction::CloseAndFail(message) => assert_eq!(message, "f"),
        other => panic!("{other:?}"),
    }
    let mut bytes = match raw_step(ConsoleEvent::Input(vec![1])) {
        RawAction::Batch(bytes) => bytes,
        other => panic!("{other:?}"),
    };
    assert!(gathers_more(&bytes));
    assert!(gather(&mut bytes, ConsoleEvent::Input(vec![2; 4095])).is_none());
    assert!(!gathers_more(&bytes));
    assert!(matches!(
        gather(&mut bytes, ConsoleEvent::End),
        Some(ConsoleEvent::End)
    ));
    assert_eq!(bytes.len(), 4096);
    assert!(matches!(
        screen_step(FrameKind::PtyOutput, b"", false),
        ScreenAction::Write
    ));
    assert!(matches!(
        screen_step(FrameKind::PtyExit, b"", false),
        ScreenAction::Exit
    ));
    assert!(matches!(
        screen_step(FrameKind::PtyCompleteResult, b"", true),
        ScreenAction::Completed
    ));
    match screen_step(FrameKind::PtyCompleteResult, b"", false) {
        ScreenAction::Fail(message) => {
            assert_eq!(message, "unexpected PTY frame PtyCompleteResult")
        }
        other => panic!("{other:?}"),
    }
    match screen_step(FrameKind::Error, b"e", false) {
        ScreenAction::Fail(message) => assert_eq!(message, "remote PTY error: e"),
        other => panic!("{other:?}"),
    }
    assert!(check_pty_exit(true, None).is_ok());
    assert_eq!(
        check_pty_exit(false, Some(0)).unwrap_err(),
        "remote PTY exited (code Some(0))"
    );
    assert_eq!(
        check_pty_exit(true, Some(1)).unwrap_err(),
        "remote PTY exited (code Some(1))"
    );
}

#[test]
fn one_completion_at_a_time() {
    let mut c = LineClient::new();
    let ask = || LineEvent::Console(ConsoleEvent::Complete { line: "l".to_string(), cursor: 1 });
    assert!(matches!(c.step(ask()), LineStep::Ask { cursor: 1, .. }));
    assert!(matches!(c.step(ask()), LineStep::RefuseCompletion));
    assert!(c.answered());
    assert!(!c.answered());
    assert!(matches!(c.step(ask()), LineStep::Ask { .. }));
    match c.step(LineEvent::Interrupt) {
        LineStep::Send(bytes) => assert_eq!(bytes, vec![3]),
        other => panic!("{other:?}"),
    }
    match c.step(LineEvent::NetworkGone) {
        LineStep::Fail(message) => assert_eq!(message, "PTY network reader stopped"),
        other => panic!("{other:?}"),
    }
    assert!(matches!(c.step(LineEvent::ConsoleGone), LineStep::CloseAndEnd));
}

#[test]
fn shells_and_probes() {
    assert!(check_probe(b"x__SIDEWIRE_PTY_OK__\r\n").is_ok());
    assert!(check_probe(b"__SIDEWIRE_PTY_OK__").is_ok());
    assert_eq!(
        check_probe(b"__SIDEWIRE_PTY_OK_").unwrap_err(),
        "PTY probe completed without input marker"
    );
    assert_eq!(shell_mode(true, true, true), ShellMode::Probe);
    assert_eq!(shell_mode(true, false, true), ShellMode::Raw);
    assert_eq!(shell_mode(false, false, false), ShellMode::Raw);
    assert_eq!(shell_mode(false, false, true), ShellMode::Lines);
    assert_eq!(
        shell_args(ShellMode::Lines),
        (vec!["+o".to_string(), "emacs".to_string()], false)
    );
    assert_eq!(shell_args(ShellMode::Raw), (Vec::new(), true));
}
