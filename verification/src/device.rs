//! The device's request handlers: what each does with the next thing that happens, and what its
//! outcome is called.

use vstd::prelude::*;
use vstd::string::*;
use crate::bytes;
use crate::frame::FrameKind;
use crate::messages::ProxyTokenMode;
use crate::security;
use crate::text;

verus! {

pub const FILE_BUFFER_SIZE: usize = 262144;

pub const PROXY_BUFFER_SIZE: usize = 65536;

/// How much file data a sender may have under way.
pub const FILE_FLOW_WINDOW: usize = 1048576;

/// How much file data is taken before the sender is granted more.
pub const FILE_FLOW_UPDATE_THRESHOLD: usize = 524288;

/// Why a handler fails.
#[derive(Debug, Clone, Copy, PartialEq, Eq, Structural)]
pub enum HandlerError {
    Canceled(u32),
    PushClosed,
    PushStream(u32),
    PushFrame(FrameKind),
    WindowOverflow,
    PtyClosed(u32),
    PtyStream(u32, u32),
    PtyFrame(FrameKind),
    ProxyToken,
}

impl HandlerError {
    pub open spec fn text(self) -> Seq<char> {
        match self {
            HandlerError::Canceled(id) => "stream "@ + text::decimal(id as nat) + " canceled"@,
            HandlerError::PushClosed => "device connection closed during push"@,
            HandlerError::PushStream(id) => "unexpected stream "@ + text::decimal(id as nat)
                + " during push"@,
            HandlerError::PushFrame(kind) => "unexpected frame "@ + kind.name() + " during push"@,
            HandlerError::WindowOverflow => "file flow-control byte counter overflow"@,
            HandlerError::PtyClosed(id) => "device connection closed while PTY "@ + text::decimal(
                id as nat,
            ) + " was active"@,
            HandlerError::PtyStream(other, id) => "unexpected stream "@ + text::decimal(
                other as nat,
            ) + " while PTY "@ + text::decimal(id as nat) + " is active"@,
            HandlerError::PtyFrame(kind) => "unexpected PTY frame "@ + kind.name(),
            HandlerError::ProxyToken => "proxy token mismatch"@,
        }
    }

    pub fn message(self) -> (r: String)
        ensures
            r@ == self.text(),
    {
        match self {
            HandlerError::Canceled(id) => text::cat_number("stream ", id as u64, " canceled"),
            HandlerError::PushClosed => String::from_str("device connection closed during push"),
            HandlerError::PushStream(id) => text::cat_number(
                "unexpected stream ",
                id as u64,
                " during push",
            ),
            HandlerError::PushFrame(kind) => text::cat3(
                "unexpected frame ",
                kind.label(),
                " during push",
            ),
            HandlerError::WindowOverflow => String::from_str(
                "file flow-control byte counter overflow",
            ),
            HandlerError::PtyClosed(id) => text::cat_number(
                "device connection closed while PTY ",
                id as u64,
                " was active",
            ),
            HandlerError::PtyStream(other, id) => {
                let mut out = text::cat_number("unexpected stream ", other as u64, " while PTY ");
                out.append(text::decimal_string(id as u64).as_str());
                out.append(" is active");
                out
            },
            HandlerError::PtyFrame(kind) => text::cat2("unexpected PTY frame ", kind.label()),
            HandlerError::ProxyToken => String::from_str("proxy token mismatch"),
        }
    }
}

/// The output streams of a command that have ended.
#[derive(Debug, Clone, Copy, PartialEq, Eq, Structural)]
pub struct ExecStreams {
    pub stdout_done: bool,
    pub stderr_done: bool,
}

/// What happens while a command runs.
#[derive(Debug, Clone, Copy, PartialEq, Eq, Structural)]
pub enum ExecEvent {
    /// The cancellation flag changed, or its sender is gone (`alive` false).
    CancelChanged { alive: bool, canceled: bool },
    /// So many bytes came from standard output; none at its end.
    Stdout(usize),
    /// So many bytes came from standard error; none at its end.
    Stderr(usize),
}

/// What is done about it.
#[derive(Debug, Clone, Copy, PartialEq, Eq, Structural)]
pub enum ExecAction {
    /// Kill the command and fail.
    Kill(HandlerError),
    /// Send the bytes to the host in a frame of this kind.
    Send(FrameKind),
    /// Nothing.
    Nothing,
}

impl ExecStreams {
    /// What is done about an event, and which output streams have ended then.
    pub open spec fn after(self, stream_id: u32, event: ExecEvent) -> (ExecAction, ExecStreams) {
        (
            match event {
                ExecEvent::CancelChanged { alive, canceled } => if alive && canceled {
                    ExecAction::Kill(HandlerError::Canceled(stream_id))
                } else {
                    ExecAction::Nothing
                },
                ExecEvent::Stdout(n) => if n == 0 {
                    ExecAction::Nothing
                } else {
                    ExecAction::Send(FrameKind::ExecStdout)
                },
                ExecEvent::Stderr(n) => if n == 0 {
                    ExecAction::Nothing
                } else {
                    ExecAction::Send(FrameKind::ExecStderr)
                },
            },
            ExecStreams {
                stdout_done: self.stdout_done || event == ExecEvent::Stdout(0),
                stderr_done: self.stderr_done || event == ExecEvent::Stderr(0),
            },
        )
    }

    /// Both streams have ended.
    pub open spec fn ended(self) -> bool {
        self.stdout_done && self.stderr_done
    }

    pub fn new() -> (r: ExecStreams)
        ensures
            !r.stdout_done,
            !r.stderr_done,
    {
        ExecStreams { stdout_done: false, stderr_done: false }
    }

    /// Both streams have ended: the exit code is to be waited for.
    pub fn done(self) -> (r: bool)
        ensures
            r == self.ended(),
    {
        self.stdout_done && self.stderr_done
    }

    pub fn step(&mut self, stream_id: u32, event: ExecEvent) -> (r: ExecAction)
        ensures
            (r, *final(self)) == old(self).after(stream_id, event),
    {
        match event {
            ExecEvent::CancelChanged { alive, canceled } => {
                if alive && canceled {
                    return ExecAction::Kill(HandlerError::Canceled(stream_id));
                }
                ExecAction::Nothing
            },
            ExecEvent::Stdout(n) => {
                if n == 0 {
                    self.stdout_done = true;
                    return ExecAction::Nothing;
                }
                ExecAction::Send(FrameKind::ExecStdout)
            },
            ExecEvent::Stderr(n) => {
                if n == 0 {
                    self.stderr_done = true;
                    return ExecAction::Nothing;
                }
                ExecAction::Send(FrameKind::ExecStderr)
            },
        }
    }
}

/// The size of a file, as `stat` prints it.
pub open spec fn printed_size(stdout: Seq<u8>) -> Option<nat> {
    text::parse_unsigned(text::printed(stdout), u64::MAX as nat)
}

/// What asking for the size of a file gives.
pub open spec fn stat_answer(
    path: Seq<char>,
    success: bool,
    stdout: Seq<u8>,
    stderr: Seq<u8>,
) -> Result<nat, Seq<char>> {
    if !success {
        Err("stat "@ + path + ": "@ + text::printed(stderr))
    } else {
        match printed_size(stdout) {
            Some(size) => Ok(size),
            None => Err("parse size for "@ + path),
        }
    }
}

/// What `stat` prints of a file with so many bytes: the number and a line end.
pub open spec fn stat_output(size: u64) -> Seq<u8> {
    vstd::utf8::encode_utf8(text::decimal(size as nat).push('\n'))
}

proof fn lemma_number_line_is_read(n: nat)
    ensures
        text::trim(text::decimal(n).push('\n')) == text::decimal(n),
{
    text::lemma_decimal_value(n);
    let digits = text::decimal(n);
    assert(text::is_digit(digits[0]));
    assert(text::is_digit(digits[digits.len() - 1]));
    text::lemma_trim_surrounded(Seq::empty(), digits, seq!['\n']);
    assert(Seq::<char>::empty() + digits + seq!['\n'] =~= digits.push('\n'));
}

/// Every size that a file can have is read as it was printed, with white space around it or none;
/// a question that failed gives no size.
pub proof fn lemma_any_size_is_read(
    path: Seq<char>,
    stdout: Seq<u8>,
    stderr: Seq<u8>,
    size: u64,
    before: Seq<char>,
    after: Seq<char>,
)
    requires
        text::lossy(stdout) == before + text::decimal(size as nat) + after,
        forall|i: int| 0 <= i < before.len() ==> text::is_space(#[trigger] before[i]),
        forall|i: int| 0 <= i < after.len() ==> text::is_space(#[trigger] after[i]),
    ensures
        stat_answer(path, true, stdout, stderr) == Ok::<nat, Seq<char>>(size as nat),
        stat_answer(path, false, stdout, stderr) is Err,
{
    let digits = text::decimal(size as nat);
    text::lemma_decimal_value(size as nat);
    assert(text::is_digit(digits[0]));
    assert(text::is_digit(digits[digits.len() - 1]));
    text::lemma_trim_surrounded(before, digits, after);
    text::lemma_decimal_round_trip(size as nat, u64::MAX as nat);
}

/// What asking for the size of a file gives: the size, or what went wrong with the question or
/// with the answer.
pub fn file_size(path: &str, success: bool, stdout: &[u8], stderr: &[u8]) -> (r: Result<
    u64,
    String,
>)
    ensures
        match r {
            Ok(size) => stat_answer(path@, success, stdout@, stderr@) == Ok::<nat, Seq<char>>(
                size as nat,
            ),
            Err(message) => stat_answer(path@, success, stdout@, stderr@) == Err::<nat, Seq<char>>(
                message@,
            ),
        },
        forall|n: u64|
            success && stdout@ == #[trigger] stat_output(n) ==> r == Ok::<u64, String>(n),
{
    proof {
        assert forall|n: u64| success && stdout@ == #[trigger] stat_output(n) implies text::trim(
            vstd::utf8::decode_utf8(stdout@),
        ) == text::decimal(n as nat) && vstd::utf8::valid_utf8(stdout@) && text::parse_unsigned(
            text::decimal(n as nat),
            u64::MAX as nat,
        ) == Some(n as nat) by {
            let line = text::decimal(n as nat).push('\n');
            vstd::utf8::encode_utf8_valid_utf8(line);
            vstd::utf8::encode_utf8_decode_utf8(line);
            lemma_number_line_is_read(n as nat);
            text::lemma_decimal_round_trip(n as nat, u64::MAX as nat);
        }
    }
    if !success {
        return Err(text::cat4("stat ", path, ": ", text::printed_text(stderr).as_str()));
    }
    let printed = text::chars_of(text::printed_text(stdout).as_str());
    match text::read_unsigned(printed.as_slice(), u64::MAX) {
        Some(size) => Ok(size),
        None => Err(text::cat2("parse size for ", path)),
    }
}

/// File data taken since the sender was last granted more, after `bytes` more were taken: the
/// grant to send, if one is due, and what is taken since then.
pub open spec fn window_after(consumed: nat, bytes: nat) -> (Option<nat>, nat) {
    if consumed + bytes >= FILE_FLOW_UPDATE_THRESHOLD {
        (Some(consumed + bytes), 0)
    } else {
        (None, consumed + bytes)
    }
}

/// Accounts for file data that was taken; returns the grant to send, if one is due.
pub fn account_file_window(consumed: &mut usize, bytes: usize) -> (r: Result<
    Option<usize>,
    HandlerError,
>)
    ensures
        match r {
            Ok(grant) => {
                let (due, rest) = window_after(*old(consumed) as nat, bytes as nat);
                &&& *old(consumed) + bytes <= usize::MAX
                &&& *final(consumed) == rest
                &&& match grant {
                    Some(n) => due == Some(n as nat),
                    None => due is None,
                }
            },
            Err(e) => *old(consumed) + bytes > usize::MAX && e == HandlerError::WindowOverflow
                && *final(consumed) == *old(consumed),
        },
{
    match (*consumed).checked_add(bytes) {
        None => Err(HandlerError::WindowOverflow),
        Some(total) => {
            if total >= FILE_FLOW_UPDATE_THRESHOLD {
                *consumed = 0;
                Ok(Some(total))
            } else {
                *consumed = total;
                Ok(None)
            }
        },
    }
}

/// All that is granted while the chunks of a file are taken, and what is taken after the last
/// grant.
pub open spec fn window_run(chunks: Seq<nat>) -> (nat, nat)
    decreases chunks.len(),
{
    if chunks.len() == 0 {
        (0, 0)
    } else {
        let (granted, consumed) = window_run(chunks.drop_last());
        let (due, rest) = window_after(consumed, chunks.last());
        (
            granted + match due {
                Some(n) => n,
                None => 0,
            },
            rest,
        )
    }
}

pub open spec fn total(chunks: Seq<nat>) -> nat
    decreases chunks.len(),
{
    if chunks.len() == 0 {
        0
    } else {
        total(chunks.drop_last()) + chunks.last()
    }
}

/// Every byte that is taken is granted again, but for less than half a window: a sender whose
/// chunks have all arrived always has more than half the window left.
pub proof fn lemma_window_is_refilled(chunks: Seq<nat>)
    ensures
        window_run(chunks).0 + window_run(chunks).1 == total(chunks),
        window_run(chunks).1 < FILE_FLOW_UPDATE_THRESHOLD,
        FILE_FLOW_WINDOW + window_run(chunks).0 - total(chunks) > FILE_FLOW_WINDOW
            - FILE_FLOW_UPDATE_THRESHOLD,
        2 * (FILE_FLOW_WINDOW + window_run(chunks).0 - total(chunks)) > FILE_FLOW_WINDOW,
    decreases chunks.len(),
{
    if chunks.len() > 0 {
        lemma_window_is_refilled(chunks.drop_last());
    }
}

/// What happens while a file is received.
#[derive(Debug, Clone, Copy, PartialEq, Eq, Structural)]
pub enum PushEvent {
    Canceled,
    InboxClosed,
    Frame { kind: FrameKind, stream_id: u32 },
}

/// What is done about it.
#[derive(Debug, Clone, Copy, PartialEq, Eq, Structural)]
pub enum PushAction {
    /// Write the payload, then account for it.
    Write,
    /// The file is complete.
    Finish,
    Fail(HandlerError),
}

pub open spec fn push_action(stream_id: u32, event: PushEvent) -> PushAction {
    match event {
        PushEvent::Canceled => PushAction::Fail(HandlerError::Canceled(stream_id)),
        PushEvent::InboxClosed => PushAction::Fail(HandlerError::PushClosed),
        PushEvent::Frame { kind, stream_id: other } => if other != stream_id {
            PushAction::Fail(HandlerError::PushStream(other))
        } else if kind == FrameKind::FileChunk {
            PushAction::Write
        } else if kind == FrameKind::FileEnd {
            PushAction::Finish
        } else {
            PushAction::Fail(HandlerError::PushFrame(kind))
        },
    }
}

pub fn push_step(stream_id: u32, event: PushEvent) -> (r: PushAction)
    ensures
        r == push_action(stream_id, event),
{
    match event {
        PushEvent::Canceled => PushAction::Fail(HandlerError::Canceled(stream_id)),
        PushEvent::InboxClosed => PushAction::Fail(HandlerError::PushClosed),
        PushEvent::Frame { kind, stream_id: other } => {
            if other != stream_id {
                return PushAction::Fail(HandlerError::PushStream(other));
            }
            match kind {
                FrameKind::FileChunk => PushAction::Write,
                FrameKind::FileEnd => PushAction::Finish,
                _ => PushAction::Fail(HandlerError::PushFrame(kind)),
            }
        },
    }
}

/// The script that writes standard input to a file, after it has said `R` for ready.
pub const PUSH_SCRIPT: &'static str = "exec 3>\"$1\" || exit $?; printf R; exec /system/bin/cat >&3";

/// The script that prints a file.
pub const PULL_SCRIPT: &'static str = "exec /system/bin/cat -- \"$1\"";

/// The script that prints the size of a file.
pub const SIZE_SCRIPT: &'static str = "exec /system/bin/stat -c %s -- \"$1\"";

/// What a program complained of about a file.
pub open spec fn complaint(what: Seq<char>, path: Seq<char>, stderr: Seq<u8>) -> Seq<char> {
    what + path + ": "@ + text::printed(stderr)
}

/// What is said of a program that is to write a file and is not ready.
pub open spec fn ready_fault(path: Seq<char>, answer: Option<u8>, stderr: Seq<u8>) -> Option<
    Seq<char>,
> {
    if answer == Some(82u8) {
        None
    } else if text::printed(stderr).len() > 0 {
        Some(complaint("write "@, path, stderr))
    } else if answer is None {
        Some("open "@ + path + " for push"@)
    } else {
        Some("open "@ + path + " for push did not become ready"@)
    }
}

/// Whether the program that is to write the file is ready, and if not, what is said of it: its
/// own complaint, else that it could not be read from, else that it did not become ready.
pub fn push_ready(path: &str, answer: Option<u8>, stderr: &[u8]) -> (r: Result<(), String>)
    ensures
        match r {
            Ok(_) => ready_fault(path@, answer, stderr@) is None,
            Err(message) => ready_fault(path@, answer, stderr@) == Some(message@),
        },
{
    match answer {
        Some(byte) => {
            if byte == 82 {
                return Ok(());
            }
        },
        None => {},
    }
    let said = text::printed_text(stderr);
    if !said.as_str().is_empty() {
        return Err(text::cat4("write ", path, ": ", said.as_str()));
    }
    match answer {
        None => Err(text::cat3("open ", path, " for push")),
        Some(_) => Err(text::cat3("open ", path, " for push did not become ready")),
    }
}

/// What is said of a file that was not written.
pub open spec fn push_fault(
    path: Seq<char>,
    transferred: bool,
    success: bool,
    stderr: Seq<u8>,
) -> Option<Seq<char>> {
    if transferred && success {
        None
    } else if !transferred && text::printed(stderr).len() == 0 {
        Some("write "@ + path)
    } else {
        Some(complaint("write "@, path, stderr))
    }
}

/// The outcome of a file that a program wrote: a failed transfer is explained by the program's
/// complaint, if it has one, and a complete transfer fails with the program.
pub fn push_outcome(path: &str, transferred: bool, success: bool, stderr: &[u8]) -> (r: Result<
    (),
    String,
>)
    ensures
        match r {
            Ok(_) => push_fault(path@, transferred, success, stderr@) is None,
            Err(message) => push_fault(path@, transferred, success, stderr@) == Some(message@),
        },
{
    let said = text::printed_text(stderr);
    if !transferred {
        if !said.as_str().is_empty() {
            return Err(text::cat4("write ", path, ": ", said.as_str()));
        }
        return Err(text::cat2("write ", path));
    }
    if !success {
        return Err(text::cat4("write ", path, ": ", said.as_str()));
    }
    Ok(())
}

/// What happens while a file is sent.
#[derive(Debug, Clone, Copy, PartialEq, Eq, Structural)]
pub enum PullEvent {
    /// The cancellation flag changed, or its sender is gone (`alive` false).
    CancelChanged { alive: bool, canceled: bool },
    /// So many bytes were read; none at the end.
    Read(usize),
}

/// What is done about it.
#[derive(Debug, Clone, Copy, PartialEq, Eq, Structural)]
pub enum PullAction {
    Send,
    Finish,
    Nothing,
    Fail(HandlerError),
}

pub open spec fn pull_action(stream_id: u32, event: PullEvent) -> PullAction {
    match event {
        PullEvent::CancelChanged { alive, canceled } => if alive && canceled {
            PullAction::Fail(HandlerError::Canceled(stream_id))
        } else {
            PullAction::Nothing
        },
        PullEvent::Read(n) => if n == 0 {
            PullAction::Finish
        } else {
            PullAction::Send
        },
    }
}

pub fn pull_step(stream_id: u32, event: PullEvent) -> (r: PullAction)
    ensures
        r == pull_action(stream_id, event),
{
    match event {
        PullEvent::CancelChanged { alive, canceled } => {
            if alive && canceled {
                PullAction::Fail(HandlerError::Canceled(stream_id))
            } else {
                PullAction::Nothing
            }
        },
        PullEvent::Read(n) => {
            if n == 0 {
                PullAction::Finish
            } else {
                PullAction::Send
            }
        },
    }
}

/// What is said of a file that was not read.
pub open spec fn pull_fault(path: Seq<char>, success: bool, stderr: Seq<u8>) -> Option<Seq<char>> {
    if success {
        None
    } else {
        Some(complaint("read "@, path, stderr))
    }
}

/// The outcome of a file that a program printed.
pub fn pull_outcome(path: &str, success: bool, stderr: &[u8]) -> (r: Result<(), String>)
    ensures
        match r {
            Ok(_) => pull_fault(path@, success, stderr@) is None,
            Err(message) => pull_fault(path@, success, stderr@) == Some(message@),
        },
{
    if !success {
        return Err(text::cat4("read ", path, ": ", text::printed_text(stderr).as_str()));
    }
    Ok(())
}

/// A side of a terminal: never empty.
pub open spec fn shown_size(n: u16) -> u16 {
    if n == 0 {
        1
    } else {
        n
    }
}

/// A terminal is given the size that was asked for, and where a side of that is empty, the least
/// size that is not.
pub proof fn lemma_terminal_is_never_empty(n: u16)
    ensures
        shown_size(n) >= 1,
        shown_size(n) >= n,
        n >= 1 ==> shown_size(n) == n,
        n == 0 ==> shown_size(n) <= 1,
{
}

/// The size that a terminal is given: never empty.
pub fn terminal_size(cols: u16, rows: u16) -> (r: (u16, u16))
    ensures
        r == (shown_size(cols), shown_size(rows)),
{
    (
        if cols == 0 {
            1
        } else {
            cols
        },
        if rows == 0 {
            1
        } else {
            rows
        },
    )
}

/// What happens on the host's side of a terminal.
#[derive(Debug, Clone, Copy, PartialEq, Eq, Structural)]
pub enum PtyEvent {
    /// The terminal has no more output.
    OutputEnded,
    InboxClosed,
    Frame { kind: FrameKind, stream_id: u32 },
}

/// What is done about it.
#[derive(Debug, Clone, Copy, PartialEq, Eq, Structural)]
pub enum PtyAction {
    /// Stop reading input.
    Stop,
    /// Write the payload to the terminal.
    Write,
    /// Give the terminal the size in the payload.
    Resize,
    /// Complete the line in the payload and send the result.
    Complete,
    /// Kill the program and stop reading input.
    Close,
    /// Kill the program and fail.
    Fail(HandlerError),
}

/// What a terminal does about an event.
pub open spec fn terminal_action(stream_id: u32, event: PtyEvent) -> PtyAction {
    match event {
        PtyEvent::OutputEnded => PtyAction::Stop,
        PtyEvent::InboxClosed => PtyAction::Fail(HandlerError::PtyClosed(stream_id)),
        PtyEvent::Frame { kind, stream_id: other } => if other != stream_id {
            PtyAction::Fail(HandlerError::PtyStream(other, stream_id))
        } else {
            match kind {
                FrameKind::PtyInput => PtyAction::Write,
                FrameKind::PtyResize => PtyAction::Resize,
                FrameKind::PtyComplete => PtyAction::Complete,
                FrameKind::PtyClose => PtyAction::Close,
                _ => PtyAction::Fail(HandlerError::PtyFrame(kind)),
            }
        },
    }
}

pub fn pty_step(stream_id: u32, event: PtyEvent) -> (r: PtyAction)
    ensures
        r == terminal_action(stream_id, event),
{
    match event {
        PtyEvent::OutputEnded => PtyAction::Stop,
        PtyEvent::InboxClosed => PtyAction::Fail(HandlerError::PtyClosed(stream_id)),
        PtyEvent::Frame { kind, stream_id: other } => {
            if other != stream_id {
                return PtyAction::Fail(HandlerError::PtyStream(other, stream_id));
            }
            match kind {
                FrameKind::PtyInput => PtyAction::Write,
                FrameKind::PtyResize => PtyAction::Resize,
                FrameKind::PtyComplete => PtyAction::Complete,
                FrameKind::PtyClose => PtyAction::Close,
                _ => PtyAction::Fail(HandlerError::PtyFrame(kind)),
            }
        },
    }
}

/// What a read of the terminal gave.
#[derive(Debug, Clone, Copy, PartialEq, Eq, Structural)]
pub enum PtyRead {
    Bytes(usize),
    /// The error that a terminal gives once no program holds it any more.
    HungUp,
    Failed,
}

/// What is done with it.
#[derive(Debug, Clone, Copy, PartialEq, Eq, Structural)]
pub enum PtyOutput {
    Send,
    /// No more output; the input side is told.
    End,
    /// The input side is told, and the handler fails.
    Fail,
}

pub open spec fn output_of_terminal(read: PtyRead) -> PtyOutput {
    match read {
        PtyRead::Bytes(n) => if n == 0 {
            PtyOutput::End
        } else {
            PtyOutput::Send
        },
        PtyRead::HungUp => PtyOutput::End,
        PtyRead::Failed => PtyOutput::Fail,
    }
}

pub fn pty_output(read: PtyRead) -> (r: PtyOutput)
    ensures
        r == output_of_terminal(read),
{
    match read {
        PtyRead::Bytes(n) => {
            if n == 0 {
                PtyOutput::End
            } else {
                PtyOutput::Send
            }
        },
        PtyRead::HungUp => PtyOutput::End,
        PtyRead::Failed => PtyOutput::Fail,
    }
}

/// How a terminal ended, from how its two sides did.
pub open spec fn both_sides(input: Result<(), String>, output: Result<(), String>) -> Result<
    (),
    String,
> {
    match input {
        Err(e) => Err(e),
        Ok(_) => output,
    }
}

/// What a failing request is called, from the first thing that failed: the input, then the
/// output.
pub fn pty_outcome(input: Result<(), String>, output: Result<(), String>) -> (r: Result<(), String>)
    ensures
        r == both_sides(input, output),
{
    match input {
        Err(e) => Err(e),
        Ok(()) => output,
    }
}

/// How one proxied connection is protected.
pub enum ProxyPlan {
    /// A Noise session on the side of the peer, as the initiator or the responder, bound to the
    /// prologue.
    Noise { initiator: bool, prologue: Vec<u8> },
    /// The token in clear, expected from the peer.
    ExpectToken,
    /// The token in clear, sent to the peer.
    SendToken,
}

/// One end of a proxied connection.
pub enum ProxyEnd {
    Noise { initiator: bool, prologue: Seq<u8> },
    ExpectToken,
    SendToken,
}

impl ProxyPlan {
    pub open spec fn end(self) -> ProxyEnd {
        match self {
            ProxyPlan::Noise { initiator, prologue } => ProxyEnd::Noise {
                initiator,
                prologue: prologue@,
            },
            ProxyPlan::ExpectToken => ProxyEnd::ExpectToken,
            ProxyPlan::SendToken => ProxyEnd::SendToken,
        }
    }
}

/// What a proxied connection is bound to.
pub open spec fn proxy_binding(mode: ProxyTokenMode, token: Seq<u8>) -> Seq<u8> {
    vstd::utf8::encode_utf8(
        security::proxy_prologue_text(
            token,
            if mode == ProxyTokenMode::Expect {
                "forward"@
            } else {
                "reverse"@
            },
        ),
    )
}

/// The device's end of a proxied connection.
pub open spec fn device_end(mode: ProxyTokenMode, encrypted: bool, token: Seq<u8>) -> ProxyEnd {
    if encrypted {
        ProxyEnd::Noise {
            initiator: mode == ProxyTokenMode::Send,
            prologue: proxy_binding(mode, token),
        }
    } else if mode == ProxyTokenMode::Expect {
        ProxyEnd::ExpectToken
    } else {
        ProxyEnd::SendToken
    }
}

/// Encrypted sessions protect their proxies with the same secret; the side that expects the
/// token answers, the side that sends it asks.
pub fn proxy_plan(mode: ProxyTokenMode, encrypted: bool, token: &[u8]) -> (r: ProxyPlan)
    ensures
        r.end() == device_end(mode, encrypted, token@),
{
    match mode {
        ProxyTokenMode::Expect => {
            if encrypted {
                ProxyPlan::Noise {
                    initiator: false,
                    prologue: security::proxy_prologue(token, "forward"),
                }
            } else {
                ProxyPlan::ExpectToken
            }
        },
        ProxyTokenMode::Send => {
            if encrypted {
                ProxyPlan::Noise {
                    initiator: true,
                    prologue: security::proxy_prologue(token, "reverse"),
                }
            } else {
                ProxyPlan::SendToken
            }
        },
    }
}

/// Whether a connection that presents a token is the one that was waited for.
pub open spec fn token_taken(received: Seq<u8>, token: Seq<u8>) -> bool {
    received == token
}

/// A connection that presents any other token is refused.
pub fn check_proxy_token(received: &[u8], token: &[u8]) -> (r: Result<(), HandlerError>)
    ensures
        r is Ok <==> token_taken(received@, token@),
        r matches Err(e) ==> e == HandlerError::ProxyToken,
{
    if bytes::same(received, token) {
        Ok(())
    } else {
        Err(HandlerError::ProxyToken)
    }
}

/// A grant is sent once half a window was taken, and not before; it grants all that was taken
/// since the last, to the byte.
pub proof fn lemma_grants_are_of_half_a_window(consumed: nat, bytes: nat)
    ensures
        window_after(consumed, bytes).0 is Some <==> 2 * (consumed + bytes) >= FILE_FLOW_WINDOW,
        window_after(consumed, bytes).0 matches Some(n) ==> n == consumed + bytes && window_after(
            consumed,
            bytes,
        ).1 == 0,
        window_after(consumed, bytes).0 is None ==> window_after(consumed, bytes).1 == consumed
            + bytes,
{
}

/// Whether a text ends with another.
pub open spec fn ends_with(s: Seq<char>, end: Seq<char>) -> bool {
    end.len() <= s.len() && s.skip(s.len() - end.len()) == end
}

/// A file counts as moved only if all of it was moved and the program that moved it succeeded.
/// Where it was not, what the program complained of is always passed on, and the path is named.
pub proof fn lemma_complaints_are_passed_on(
    path: Seq<char>,
    answer: Option<u8>,
    transferred: bool,
    success: bool,
    stderr: Seq<u8>,
)
    ensures
        ready_fault(path, answer, stderr) is None <==> answer == Some('R' as u8),
        push_fault(path, transferred, success, stderr) is None <==> transferred && success,
        pull_fault(path, success, stderr) is None <==> success,
        text::printed(stderr).len() > 0 ==> {
            let said = ": "@ + text::printed(stderr);
            &&& ready_fault(path, answer, stderr) matches Some(message) ==> ends_with(
                message,
                path + said,
            )
            &&& push_fault(path, transferred, success, stderr) matches Some(message) ==> ends_with(
                message,
                path + said,
            )
            &&& pull_fault(path, success, stderr) matches Some(message) ==> ends_with(
                message,
                path + said,
            )
        },
        text::printed(stderr).len() == 0 && !transferred ==> (push_fault(
            path,
            transferred,
            success,
            stderr,
        ) matches Some(message) && ends_with(message, path)),
{
    let tail = path + (": "@ + text::printed(stderr));
    let w = complaint("write "@, path, stderr);
    let r = complaint("read "@, path, stderr);
    assert(w.skip(w.len() - tail.len()) =~= tail);
    assert(r.skip(r.len() - tail.len()) =~= tail);
    let short = "write "@ + path;
    assert(short.skip(short.len() - path.len()) =~= path);
}

/// A terminal ended well only if both of its sides did, and otherwise with the failure of one of
/// them: of its input, if that failed.
pub proof fn lemma_terminal_fails_with_either_side(
    input: Result<(), String>,
    output: Result<(), String>,
)
    ensures
        both_sides(input, output) is Ok <==> input is Ok && output is Ok,
        input is Err ==> both_sides(input, output) == input,
        input is Ok && output is Err ==> both_sides(input, output) == output,
{
}

/// A file that is received takes what a host sends of a file on its own stream and nothing else:
/// its chunks are written, its end completes it. Whatever else happens fails it.
pub proof fn lemma_only_file_frames_are_taken(stream_id: u32, event: PushEvent)
    ensures
        push_action(stream_id, event) == PushAction::Write <==> event == (PushEvent::Frame {
            kind: FrameKind::FileChunk,
            stream_id,
        }),
        push_action(stream_id, event) == PushAction::Finish <==> event == (PushEvent::Frame {
            kind: FrameKind::FileEnd,
            stream_id,
        }),
        push_action(stream_id, PushEvent::Canceled) == PushAction::Fail(
            HandlerError::Canceled(stream_id),
        ),
{
}

/// A file that is sent, a command and a terminal treat what they read alike: bytes are sent, and
/// none means the end. A canceled file or command fails with the cancellation of its stream; that
/// nobody is left to cancel it does not matter to either.
pub proof fn lemma_reads_are_treated_alike(
    stream_id: u32,
    n: usize,
    alive: bool,
    canceled: bool,
    streams: ExecStreams,
)
    ensures
        pull_action(stream_id, PullEvent::Read(n)) == PullAction::Send <==> n > 0,
        pull_action(stream_id, PullEvent::Read(n)) == PullAction::Finish <==> n == 0,
        output_of_terminal(PtyRead::Bytes(n)) == PtyOutput::Send <==> n > 0,
        output_of_terminal(PtyRead::Bytes(n)) == PtyOutput::End <==> n == 0,
        streams.after(stream_id, ExecEvent::Stdout(n)).0 is Send <==> n > 0,
        streams.after(stream_id, ExecEvent::Stderr(n)).0 is Send <==> n > 0,
        output_of_terminal(PtyRead::HungUp) == PtyOutput::End,
        output_of_terminal(PtyRead::Failed) == PtyOutput::Fail,
        pull_action(stream_id, PullEvent::CancelChanged { alive, canceled }) is Fail <==> alive
            && canceled,
        streams.after(stream_id, ExecEvent::CancelChanged { alive, canceled }).0 is Kill <==> alive
            && canceled,
        pull_action(stream_id, PullEvent::CancelChanged { alive, canceled }) matches PullAction::Fail(
            e,
        ) ==> e == HandlerError::Canceled(stream_id),
        streams.after(stream_id, ExecEvent::CancelChanged { alive, canceled }).1 == streams,
{
}

} // verus!
