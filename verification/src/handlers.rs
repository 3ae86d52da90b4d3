//! The course of a request on the device: what has to happen before what, from the request to the
//! last frame of its stream.

use vstd::prelude::*;
use crate::device;
use crate::device::{
    account_file_window, pty_output, pty_step, pull_step, push_step, HandlerError, PtyAction,
    PtyEvent, PtyOutput, PtyRead, PullAction, PullEvent, PushAction, PushEvent, FILE_FLOW_WINDOW,
};
use crate::frame::FrameKind;

verus! {

/// How far a file is received.
#[derive(Debug, Clone, Copy, PartialEq, Eq, Structural)]
pub enum PushStage {
    /// The file is being opened.
    Opening,
    /// Chunks are written; so many bytes were taken since the last grant.
    Receiving { consumed: usize },
    /// The file is being closed.
    Closing,
    Ended,
}

/// What happens while a file is received.
#[derive(Debug, Clone, Copy, PartialEq, Eq, Structural)]
pub enum PushInput {
    /// The file was created, or the program that writes it is ready.
    Opened,
    Canceled,
    InboxClosed,
    /// A frame of the host, with so many bytes.
    Frame { kind: FrameKind, stream_id: u32, len: usize },
    /// The file was closed, and the program that wrote it succeeded.
    Closed,
    /// The file could not be opened, written or closed.
    FileFailed,
}

/// What is done about it.
#[derive(Debug, Clone, Copy, PartialEq, Eq, Structural)]
pub enum PushOutput {
    /// Tell the host that the file is open, and grant it a first window.
    Begin { window: usize },
    /// Write the payload, then grant the host more, if it is due.
    Write { grant: Option<usize> },
    /// Write the payload, then fail.
    WriteAndFail(HandlerError),
    /// Close the file.
    Close,
    /// Tell the host that the file is complete.
    Acknowledge,
    /// Give the file up, and fail.
    Fail(HandlerError),
    /// Give the file up, and fail with what went wrong with it.
    Abandon,
}

/// One request to receive a file.
#[derive(Debug, Clone, Copy, PartialEq, Eq, Structural)]
pub struct PushHandler {
    pub stream_id: u32,
    pub stage: PushStage,
}

impl PushHandler {
    /// Whether something can happen at this stage: a file that is opened or closed is not yet,
    /// or no longer, written.
    pub open spec fn can(self, input: PushInput) -> bool {
        match self.stage {
            PushStage::Opening => input is Opened || input is Canceled || input is FileFailed,
            PushStage::Receiving { .. } => !(input is Opened || input is Closed),
            PushStage::Closing => input is Closed || input is FileFailed,
            PushStage::Ended => false,
        }
    }

    pub open spec fn after(self, input: PushInput) -> (PushOutput, PushHandler) {
        let ended = PushHandler { stage: PushStage::Ended, ..self };
        match input {
            PushInput::Opened => (
                PushOutput::Begin { window: FILE_FLOW_WINDOW },
                PushHandler { stage: PushStage::Receiving { consumed: 0 }, ..self },
            ),
            PushInput::Canceled => (
                PushOutput::Fail(HandlerError::Canceled(self.stream_id)),
                ended,
            ),
            PushInput::InboxClosed => (PushOutput::Fail(HandlerError::PushClosed), ended),
            PushInput::Frame { kind, stream_id, len } => if stream_id != self.stream_id {
                (PushOutput::Fail(HandlerError::PushStream(stream_id)), ended)
            } else if kind == FrameKind::FileEnd {
                (PushOutput::Close, PushHandler { stage: PushStage::Closing, ..self })
            } else if kind != FrameKind::FileChunk {
                (PushOutput::Fail(HandlerError::PushFrame(kind)), ended)
            } else {
                let consumed = self.stage->consumed;
                if consumed + len > usize::MAX {
                    (PushOutput::WriteAndFail(HandlerError::WindowOverflow), ended)
                } else {
                    let (due, rest) = device::window_after(consumed as nat, len as nat);
                    (
                        PushOutput::Write {
                            grant: match due {
                                Some(n) => Some(n as usize),
                                None => None,
                            },
                        },
                        PushHandler {
                            stage: PushStage::Receiving { consumed: rest as usize },
                            ..self
                        },
                    )
                }
            },
            PushInput::Closed => (PushOutput::Acknowledge, ended),
            PushInput::FileFailed => (PushOutput::Abandon, ended),
        }
    }

    pub fn new(stream_id: u32) -> (r: PushHandler)
        ensures
            r == (PushHandler { stream_id, stage: PushStage::Opening }),
    {
        PushHandler { stream_id, stage: PushStage::Opening }
    }

    pub fn step(&mut self, input: PushInput) -> (r: PushOutput)
        requires
            old(self).can(input),
        ensures
            (r, *final(self)) == old(self).after(input),
    {
        match input {
            PushInput::Opened => {
                self.stage = PushStage::Receiving { consumed: 0 };
                PushOutput::Begin { window: FILE_FLOW_WINDOW }
            },
            PushInput::Canceled => {
                self.stage = PushStage::Ended;
                PushOutput::Fail(HandlerError::Canceled(self.stream_id))
            },
            PushInput::InboxClosed => {
                self.stage = PushStage::Ended;
                PushOutput::Fail(HandlerError::PushClosed)
            },
            PushInput::Frame { kind, stream_id, len } => match push_step(
                self.stream_id,
                PushEvent::Frame { kind, stream_id },
            ) {
                PushAction::Fail(e) => {
                    self.stage = PushStage::Ended;
                    PushOutput::Fail(e)
                },
                PushAction::Finish => {
                    self.stage = PushStage::Closing;
                    PushOutput::Close
                },
                PushAction::Write => {
                    let mut consumed: usize = match self.stage {
                        PushStage::Receiving { consumed } => consumed,
                        _ => 0,
                    };
                    match account_file_window(&mut consumed, len) {
                        Ok(grant) => {
                            self.stage = PushStage::Receiving { consumed };
                            PushOutput::Write { grant }
                        },
                        Err(e) => {
                            self.stage = PushStage::Ended;
                            PushOutput::WriteAndFail(e)
                        },
                    }
                },
            },
            PushInput::Closed => {
                self.stage = PushStage::Ended;
                PushOutput::Acknowledge
            },
            PushInput::FileFailed => {
                self.stage = PushStage::Ended;
                PushOutput::Abandon
            },
        }
    }
}

/// Whether things can happen in an order, and where they lead.
pub open spec fn push_run(start: PushHandler, inputs: Seq<PushInput>) -> Option<PushHandler>
    decreases inputs.len(),
{
    if inputs.len() == 0 {
        Some(start)
    } else {
        match push_run(start, inputs.drop_last()) {
            Some(before) if before.can(inputs.last()) => Some(before.after(inputs.last()).1),
            _ => None,
        }
    }
}

/// Whether a frame ends the file of a stream.
pub open spec fn ends_file(input: PushInput, stream_id: u32) -> bool {
    input matches PushInput::Frame { kind, stream_id: id, .. } && kind == FrameKind::FileEnd && id
        == stream_id
}

proof fn lemma_push_stages(stream_id: u32, inputs: Seq<PushInput>)
    requires
        push_run(PushHandler { stream_id, stage: PushStage::Opening }, inputs) is Some,
    ensures
        ({
            let now = push_run(PushHandler { stream_id, stage: PushStage::Opening }, inputs)->0;
            &&& now.stream_id == stream_id
            &&& (now.stage is Receiving || now.stage is Closing) ==> inputs.len() > 0 && inputs[0]
                == PushInput::Opened
            &&& now.stage is Closing ==> ends_file(inputs.last(), stream_id)
            &&& now.stage is Opening ==> inputs.len() == 0
        }),
    decreases inputs.len(),
{
    if inputs.len() > 0 {
        lemma_push_stages(stream_id, inputs.drop_last());
        if inputs.len() > 1 {
            assert(inputs.drop_last()[0] == inputs[0]);
        }
    }
}

/// A host is told that its file is complete only after the file was opened, its end had come, and
/// it was closed without error.
pub proof fn lemma_push_acknowledged_when_complete(
    stream_id: u32,
    inputs: Seq<PushInput>,
    last: PushInput,
)
    requires
        ({
            let before = push_run(PushHandler { stream_id, stage: PushStage::Opening }, inputs);
            before is Some && (before->0).can(last) && (before->0).after(last).0
                == PushOutput::Acknowledge
        }),
    ensures
        last == PushInput::Closed,
        inputs.len() >= 2,
        inputs[0] == PushInput::Opened,
        ends_file(inputs.last(), stream_id),
{
    lemma_push_stages(stream_id, inputs);
    if inputs.len() == 1 {
        assert(inputs.last() == inputs[0]);
    }
}

/// How far a file is sent.
#[derive(Debug, Clone, Copy, PartialEq, Eq, Structural)]
pub enum PullStage {
    /// The file is being opened and its size is asked for.
    Opening,
    Sending,
    /// The program that reads the file is to succeed.
    Closing,
    Ended,
}

/// What happens while a file is sent.
#[derive(Debug, Clone, Copy, PartialEq, Eq, Structural)]
pub enum PullInput {
    /// The file is open, and has a size.
    Opened { size: u64 },
    /// The cancellation flag changed, or its sender is gone (`alive` false).
    CancelChanged { alive: bool, canceled: bool },
    /// So many bytes were read; none at the end.
    Read(usize),
    /// The program that read the file succeeded.
    Closed,
    /// The file could not be opened or read.
    FileFailed,
}

/// What is done about it.
#[derive(Debug, Clone, Copy, PartialEq, Eq, Structural)]
pub enum PullOutput {
    /// Tell the host the size.
    Announce { size: u64 },
    /// Send what was read.
    Chunk,
    /// Close the file.
    Close,
    /// Tell the host that the file is complete.
    End,
    Nothing,
    /// Give the file up, and fail.
    Fail(HandlerError),
    /// Give the file up, and fail with what went wrong with it.
    Abandon,
}

impl PullOutput {
    /// The frame that goes to the host.
    pub open spec fn frame(self) -> Option<FrameKind> {
        match self {
            PullOutput::Announce { .. } => Some(FrameKind::FileMeta),
            PullOutput::Chunk => Some(FrameKind::FileChunk),
            PullOutput::End => Some(FrameKind::FileEnd),
            _ => None,
        }
    }
}

/// One request to send a file.
#[derive(Debug, Clone, Copy, PartialEq, Eq, Structural)]
pub struct PullHandler {
    pub stream_id: u32,
    pub stage: PullStage,
}

impl PullHandler {
    /// Whether something can happen at this stage.
    pub open spec fn can(self, input: PullInput) -> bool {
        match self.stage {
            PullStage::Opening => input is Opened || input is FileFailed,
            PullStage::Sending => input is Read || input is CancelChanged || input is FileFailed,
            PullStage::Closing => input is Closed || input is FileFailed,
            PullStage::Ended => false,
        }
    }

    pub open spec fn after(self, input: PullInput) -> (PullOutput, PullHandler) {
        let ended = PullHandler { stage: PullStage::Ended, ..self };
        match input {
            PullInput::Opened { size } => (
                PullOutput::Announce { size },
                PullHandler { stage: PullStage::Sending, ..self },
            ),
            PullInput::CancelChanged { alive, canceled } => if alive && canceled {
                (PullOutput::Fail(HandlerError::Canceled(self.stream_id)), ended)
            } else {
                (PullOutput::Nothing, self)
            },
            PullInput::Read(n) => if n == 0 {
                (PullOutput::Close, PullHandler { stage: PullStage::Closing, ..self })
            } else {
                (PullOutput::Chunk, self)
            },
            PullInput::Closed => (PullOutput::End, ended),
            PullInput::FileFailed => (PullOutput::Abandon, ended),
        }
    }

    pub fn new(stream_id: u32) -> (r: PullHandler)
        ensures
            r == (PullHandler { stream_id, stage: PullStage::Opening }),
    {
        PullHandler { stream_id, stage: PullStage::Opening }
    }

    pub fn step(&mut self, input: PullInput) -> (r: PullOutput)
        requires
            old(self).can(input),
        ensures
            (r, *final(self)) == old(self).after(input),
    {
        match input {
            PullInput::Opened { size } => {
                self.stage = PullStage::Sending;
                PullOutput::Announce { size }
            },
            PullInput::CancelChanged { alive, canceled } => match pull_step(
                self.stream_id,
                PullEvent::CancelChanged { alive, canceled },
            ) {
                PullAction::Fail(e) => {
                    self.stage = PullStage::Ended;
                    PullOutput::Fail(e)
                },
                _ => PullOutput::Nothing,
            },
            PullInput::Read(n) => match pull_step(self.stream_id, PullEvent::Read(n)) {
                PullAction::Finish => {
                    self.stage = PullStage::Closing;
                    PullOutput::Close
                },
                _ => PullOutput::Chunk,
            },
            PullInput::Closed => {
                self.stage = PullStage::Ended;
                PullOutput::End
            },
            PullInput::FileFailed => {
                self.stage = PullStage::Ended;
                PullOutput::Abandon
            },
        }
    }
}

/// The frames that a request sends while things happen in an order; `None` where they cannot.
pub open spec fn pull_run(start: PullHandler, inputs: Seq<PullInput>) -> Option<
    (PullHandler, Seq<FrameKind>),
>
    decreases inputs.len(),
{
    if inputs.len() == 0 {
        Some((start, Seq::empty()))
    } else {
        match pull_run(start, inputs.drop_last()) {
            Some(before) if before.0.can(inputs.last()) => {
                let (output, now) = before.0.after(inputs.last());
                Some(
                    (
                        now,
                        match output.frame() {
                            Some(kind) => before.1.push(kind),
                            None => before.1,
                        },
                    ),
                )
            },
            _ => None,
        }
    }
}

/// Whether frames are a file, as far as it goes: the size, then chunks, then possibly the end.
pub open spec fn is_file_so_far(frames: Seq<FrameKind>) -> bool {
    forall|i: int|
        0 <= i < frames.len() ==> #[trigger] frames[i] == if i == 0 {
            FrameKind::FileMeta
        } else if i == frames.len() - 1 && frames[i] == FrameKind::FileEnd {
            FrameKind::FileEnd
        } else {
            FrameKind::FileChunk
        }
}

/// Whatever happens, a host sees the size first, then chunks, and at most one end, which is the
/// last frame.
pub proof fn lemma_pull_sends_a_file(stream_id: u32, inputs: Seq<PullInput>)
    requires
        pull_run(PullHandler { stream_id, stage: PullStage::Opening }, inputs) is Some,
    ensures
        ({
            let (now, frames) = pull_run(
                PullHandler { stream_id, stage: PullStage::Opening },
                inputs,
            )->0;
            &&& is_file_so_far(frames)
            &&& now.stage is Opening ==> frames.len() == 0
            &&& (now.stage is Sending || now.stage is Closing) ==> frames.len() > 0
                && frames.last() != FrameKind::FileEnd
        }),
    decreases inputs.len(),
{
    let start = PullHandler { stream_id, stage: PullStage::Opening };
    if inputs.len() > 0 {
        lemma_pull_sends_a_file(stream_id, inputs.drop_last());
        let (before, sent) = pull_run(start, inputs.drop_last())->0;
        let (now, frames) = pull_run(start, inputs)->0;
        if frames.len() > sent.len() {
            assert forall|i: int| 0 <= i < frames.len() implies #[trigger] frames[i] == if i == 0 {
                FrameKind::FileMeta
            } else if i == frames.len() - 1 && frames[i] == FrameKind::FileEnd {
                FrameKind::FileEnd
            } else {
                FrameKind::FileChunk
            } by {
                if i < sent.len() {
                    assert(frames[i] == sent[i]);
                    assert(sent[sent.len() - 1] != FrameKind::FileEnd);
                }
            }
        }
    }
}

/// A terminal on the device: its two halves, and whether its output has told its input to stop.
#[derive(Debug, Clone, Copy, PartialEq, Eq, Structural)]
pub struct PtyHandler {
    pub stream_id: u32,
    /// Frames of the host are read.
    pub input_open: bool,
    /// Output is read.
    pub output_open: bool,
    /// The input is to stop.
    pub stopping: bool,
}

/// What happens to a terminal.
#[derive(Debug, Clone, Copy, PartialEq, Eq, Structural)]
pub enum PtyInput {
    /// The terminal was read.
    Read(PtyRead),
    /// The output could not be sent.
    SendFailed,
    /// The host's side of the terminal.
    Host(PtyEvent),
    /// What the host asked for could not be done.
    InputFailed,
}

/// What is done about it.
#[derive(Debug, Clone, Copy, PartialEq, Eq, Structural)]
pub enum PtyHandled {
    /// Send what was read.
    Send,
    /// The output has ended.
    OutputEnds,
    /// The output has failed; with `kill`, the program is killed.
    OutputFails { kill: bool },
    /// This is done for the host.
    Input(PtyAction),
    /// The input has failed.
    InputFails,
}

/// Whether the input goes on after something was done for the host.
pub open spec fn goes_on(action: PtyAction) -> bool {
    action == PtyAction::Write || action == PtyAction::Resize || action == PtyAction::Complete
}

impl PtyHandler {
    /// Whether something can happen: each half only while it is open, and the end of the output
    /// is told to the input only once there is one.
    pub open spec fn can(self, input: PtyInput) -> bool {
        match input {
            PtyInput::Read(_) => self.output_open,
            PtyInput::SendFailed => self.output_open,
            PtyInput::Host(event) => self.input_open && (event is OutputEnded ==> self.stopping),
            PtyInput::InputFailed => self.input_open,
        }
    }

    /// What is done about something that happens, and what the terminal is then.
    pub open spec fn after(self, input: PtyInput) -> (PtyHandled, PtyHandler) {
        match input {
            PtyInput::Read(read) => {
                let ended = PtyHandler { output_open: false, stopping: true, ..self };
                match read {
                    PtyRead::Bytes(n) => if n == 0 {
                        (PtyHandled::OutputEnds, ended)
                    } else {
                        (PtyHandled::Send, self)
                    },
                    PtyRead::HungUp => (PtyHandled::OutputEnds, ended),
                    PtyRead::Failed => (PtyHandled::OutputFails { kill: false }, ended),
                }
            },
            PtyInput::SendFailed => (
                PtyHandled::OutputFails { kill: true },
                PtyHandler { output_open: false, ..self },
            ),
            PtyInput::Host(event) => {
                let action = device::terminal_action(self.stream_id, event);
                (
                    PtyHandled::Input(action),
                    PtyHandler { input_open: goes_on(action), ..self },
                )
            },
            PtyInput::InputFailed => (
                PtyHandled::InputFails,
                PtyHandler { input_open: false, ..self },
            ),
        }
    }

    /// Nothing more can happen to the terminal.
    pub open spec fn over(self) -> bool {
        !self.input_open && !self.output_open
    }

    pub fn new(stream_id: u32) -> (r: PtyHandler)
        ensures
            r == (PtyHandler { stream_id, input_open: true, output_open: true, stopping: false }),
    {
        PtyHandler { stream_id, input_open: true, output_open: true, stopping: false }
    }

    /// Whether the program is to be waited for, and its end told to the host.
    pub fn finished(self) -> (r: bool)
        ensures
            r == self.over(),
    {
        !self.input_open && !self.output_open
    }

    pub fn step(&mut self, input: PtyInput) -> (r: PtyHandled)
        requires
            old(self).can(input),
        ensures
            (r, *final(self)) == old(self).after(input),
    {
        match input {
            PtyInput::Read(read) => match pty_output(read) {
                PtyOutput::Send => PtyHandled::Send,
                PtyOutput::End => {
                    self.output_open = false;
                    self.stopping = true;
                    PtyHandled::OutputEnds
                },
                PtyOutput::Fail => {
                    self.output_open = false;
                    self.stopping = true;
                    PtyHandled::OutputFails { kill: false }
                },
            },
            PtyInput::SendFailed => {
                self.output_open = false;
                PtyHandled::OutputFails { kill: true }
            },
            PtyInput::Host(event) => {
                let action = pty_step(self.stream_id, event);
                match action {
                    PtyAction::Write | PtyAction::Resize | PtyAction::Complete => {},
                    _ => {
                        self.input_open = false;
                    },
                }
                PtyHandled::Input(action)
            },
            PtyInput::InputFailed => {
                self.input_open = false;
                PtyHandled::InputFails
            },
        }
    }
}

/// What a terminal prints is sent as long as it prints; its end is told to the input, which then
/// stops, and with that the terminal is over and not before. A host that writes, resizes or
/// completes keeps its terminal; one that closes it ends the input alone.
pub proof fn lemma_terminal_runs_until_its_end(terminal: PtyHandler, n: usize, kind: FrameKind)
    requires
        terminal.input_open,
        terminal.output_open,
    ensures
        ({
            let printed = terminal.after(PtyInput::Read(PtyRead::Bytes(n)));
            let ended = terminal.after(PtyInput::Read(PtyRead::HungUp)).1;
            let sent = terminal.after(
                PtyInput::Host(PtyEvent::Frame { kind, stream_id: terminal.stream_id }),
            );
            &&& printed.0 is Send <==> n > 0
            &&& printed.1.output_open <==> n > 0
            &&& n > 0 ==> printed.1 == terminal
            &&& !ended.over() && ended.can(PtyInput::Host(PtyEvent::OutputEnded))
            &&& ended.after(PtyInput::Host(PtyEvent::OutputEnded)).1.over()
            &&& sent.1.input_open <==> kind == FrameKind::PtyInput || kind == FrameKind::PtyResize
                || kind == FrameKind::PtyComplete
            &&& sent.1.output_open
            &&& !sent.1.over()
            &&& kind == FrameKind::PtyClose ==> sent.0 == PtyHandled::Input(PtyAction::Close)
        }),
{
}

/// The frames of a file in chunks of the given lengths.
pub open spec fn chunk_inputs(stream_id: u32, lens: Seq<usize>) -> Seq<PushInput> {
    seq![PushInput::Opened] + lens.map_values(
        |len: usize| PushInput::Frame { kind: FrameKind::FileChunk, stream_id, len },
    )
}

proof fn lemma_chunks_are_taken(stream_id: u32, lens: Seq<usize>)
    requires
        forall|i: int| 0 <= i < lens.len() ==> #[trigger] lens[i] <= 16777216,
    ensures
        push_run(
            PushHandler { stream_id, stage: PushStage::Opening },
            chunk_inputs(stream_id, lens),
        ) matches Some(now) && now.stream_id == stream_id && (now.stage matches
            PushStage::Receiving { consumed } && consumed < device::FILE_FLOW_UPDATE_THRESHOLD),
    decreases lens.len(),
{
    let start = PushHandler { stream_id, stage: PushStage::Opening };
    let inputs = chunk_inputs(stream_id, lens);
    if lens.len() == 0 {
        assert(inputs =~= seq![PushInput::Opened]);
        assert(inputs.drop_last() =~= Seq::<PushInput>::empty());
        assert(push_run(start, inputs.drop_last()) == Some(start));
    } else {
        lemma_chunks_are_taken(stream_id, lens.drop_last());
        assert(inputs.drop_last() =~= chunk_inputs(stream_id, lens.drop_last()));
        assert(lens[lens.len() - 1] <= 16777216);
    }
}

/// A file whose chunks all come, and then its end, is written chunk by chunk, closed, and once it
/// is closed, acknowledged, however many chunks there are and however long they are.
pub proof fn lemma_whole_file_is_acknowledged(stream_id: u32, lens: Seq<usize>, len: usize)
    requires
        forall|i: int| 0 <= i < lens.len() ==> #[trigger] lens[i] <= 16777216,
        len <= 16777216,
    ensures
        ({
            let start = PushHandler { stream_id, stage: PushStage::Opening };
            let begun = start.after(PushInput::Opened);
            let receiving = push_run(start, chunk_inputs(stream_id, lens))->0;
            let chunk = PushInput::Frame { kind: FrameKind::FileChunk, stream_id, len };
            let end = PushInput::Frame { kind: FrameKind::FileEnd, stream_id, len: 0 };
            let closing = receiving.after(end);
            &&& begun.0 is Begin
            &&& push_run(start, chunk_inputs(stream_id, lens)) is Some
            &&& receiving.can(chunk) && receiving.after(chunk).0 is Write
            &&& receiving.can(end) && closing.0 is Close
            &&& closing.1.can(PushInput::Closed)
            &&& closing.1.after(PushInput::Closed).0 is Acknowledge
            &&& closing.1.after(PushInput::Closed).1.stage is Ended
        }),
{
    lemma_chunks_are_taken(stream_id, lens);
}

/// What a request to send a file goes through when nothing goes wrong.
pub open spec fn read_inputs(size: u64, reads: Seq<usize>) -> Seq<PullInput> {
    seq![PullInput::Opened { size }] + reads.map_values(|n: usize| PullInput::Read(n))
}

/// A file that is read to its end is announced with its size, sent with one frame for every read,
/// and ended once its reader has succeeded; a stream that is canceled meanwhile fails.
pub proof fn lemma_whole_file_is_sent(stream_id: u32, size: u64, reads: Seq<usize>)
    requires
        forall|i: int| 0 <= i < reads.len() ==> #[trigger] reads[i] > 0,
    ensures
        ({
            let start = PullHandler { stream_id, stage: PullStage::Opening };
            let run = pull_run(start, read_inputs(size, reads));
            let sending = (run->0).0;
            let closing = sending.after(PullInput::Read(0)).1;
            let canceled = sending.after(
                PullInput::CancelChanged { alive: true, canceled: true },
            );
            &&& start.after(PullInput::Opened { size }).0 == (PullOutput::Announce { size })
            &&& run is Some
            &&& (run->0).1.len() == 1 + reads.len()
            &&& (run->0).1[0] == FrameKind::FileMeta
            &&& forall|i: int|
                1 <= i < (run->0).1.len() ==> #[trigger] (run->0).1[i] == FrameKind::FileChunk
            &&& sending.can(PullInput::Read(0))
            &&& sending.after(PullInput::Read(0)).0.frame() is None
            &&& closing.can(PullInput::Closed)
            &&& closing.after(PullInput::Closed).0.frame() == Some(FrameKind::FileEnd)
            &&& canceled.0 == PullOutput::Fail(HandlerError::Canceled(stream_id))
            &&& canceled.1.stage is Ended
        }),
    decreases reads.len(),
{
    let start = PullHandler { stream_id, stage: PullStage::Opening };
    let inputs = read_inputs(size, reads);
    if reads.len() == 0 {
        assert(inputs =~= seq![PullInput::Opened { size }]);
        assert(inputs.drop_last() =~= Seq::<PullInput>::empty());
        assert(pull_run(start, inputs.drop_last()) == Some((start, Seq::<FrameKind>::empty())));
    } else {
        assert forall|i: int| 0 <= i < reads.drop_last().len() implies #[trigger] reads.drop_last()[i]
            > 0 by {
            assert(reads.drop_last()[i] == reads[i]);
        }
        lemma_whole_file_is_sent(stream_id, size, reads.drop_last());
        assert(inputs.drop_last() =~= read_inputs(size, reads.drop_last()));
        assert(reads[reads.len() - 1] > 0);
    }
}

} // verus!
