use sidewire::device::{HandlerError, PtyAction, PtyEvent, PtyRead};
use sidewire::frame::FrameKind;
use sidewire::handlers::{
    PtyHandled, PtyHandler, PtyInput, PullHandler, PullInput, PullOutput, PullStage, PushHandler,
    PushInput, PushOutput, PushStage,
};
use sidewire::proxies::ProxyTable;
use sidewire::serve::ServeError;

fn chunk(stream_id: u32, len: usize) -> PushInput {
    PushInput::Frame { kind: FrameKind::FileChunk, stream_id, len }
}

#[test]
fn push_is_acknowledged_after_the_file_is_closed() {
    let mut h = PushHandler::new(7);
    assert_eq!(h.step(PushInput::Opened), PushOutput::Begin { window: 1024 * 1024 });
    assert_eq!(h.step(chunk(7, 262_144)), PushOutput::Write { grant: None });
    assert_eq!(h.stage, PushStage::Receiving { consumed: 262_144 });
    assert_eq!(h.step(chunk(7, 262_144)), PushOutput::Write { grant: Some(524_288) });
    assert_eq!(h.stage, PushStage::Receiving { consumed: 0 });
    let end = PushInput::Frame { kind: FrameKind::FileEnd, stream_id: 7, len: 0 };
    assert_eq!(h.step(end), PushOutput::Close);
    assert_eq!(h.step(PushInput::Closed), PushOutput::Acknowledge);
    assert_eq!(h.stage, PushStage::Ended);
}

#[test]
fn push_fails_on_what_does_not_belong_to_it() {
    let mut other = PushHandler::new(7);
    other.step(PushInput::Opened);
    assert_eq!(other.step(chunk(8, 1)), PushOutput::Fail(HandlerError::PushStream(8)));
    assert_eq!(other.stage, PushStage::Ended);

    let mut odd = PushHandler::new(7);
    odd.step(PushInput::Opened);
    assert_eq!(
        odd.step(PushInput::Frame { kind: FrameKind::Ping, stream_id: 7, len: 0 }),
        PushOutput::Fail(HandlerError::PushFrame(FrameKind::Ping)),
    );

    let mut gone = PushHandler::new(7);
    gone.step(PushInput::Opened);
    assert_eq!(gone.step(PushInput::InboxClosed), PushOutput::Fail(HandlerError::PushClosed));

    let mut canceled = PushHandler::new(7);
    assert_eq!(canceled.step(PushInput::Canceled), PushOutput::Fail(HandlerError::Canceled(7)));

    let mut broken = PushHandler::new(7);
    assert_eq!(broken.step(PushInput::FileFailed), PushOutput::Abandon);

    let mut full = PushHandler { stream_id: 7, stage: PushStage::Receiving { consumed: 1 } };
    assert_eq!(
        full.step(chunk(7, usize::MAX)),
        PushOutput::WriteAndFail(HandlerError::WindowOverflow),
    );
    assert_eq!(full.stage, PushStage::Ended);
}

#[test]
fn pull_sends_size_chunks_and_end() {
    let mut h = PullHandler::new(3);
    assert_eq!(h.step(PullInput::Opened { size: 5 }), PullOutput::Announce { size: 5 });
    assert_eq!(h.step(PullInput::Read(4)), PullOutput::Chunk);
    assert_eq!(
        h.step(PullInput::CancelChanged { alive: false, canceled: false }),
        PullOutput::Nothing,
    );
    assert_eq!(h.step(PullInput::Read(1)), PullOutput::Chunk);
    assert_eq!(h.step(PullInput::Read(0)), PullOutput::Close);
    assert_eq!(h.step(PullInput::Closed), PullOutput::End);
    assert_eq!(h.stage, PullStage::Ended);
}

#[test]
fn pull_stops_when_canceled_or_unreadable() {
    let mut h = PullHandler::new(3);
    h.step(PullInput::Opened { size: 5 });
    assert_eq!(
        h.step(PullInput::CancelChanged { alive: true, canceled: true }),
        PullOutput::Fail(HandlerError::Canceled(3)),
    );
    assert_eq!(h.stage, PullStage::Ended);

    let mut broken = PullHandler::new(3);
    assert_eq!(broken.step(PullInput::FileFailed), PullOutput::Abandon);
}

#[test]
fn pty_finishes_when_both_halves_have() {
    let mut h = PtyHandler::new(9);
    assert_eq!(h.step(PtyInput::Read(PtyRead::Bytes(10))), PtyHandled::Send);
    assert_eq!(
        h.step(PtyInput::Host(PtyEvent::Frame { kind: FrameKind::PtyInput, stream_id: 9 })),
        PtyHandled::Input(PtyAction::Write),
    );
    assert_eq!(h.step(PtyInput::Read(PtyRead::HungUp)), PtyHandled::OutputEnds);
    assert!(!h.finished());
    assert!(h.stopping);
    assert_eq!(
        h.step(PtyInput::Host(PtyEvent::OutputEnded)),
        PtyHandled::Input(PtyAction::Stop),
    );
    assert!(h.finished());
}

#[test]
fn pty_halves_fail_on_their_own() {
    let mut h = PtyHandler::new(9);
    assert_eq!(h.step(PtyInput::SendFailed), PtyHandled::OutputFails { kill: true });
    assert!(h.input_open && !h.output_open && !h.stopping);
    assert_eq!(
        h.step(PtyInput::Host(PtyEvent::InboxClosed)),
        PtyHandled::Input(PtyAction::Fail(HandlerError::PtyClosed(9))),
    );
    assert!(h.finished());

    let mut read = PtyHandler::new(9);
    assert_eq!(
        read.step(PtyInput::Read(PtyRead::Failed)),
        PtyHandled::OutputFails { kill: false },
    );
    assert_eq!(read.step(PtyInput::InputFailed), PtyHandled::InputFails);
    assert!(read.finished());

    let mut closed = PtyHandler::new(9);
    assert_eq!(
        closed.step(PtyInput::Host(PtyEvent::Frame { kind: FrameKind::PtyClose, stream_id: 9 })),
        PtyHandled::Input(PtyAction::Close),
    );
    assert!(!closed.input_open && closed.output_open);
}

#[test]
fn a_proxy_of_the_same_name_replaces_the_older_one() {
    let mut table = ProxyTable::new();
    assert_eq!(table.started("a".to_string(), 1), None);
    assert_eq!(table.started("b".to_string(), 2), None);
    assert_eq!(table.started("a".to_string(), 3), Some(1));
    let mut all = table.ended();
    all.sort();
    assert_eq!(all, vec![2, 3]);
    assert!(table.ended().is_empty());
}

#[test]
fn a_slow_greeting_is_reported() {
    assert_eq!(ServeError::SetupTimedOut.message(), "SideWire connection handshake timed out");
}
