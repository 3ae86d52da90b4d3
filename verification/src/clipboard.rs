//! The device's clipboard helper: a process that answers one request at a time.

use vstd::prelude::*;
use vstd::string::*;
use crate::bytes;
use crate::messages::ExecIdentity;
use crate::shell;
use crate::shell::{command_for_identity, CommandLine};
use crate::text;

verus! {

pub const OP_GET: u8 = 1;

pub const OP_SET: u8 = 2;

pub const OP_CLEAR: u8 = 3;

pub const STATUS_OK: u8 = 0;

pub const STATUS_ERROR: u8 = 1;

pub const MAX_CLIPBOARD_TEXT: usize = 4194304;

pub const HELPER_REQUEST_TIMEOUT_SECS: u64 = 5;

/// Why a clipboard request fails before or instead of an answer of the helper.
#[derive(Debug, Clone, Copy, PartialEq, Eq, Structural)]
pub enum ClipboardError {
    Unavailable,
    Canceled,
    TimedOut,
    TextTooLarge,
    ResponseTooLarge,
    Status(u8),
    Io,
    NotUtf8,
}

impl ClipboardError {
    pub open spec fn text(self) -> Seq<char> {
        match self {
            ClipboardError::Unavailable => "clipboard helper is unavailable on this device"@,
            ClipboardError::Canceled => "clipboard stream canceled"@,
            ClipboardError::TimedOut => "clipboard helper timed out"@,
            ClipboardError::TextTooLarge => "clipboard text exceeds 4 MiB limit"@,
            ClipboardError::ResponseTooLarge => "clipboard helper response exceeds 4 MiB limit"@,
            ClipboardError::Status(s) => "invalid clipboard helper status "@ + text::decimal(
                s as nat,
            ),
            ClipboardError::Io => "persistent clipboard helper I/O failed"@,
            ClipboardError::NotUtf8 => "Android clipboard is not valid UTF-8"@,
        }
    }

    pub fn message(self) -> (r: String)
        ensures
            r@ == self.text(),
    {
        match self {
            ClipboardError::Unavailable => String::from_str(
                "clipboard helper is unavailable on this device",
            ),
            ClipboardError::Canceled => String::from_str("clipboard stream canceled"),
            ClipboardError::TimedOut => String::from_str("clipboard helper timed out"),
            ClipboardError::TextTooLarge => String::from_str("clipboard text exceeds 4 MiB limit"),
            ClipboardError::ResponseTooLarge => String::from_str(
                "clipboard helper response exceeds 4 MiB limit",
            ),
            ClipboardError::Status(s) => text::cat2(
                "invalid clipboard helper status ",
                text::decimal_string(s as u64).as_str(),
            ),
            ClipboardError::Io => String::from_str("persistent clipboard helper I/O failed"),
            ClipboardError::NotUtf8 => String::from_str("Android clipboard is not valid UTF-8"),
        }
    }
}

/// A message to or from the helper: one byte, the length of what follows, and that.
pub open spec fn helper_message(code: u8, payload: Seq<u8>) -> Seq<u8> {
    seq![code] + bytes::be32(payload.len() as u32) + payload
}

/// Whether a request to the helper may carry a payload.
pub open spec fn request_fits(payload: Seq<u8>) -> bool {
    payload.len() <= MAX_CLIPBOARD_TEXT
}

/// Whether the answer may be read that a header announces.
pub open spec fn answer_fits(header: Seq<u8>) -> bool {
    bytes::value32(header.subrange(1, 5)) <= MAX_CLIPBOARD_TEXT
}

/// A request to the helper.
pub fn helper_request(opcode: u8, payload: &[u8]) -> (r: Result<Vec<u8>, ClipboardError>)
    ensures
        match r {
            Ok(b) => request_fits(payload@) && b@ == helper_message(opcode, payload@),
            Err(e) => !request_fits(payload@) && e == ClipboardError::TextTooLarge,
        },
{
    if payload.len() > MAX_CLIPBOARD_TEXT {
        return Err(ClipboardError::TextTooLarge);
    }
    let mut out: Vec<u8> = Vec::with_capacity(5 + payload.len());
    out.push(opcode);
    bytes::push_be32(&mut out, payload.len() as u32);
    bytes::append(&mut out, payload);
    assert(out@ =~= helper_message(opcode, payload@));
    Ok(out)
}

/// The status and the length in the first five bytes of an answer.
pub fn helper_response_header(header: &[u8]) -> (r: Result<(u8, usize), ClipboardError>)
    requires
        header@.len() == 5,
    ensures
        match r {
            Ok((status, len)) => status == header@[0] && len == bytes::value32(
                header@.subrange(1, 5),
            ) && answer_fits(header@),
            Err(e) => e == ClipboardError::ResponseTooLarge && !answer_fits(header@),
        },
{
    let len: usize = bytes::read_be32(header, 1) as usize;
    if len > MAX_CLIPBOARD_TEXT {
        return Err(ClipboardError::ResponseTooLarge);
    }
    Ok((header[0], len))
}

/// The header of a message tells its code and the length of its payload, whatever the payload
/// holds.
pub proof fn lemma_helper_message_round_trip(code: u8, payload: Seq<u8>)
    requires
        payload.len() <= MAX_CLIPBOARD_TEXT,
    ensures
        ({
            let b = helper_message(code, payload);
            &&& b.len() == 5 + payload.len()
            &&& b[0] == code
            &&& bytes::value32(b.subrange(1, 5)) == payload.len()
            &&& b.skip(5) == payload
        }),
{
    let b = helper_message(code, payload);
    bytes::lemma_be32_round_trip(payload.len() as u32);
    assert(b.subrange(1, 5) =~= bytes::be32(payload.len() as u32));
    assert(b.skip(5) =~= payload);
}

/// What the helper process is at the time of a request.
#[derive(Debug, Clone, Copy, PartialEq, Eq, Structural)]
pub enum HelperProcess {
    Absent,
    Exited,
    Running,
}

/// What is done before a request is sent.
#[derive(Debug, Clone, Copy, PartialEq, Eq, Structural)]
pub enum HelperStep {
    Refuse(ClipboardError),
    Start,
    Use,
}

/// What is done about the helper before a request.
pub open spec fn helper_use(canceled: bool, process: HelperProcess) -> HelperStep {
    if canceled {
        HelperStep::Refuse(ClipboardError::Canceled)
    } else if process == HelperProcess::Running {
        HelperStep::Use
    } else {
        HelperStep::Start
    }
}

/// A canceled stream asks for nothing; a helper that is not running is started.
pub fn helper_step(canceled: bool, process: HelperProcess) -> (r: HelperStep)
    ensures
        r == helper_use(canceled, process),
{
    if canceled {
        return HelperStep::Refuse(ClipboardError::Canceled);
    }
    match process {
        HelperProcess::Running => HelperStep::Use,
        _ => HelperStep::Start,
    }
}

/// What a helper that failed said.
pub open spec fn helper_complaint(payload: Seq<u8>) -> Seq<char> {
    "Android clipboard helper failed: "@ + text::lossy(payload)
}

/// Whether the process may be used again after an exchange, and what came of it.
pub open spec fn exchanged(answer: Option<(u8, Seq<u8>)>) -> (bool, Result<Seq<u8>, Seq<char>>) {
    match answer {
        Some((status, payload)) => if status == STATUS_OK {
            (true, Ok(payload))
        } else if status == STATUS_ERROR {
            (true, Err(helper_complaint(payload)))
        } else {
            (false, Err(ClipboardError::Status(status).text()))
        },
        None => (false, Err(ClipboardError::Io.text())),
    }
}

/// The outcome of an exchange with the helper, `None` where it failed, was canceled or took too
/// long: whether the process may be used again, and the answer.
pub fn helper_outcome(answer: Option<(u8, Vec<u8>)>) -> (r: (bool, Result<Vec<u8>, String>))
    ensures
        ({
            let came = match answer {
                Some((status, payload)) => Some((status, payload@)),
                None => None,
            };
            &&& r.0 == exchanged(came).0
            &&& match r.1 {
                Ok(payload) => exchanged(came).1 == Ok::<Seq<u8>, Seq<char>>(payload@),
                Err(message) => exchanged(came).1 == Err::<Seq<u8>, Seq<char>>(message@),
            }
        }),
{
    match answer {
        Some((status, payload)) => {
            if status == STATUS_OK {
                (true, Ok(payload))
            } else if status == STATUS_ERROR {
                (
                    true,
                    Err(
                        text::cat2(
                            "Android clipboard helper failed: ",
                            text::lossy_text(payload.as_slice()).as_str(),
                        ),
                    ),
                )
            } else {
                (false, Err(ClipboardError::Status(status).message()))
            }
        },
        None => (false, Err(ClipboardError::Io.message())),
    }
}

/// The text of the clipboard.
pub fn clipboard_text(answer: Vec<u8>) -> (r: Result<String, ClipboardError>)
    ensures
        match r {
            Ok(s) => vstd::utf8::valid_utf8(answer@) && s@ == vstd::utf8::decode_utf8(answer@),
            Err(e) => !vstd::utf8::valid_utf8(answer@) && e == ClipboardError::NotUtf8,
        },
{
    match text::utf8_text(answer) {
        Some(s) => Ok(s),
        None => Err(ClipboardError::NotUtf8),
    }
}

/// The bytes in which a text goes to the helper are valid and read back as that text.
pub proof fn lemma_clipboard_round_trip(s: Seq<char>)
    ensures
        vstd::utf8::valid_utf8(vstd::utf8::encode_utf8(s)),
        vstd::utf8::decode_utf8(vstd::utf8::encode_utf8(s)) == s,
{
    vstd::utf8::encode_utf8_valid_utf8(s);
    vstd::utf8::encode_utf8_decode_utf8(s);
}

/// Whether a text can be put on the clipboard of a device.
pub open spec fn settable(helper: bool, new: Seq<char>) -> Result<(), ClipboardError> {
    if !helper {
        Err(ClipboardError::Unavailable)
    } else if text::byte_len(new) > MAX_CLIPBOARD_TEXT {
        Err(ClipboardError::TextTooLarge)
    } else {
        Ok(())
    }
}

/// Whether a text may be put on the clipboard of a device.
pub fn check_clipboard_set(helper: bool, new: &str) -> (r: Result<(), ClipboardError>)
    ensures
        r == settable(helper, new@),
{
    if !helper {
        return Err(ClipboardError::Unavailable);
    }
    if new.as_bytes().len() > MAX_CLIPBOARD_TEXT {
        return Err(ClipboardError::TextTooLarge);
    }
    Ok(())
}

/// How the helper is started.
pub fn helper_command(android: bool) -> (r: CommandLine)
    ensures
        ({
            let args = seq!["/system/bin"@, "com.sidewire.ClipboardHelper"@, "server"@];
            if android {
                r.program@ == "/system/bin/su"@ && shell::views(r.args@) == shell::su_args(
                    shell::exec_script("/system/bin/app_process"@, args),
                )
            } else {
                r.program@ == "/system/bin/app_process"@ && shell::views(r.args@) == args
            }
        }),
{
    let mut args: Vec<String> = Vec::new();
    args.push(String::from_str("/system/bin"));
    args.push(String::from_str("com.sidewire.ClipboardHelper"));
    args.push(String::from_str("server"));
    assert(shell::views(args@) =~= seq![
        "/system/bin"@,
        "com.sidewire.ClipboardHelper"@,
        "server"@,
    ]);
    command_for_identity("/system/bin/app_process", args.as_slice(), ExecIdentity::Shell, android)
}

/// One limit holds all the way: what may be put on a clipboard can be sent to the helper, and the
/// helper's answer with the same text can be read again. The limit is four mebibytes of UTF-8, and
/// without a helper nothing can be put there.
pub proof fn lemma_what_is_put_can_be_read(s: Seq<char>, status: u8)
    requires
        vstd::utf8::encode_utf8(s).len() <= u32::MAX,
    ensures
        ({
            let payload = vstd::utf8::encode_utf8(s);
            &&& settable(true, s) is Ok <==> request_fits(payload)
            &&& settable(true, s) is Ok <==> answer_fits(helper_message(status, payload).take(5))
            &&& settable(true, s) is Ok <==> payload.len() <= 4 * 1024 * 1024
            &&& settable(false, s) == Err::<(), ClipboardError>(ClipboardError::Unavailable)
        }),
{
    let payload = vstd::utf8::encode_utf8(s);
    let header = helper_message(status, payload).take(5);
    bytes::lemma_be32_round_trip(payload.len() as u32);
    assert(header.subrange(1, 5) =~= bytes::be32(payload.len() as u32));
}

/// What the helper answers is handed on unchanged if it says that all went well, and never
/// otherwise. A helper that keeps to its two statuses is used again; one that does not, or that
/// did not answer, is not. A running helper is used as it is, another is started first, and for a
/// canceled stream nothing is done.
pub proof fn lemma_helper_is_kept_while_it_answers(
    status: u8,
    payload: Seq<u8>,
    process: HelperProcess,
)
    ensures
        exchanged(Some((status, payload))).1 is Ok <==> status == 0,
        exchanged(Some((0u8, payload))) == (true, Ok::<Seq<u8>, Seq<char>>(payload)),
        exchanged(Some((status, payload))).0 <==> status <= 1,
        !exchanged(None).0 && exchanged(None).1 is Err,
        helper_use(false, HelperProcess::Running) is Use,
        process != HelperProcess::Running ==> helper_use(false, process) is Start,
        helper_use(true, process) is Refuse,
{
}

} // verus!
