//! The command line's side of the control channel: what it asks for, and what it makes of the
//! answers.

use vstd::prelude::*;
use vstd::string::*;
use crate::capabilities;
use crate::config;
use crate::config::AppConfig;
use crate::control::ControlResponse;
use crate::frame::{FrameKind, VERSION};
use crate::hex;
use crate::registry;
use crate::registry::{select_device, DeviceInfo};
use crate::shell;
use crate::shell::CommandLine;
use crate::text;

verus! {

/// A response that is no error and not of the kind that was asked for.
pub open spec fn surprise(response: ControlResponse, expected: bool, unexpected: Seq<char>) -> Option<
    Seq<char>,
> {
    if expected {
        None
    } else {
        match response {
            ControlResponse::Error { message } => Some(message@),
            _ => Some(unexpected),
        }
    }
}

/// The devices that a server lists.
pub fn devices_of(response: ControlResponse) -> (r: Result<Vec<DeviceInfo>, String>)
    ensures
        match r {
            Ok(list) => response == (ControlResponse::Devices { devices: list }),
            Err(message) => surprise(
                response,
                response is Devices,
                "unexpected server response"@,
            ) == Some(message@),
        },
{
    match response {
        ControlResponse::Devices { devices } => Ok(devices),
        ControlResponse::Error { message } => Err(message),
        _ => Err(String::from_str("unexpected server response")),
    }
}

/// What a server did.
pub fn done_of(response: ControlResponse, unexpected: &str) -> (r: Result<String, String>)
    ensures
        match r {
            Ok(text) => response == (ControlResponse::Done { message: text }),
            Err(message) => surprise(response, response is Done, unexpected@) == Some(message@),
        },
{
    match response {
        ControlResponse::Done { message } => Ok(message),
        ControlResponse::Error { message } => Err(message),
        _ => Err(String::from_str(unexpected)),
    }
}

/// The round trip to a device, in milliseconds.
pub fn latency_of(response: ControlResponse) -> (r: Result<u64, String>)
    ensures
        match r {
            Ok(n) => response == (ControlResponse::Pong { latency_ms: n }),
            Err(message) => surprise(response, response is Pong, "unexpected ping response"@)
                == Some(message@),
        },
{
    match response {
        ControlResponse::Pong { latency_ms } => Ok(latency_ms),
        ControlResponse::Error { message } => Err(message),
        _ => Err(String::from_str("unexpected ping response")),
    }
}

/// What a clipboard holds.
pub fn clipboard_of(response: ControlResponse) -> (r: Result<String, String>)
    ensures
        match r {
            Ok(t) => response == (ControlResponse::Clipboard { text: t }),
            Err(message) => surprise(
                response,
                response is Clipboard,
                "unexpected server response"@,
            ) == Some(message@),
        },
{
    match response {
        ControlResponse::Clipboard { text } => Ok(text),
        ControlResponse::Error { message } => Err(message),
        _ => Err(String::from_str("unexpected server response")),
    }
}

/// What a command printed, and how it ended.
#[derive(Debug)]
pub struct ExecResult {
    pub stdout: String,
    pub stderr: String,
    pub code: Option<i32>,
}

/// The result of a command.
pub fn exec_of(response: ControlResponse) -> (r: Result<ExecResult, String>)
    ensures
        match r {
            Ok(result) => response == (ControlResponse::Exec {
                stdout: result.stdout,
                stderr: result.stderr,
                code: result.code,
            }),
            Err(message) => surprise(response, response is Exec, "unexpected server response"@)
                == Some(message@),
        },
{
    match response {
        ControlResponse::Exec { stdout, stderr, code } => Ok(ExecResult { stdout, stderr, code }),
        ControlResponse::Error { message } => Err(message),
        _ => Err(String::from_str("unexpected server response")),
    }
}

/// Whether a command ended well: with code zero. One that was killed has no code.
pub open spec fn succeeded(code: Option<i32>) -> bool {
    code == Some(0i32)
}

/// A number with its sign.
pub open spec fn signed(n: int) -> Seq<char> {
    if n < 0 {
        "-"@ + text::decimal((-n) as nat)
    } else {
        text::decimal(n as nat)
    }
}

fn signed_string(n: i32) -> (r: String)
    ensures
        r@ == signed(n as int),
{
    if n < 0 {
        text::cat2("-", text::decimal_string((-(n as i64)) as u64).as_str())
    } else {
        text::decimal_string(n as u64)
    }
}

/// How a code is shown.
pub open spec fn shown_code(code: Option<i32>) -> Seq<char> {
    match code {
        Some(n) => "Some("@ + signed(n as int) + ")"@,
        None => "None"@,
    }
}

pub(crate) fn code_string(code: Option<i32>) -> (r: String)
    ensures
        r@ == shown_code(code),
{
    match code {
        Some(n) => text::cat3("Some(", signed_string(n).as_str(), ")"),
        None => String::from_str("None"),
    }
}

/// Fails with the code of a command that did not end well.
pub fn check_exit(code: Option<i32>, what: &str) -> (r: Result<(), String>)
    ensures
        r is Ok <==> succeeded(code),
        r matches Err(message) ==> message@ == what@ + shown_code(code),
{
    match code {
        Some(0) => Ok(()),
        _ => Err(text::cat2(what, code_string(code).as_str())),
    }
}

/// What a frame of a running command means to the command line.
pub enum ExecFrame {
    /// The payload goes to standard output.
    Stdout,
    /// The payload goes to standard error.
    Stderr,
    /// The command has ended; the payload tells how.
    Exit,
    Fail(String),
}

/// Where a frame of a running command goes, apart from what is said of it.
pub enum ExecGoes {
    Stdout,
    Stderr,
    Exit,
    /// The device reports an error.
    Reported,
    Surprise,
}

pub open spec fn goes_to(kind: FrameKind) -> ExecGoes {
    match kind {
        FrameKind::ExecStdout => ExecGoes::Stdout,
        FrameKind::ExecStderr => ExecGoes::Stderr,
        FrameKind::ExecExit => ExecGoes::Exit,
        FrameKind::Error => ExecGoes::Reported,
        _ => ExecGoes::Surprise,
    }
}

pub fn exec_frame(kind: FrameKind, payload: &[u8]) -> (r: ExecFrame)
    ensures
        match r {
            ExecFrame::Stdout => goes_to(kind) is Stdout,
            ExecFrame::Stderr => goes_to(kind) is Stderr,
            ExecFrame::Exit => goes_to(kind) is Exit,
            ExecFrame::Fail(message) => match goes_to(kind) {
                ExecGoes::Reported => message@ == "remote error: "@ + text::lossy(payload@),
                ExecGoes::Surprise => message@ == "unexpected exec stream frame "@ + kind.name(),
                _ => false,
            },
        },
{
    match kind {
        FrameKind::ExecStdout => ExecFrame::Stdout,
        FrameKind::ExecStderr => ExecFrame::Stderr,
        FrameKind::ExecExit => ExecFrame::Exit,
        FrameKind::Error => ExecFrame::Fail(
            text::cat2("remote error: ", text::lossy_text(payload).as_str()),
        ),
        _ => ExecFrame::Fail(text::cat2("unexpected exec stream frame ", kind.label())),
    }
}

/// The port that `tcp:N`, or `N` alone, names.
pub open spec fn tcp_port(value: Seq<char>) -> Option<nat> {
    let raw = match text::strip_prefix(value, "tcp:"@) {
        Some(rest) => rest,
        None => value,
    };
    text::parse_unsigned(raw, 65535)
}

pub fn parse_tcp_spec(value: &str) -> (r: Result<u16, String>)
    ensures
        match r {
            Ok(port) => tcp_port(value@) == Some(port as nat),
            Err(message) => tcp_port(value@) is None && message@ == "invalid tcp endpoint '"@
                + value@ + "'"@,
        },
{
    let chars = text::chars_of(value);
    let raw = match text::after_prefix(chars.as_slice(), "tcp:") {
        Some(rest) => rest,
        None => chars,
    };
    match text::read_unsigned(raw.as_slice(), 65535) {
        Some(port) => Ok(port as u16),
        None => Err(text::cat3("invalid tcp endpoint '", value, "'")),
    }
}

/// The beginning of an identity that is shown to people: its first eight bytes.
pub open spec fn short_id(id: Seq<char>) -> Seq<char> {
    id.take(text::chars_within(id, 8) as int)
}

/// The beginning of an identity that is shown to people.
pub fn short(id: &str) -> (r: String)
    requires
        text::on_boundary(id@, 8),
    ensures
        r@ == short_id(id@),
{
    let chars = text::chars_of(id);
    let n = text::count_within(chars.as_slice(), 8);
    assert(chars@.subrange(0, n as int) =~= id@.take(n as int));
    text::string_of(text::copy_range(chars.as_slice(), 0, n).as_slice())
}

/// One line of the list of connected devices.
pub fn device_row(device: &DeviceInfo, is_default: bool) -> (r: String)
    requires
        text::on_boundary(device.id@, 8),
    ensures
        r@ == (if is_default {
            "*"@
        } else {
            ""@
        }) + "\t"@ + short_id(device.id@) + "\t"@ + device.name@ + "\t"@ + device.mode@ + "\t"@
            + device.security@ + "\t"@ + device.peer@,
{
    let mark = if is_default {
        "*"
    } else {
        ""
    };
    let mut out = text::cat4(mark, "\t", short(device.id.as_str()).as_str(), "\t");
    out.append(device.name.as_str());
    out.append("\t");
    out.append(device.mode.as_str());
    out.append("\t");
    out.append(device.security.as_str());
    out.append("\t");
    out.append(device.peer.as_str());
    out
}

/// The device that is taken where any will do: the first.
pub open spec fn any_device(devices: Seq<DeviceInfo>) -> Option<DeviceInfo> {
    if devices.len() == 0 {
        None
    } else {
        Some(devices[0])
    }
}

/// The device that is waited for: the one that is meant, or any.
pub fn awaited<'a>(devices: &'a [DeviceInfo], selector: Option<&str>) -> (r: Result<
    &'a DeviceInfo,
    String,
>)
    ensures
        match selector {
            Some(s) => match r {
                Ok(device) => registry::meant(devices@, s@) == 1 && registry::means_device(
                    *device,
                    s@,
                ) && devices@.contains(*device),
                Err(message) => registry::meant(devices@, s@) != 1 && message@
                    == if registry::meant(devices@, s@) == 0 {
                    registry::no_match(s@)
                } else {
                    "device selector '"@ + s@ + "' is ambiguous; use an ID prefix"@
                },
            },
            None => match r {
                Ok(device) => any_device(devices@) == Some(*device),
                Err(message) => any_device(devices@) is None && message@ == "no device connected"@,
            },
        },
{
    match selector {
        Some(_) => select_device(devices, selector),
        None => {
            if devices.len() == 0 {
                return Err(String::from_str("no device connected"));
            }
            Ok(&devices[0])
        },
    }
}

/// Whether a wait ends without a device.
pub open spec fn gives_up(elapsed_ms: nat, limit_seconds: nat) -> bool {
    limit_seconds != 0 && elapsed_ms >= limit_seconds * 1000
}

/// A wait without a limit never gives up; any other gives up when its seconds have passed, not
/// before, and at any time after.
pub proof fn lemma_wait_lasts_its_time(elapsed_ms: nat, limit_seconds: nat)
    ensures
        !gives_up(elapsed_ms, 0),
        limit_seconds > 0 ==> (gives_up(elapsed_ms, limit_seconds) <==> elapsed_ms / 1000
            >= limit_seconds),
{
}

/// Whether a wait goes on after it found no device; a limit of zero seconds is none.
pub fn wait_on(elapsed_ms: u64, limit_seconds: u64, last_error: &str) -> (r: Result<(), String>)
    ensures
        r is Err <==> gives_up(elapsed_ms as nat, limit_seconds as nat),
        r matches Err(message) ==> message@ == "timed out waiting for SideWire device: "@
            + last_error@,
{
    if limit_seconds != 0 && elapsed_ms / 1000 >= limit_seconds {
        return Err(text::cat2("timed out waiting for SideWire device: ", last_error));
    }
    Ok(())
}

/// What a wait that found a device prints.
pub fn found_row(device: &DeviceInfo) -> (r: String)
    requires
        text::on_boundary(device.id@, 8),
    ensures
        r@ == short_id(device.id@) + "\t"@ + device.name@ + "\t"@ + device.peer@,
{
    let mut out = text::cat4(
        short(device.id.as_str()).as_str(),
        "\t",
        device.name.as_str(),
        "\t",
    );
    out.append(device.peer.as_str());
    out
}

/// The text of each line.
pub open spec fn line_texts(lines: Seq<String>) -> Seq<Seq<char>> {
    shell::views(lines)
}

/// A setting, or that there is none.
pub open spec fn or_none(value: Option<Seq<char>>) -> Seq<char> {
    match value {
        Some(t) => t,
        None => "(none)"@,
    }
}

fn shown_setting(value: &Option<String>) -> (r: &str)
    ensures
        r@ == or_none(config::text_of(*value)),
{
    match value {
        Some(t) => t.as_str(),
        None => "(none)",
    }
}

/// What a check of the installation says of the command line itself: its version, its protocol,
/// the control channel and its kind, and the settings.
pub open spec fn doctor_host_lines(
    version: Seq<char>,
    control: Seq<char>,
    ipc: Seq<char>,
    path: Seq<char>,
    connect: Option<Seq<char>>,
    default_device: Option<Seq<char>>,
) -> Seq<Seq<char>> {
    seq![
        "SideWire CLI\t"@ + version,
        "Protocol\t"@ + text::decimal(VERSION as nat),
        "Control\t"@ + control,
        "IPC\t"@ + ipc,
        "Config\t"@ + path,
        "Configured connect\t"@ + or_none(connect),
        "Default device\t"@ + or_none(default_device),
    ]
}

pub fn doctor_host(version: &str, control: &str, ipc: &str, path: &str, config: &AppConfig) -> (r:
    Vec<String>)
    ensures
        line_texts(r@) == doctor_host_lines(
            version@,
            control@,
            ipc@,
            path@,
            config@.connect,
            config@.default_device,
        ),
{
    let mut lines: Vec<String> = Vec::new();
    lines.push(text::cat2("SideWire CLI\t", version));
    lines.push(text::cat2("Protocol\t", text::decimal_string(VERSION as u64).as_str()));
    lines.push(text::cat2("Control\t", control));
    lines.push(text::cat2("IPC\t", ipc));
    lines.push(text::cat2("Config\t", path));
    lines.push(text::cat2("Configured connect\t", shown_setting(&config.connect)));
    lines.push(text::cat2("Default device\t", shown_setting(&config.default_device)));
    assert(line_texts(lines@) =~= doctor_host_lines(
        version@,
        control@,
        ipc@,
        path@,
        config@.connect,
        config@.default_device,
    ));
    lines
}

/// What a check of the installation says of a device: its name and identity, how it is
/// connected, whether it is paired, and what it can do.
pub open spec fn doctor_device_lines(device: DeviceInfo, paired: bool) -> Seq<Seq<char>> {
    seq![
        "Device\t"@ + device.name@ + " ["@ + short_id(device.id@) + "]"@,
        "Mode\t"@ + device.mode@,
        "Security\t"@ + device.security@,
        "Paired\t"@ + if paired {
            "yes"@
        } else {
            "no"@
        },
        "Negotiated protocol\t"@ + device.protocol@,
        "Capabilities\t"@ + capabilities::display_spec(device.capabilities),
        "Peer\t"@ + device.peer@,
    ]
}

pub fn doctor_device(device: &DeviceInfo, paired: bool) -> (r: Vec<String>)
    requires
        text::on_boundary(device.id@, 8),
    ensures
        line_texts(r@) == doctor_device_lines(*device, paired),
{
    let mut lines: Vec<String> = Vec::new();
    let mut first = text::cat4(
        "Device\t",
        device.name.as_str(),
        " [",
        short(device.id.as_str()).as_str(),
    );
    first.append("]");
    lines.push(first);
    lines.push(text::cat2("Mode\t", device.mode.as_str()));
    lines.push(text::cat2("Security\t", device.security.as_str()));
    lines.push(
        text::cat2(
            "Paired\t",
            if paired {
                "yes"
            } else {
                "no"
            },
        ),
    );
    lines.push(text::cat2("Negotiated protocol\t", device.protocol.as_str()));
    lines.push(
        text::cat2("Capabilities\t", capabilities::display(device.capabilities).as_str()),
    );
    lines.push(text::cat2("Peer\t", device.peer.as_str()));
    assert(line_texts(lines@) =~= doctor_device_lines(*device, paired));
    lines
}

/// What is said of a property of the device.
pub open spec fn property_line(label: Seq<char>, answer: ExecResult) -> Option<Seq<char>> {
    if succeeded(answer.code) {
        Some(label + "\t"@ + text::trim(answer.stdout@))
    } else {
        None
    }
}

/// What is said of an identity with which a command was run.
pub open spec fn identity_line(label: Seq<char>, code: Option<i32>) -> Seq<char> {
    label + if succeeded(code) {
        "OK"@
    } else {
        "FAIL"@
    }
}

/// What is said of a command for all devices, if anything.
pub open spec fn all_fault(failed: bool, what: Seq<char>) -> Option<Seq<char>> {
    if failed {
        Some("one or more "@ + what + " failed"@)
    } else {
        None
    }
}

/// A property of the device that was asked for: said only where the question succeeded.
pub fn doctor_property(label: &str, answer: &ExecResult) -> (r: Option<String>)
    ensures
        match r {
            Some(line) => property_line(label@, *answer) == Some(line@),
            None => property_line(label@, *answer) is None,
        },
{
    match answer.code {
        Some(0) => {
            let chars = text::chars_of(answer.stdout.as_str());
            let value = text::string_of(text::trimmed(chars.as_slice()).as_slice());
            Some(text::cat3(label, "\t", value.as_str()))
        },
        _ => None,
    }
}

/// Whether commands run with an identity.
pub fn doctor_identity(label: &str, code: Option<i32>) -> (r: String)
    ensures
        r@ == identity_line(label@, code),
{
    match code {
        Some(0) => text::cat2(label, "OK"),
        _ => text::cat2(label, "FAIL"),
    }
}

/// What is printed above the output of one of several devices.
pub fn device_header(device: &DeviceInfo) -> (r: String)
    requires
        text::on_boundary(device.id@, 8),
    ensures
        r@ == "== "@ + device.name@ + " ["@ + short_id(device.id@) + "] =="@,
{
    let mut out = text::cat4(
        "== ",
        device.name.as_str(),
        " [",
        short(device.id.as_str()).as_str(),
    );
    out.append("] ==");
    out
}

/// What is said of a command on one of several devices.
pub open spec fn failure_line(name: Seq<char>, result: Result<Option<i32>, String>) -> Option<
    Seq<char>,
> {
    match result {
        Ok(code) => if succeeded(code) {
            None
        } else {
            Some("["@ + name + "] remote exit code "@ + shown_code(code))
        },
        Err(error) => Some("["@ + name + "] "@ + error@),
    }
}

/// What is said of a command on one of several devices, if it failed there.
pub fn device_failure(device: &DeviceInfo, result: Result<Option<i32>, String>) -> (r: Option<
    String,
>)
    ensures
        match r {
            Some(line) => failure_line(device.name@, result) == Some(line@),
            None => failure_line(device.name@, result) is None,
        },
{
    match result {
        Ok(code) => match code {
            Some(0) => None,
            _ => Some(
                text::cat4(
                    "[",
                    device.name.as_str(),
                    "] remote exit code ",
                    code_string(code).as_str(),
                ),
            ),
        },
        Err(error) => Some(text::cat4("[", device.name.as_str(), "] ", error.as_str())),
    }
}

/// A command for all devices needs at least one.
pub fn check_some_devices(devices: &[DeviceInfo]) -> (r: Result<(), String>)
    ensures
        r is Err <==> devices@.len() == 0,
        r matches Err(message) ==> message@ == "no SideWire devices connected"@,
{
    if devices.len() == 0 {
        return Err(String::from_str("no SideWire devices connected"));
    }
    Ok(())
}

/// A command for all devices fails if it failed on one.
pub fn all_outcome(failed: bool, what: &str) -> (r: Result<(), String>)
    ensures
        match r {
            Ok(_) => all_fault(failed, what@) is None,
            Err(message) => all_fault(failed, what@) == Some(message@),
        },
{
    if failed {
        return Err(text::cat3("one or more ", what, " failed"));
    }
    Ok(())
}

/// The name of a file for a short while.
pub open spec fn temporary_name(prefix: Seq<char>, random: Seq<u8>, suffix: Seq<char>) -> Seq<char> {
    "/data/local/tmp/sidewire-"@ + prefix + "-"@ + hex::hex(random) + suffix
}

/// The name of a file for a short while, with something random in it.
pub fn temporary_file(prefix: &str, random: &[u8; 8], suffix: &str) -> (r: String)
    ensures
        r@ == temporary_name(prefix@, random@, suffix@),
{
    let mut out = text::cat4(
        "/data/local/tmp/sidewire-",
        prefix,
        "-",
        hex::hex_string(random).as_str(),
    );
    out.append(suffix);
    out
}

/// What the command line can do with an application.
#[derive(Debug)]
pub enum AppCommand {
    Start { package: String },
    Stop { package: String },
    Clear { package: String },
}

/// What runs on a device for a command of the command line.
#[derive(Debug)]
pub enum DeviceCommand {
    Install { file: String },
    Uninstall { package: String },
    Remove { file: String },
    LogcatClear,
    Logcat { args: Vec<String> },
    Reboot { target: Option<String> },
    Screencap { file: String },
    Packages { filter: Option<String> },
    App(AppCommand),
    Property { name: String },
    Identity,
    MakeDirectory { path: String },
    IsDirectory { path: String },
    Find { root: String, kind: String },
}

impl DeviceCommand {
    pub open spec fn program(self) -> Seq<char> {
        match self {
            DeviceCommand::Install { .. } => "/system/bin/pm"@,
            DeviceCommand::Uninstall { .. } => "/system/bin/pm"@,
            DeviceCommand::Remove { .. } => "/system/bin/rm"@,
            DeviceCommand::LogcatClear => "/system/bin/logcat"@,
            DeviceCommand::Logcat { .. } => "/system/bin/logcat"@,
            DeviceCommand::Reboot { .. } => "/system/bin/reboot"@,
            DeviceCommand::Screencap { .. } => "/system/bin/screencap"@,
            DeviceCommand::Packages { .. } => "/system/bin/pm"@,
            DeviceCommand::App(AppCommand::Start { .. }) => "/system/bin/monkey"@,
            DeviceCommand::App(AppCommand::Stop { .. }) => "/system/bin/am"@,
            DeviceCommand::App(AppCommand::Clear { .. }) => "/system/bin/pm"@,
            DeviceCommand::Property { .. } => "/system/bin/getprop"@,
            DeviceCommand::Identity => "/system/bin/id"@,
            DeviceCommand::MakeDirectory { .. } => "/system/bin/mkdir"@,
            DeviceCommand::IsDirectory { .. } => "/system/bin/sh"@,
            DeviceCommand::Find { .. } => "/system/bin/find"@,
        }
    }

    pub open spec fn args(self) -> Seq<Seq<char>> {
        match self {
            DeviceCommand::Install { file } => seq!["install"@, "-r"@, file@],
            DeviceCommand::Uninstall { package } => seq!["uninstall"@, package@],
            DeviceCommand::Remove { file } => seq!["-f"@, file@],
            DeviceCommand::LogcatClear => seq!["-c"@],
            DeviceCommand::Logcat { args } => shell::views(args@),
            DeviceCommand::Reboot { target } => match target {
                Some(t) => seq![t@],
                None => seq![],
            },
            DeviceCommand::Screencap { file } => seq!["-p"@, file@],
            DeviceCommand::Packages { filter } => match filter {
                Some(f) => seq!["list"@, "packages"@, f@],
                None => seq!["list"@, "packages"@],
            },
            DeviceCommand::App(AppCommand::Start { package }) => seq![
                "-p"@,
                package@,
                "-c"@,
                "android.intent.category.LAUNCHER"@,
                "1"@,
            ],
            DeviceCommand::App(AppCommand::Stop { package }) => seq!["force-stop"@, package@],
            DeviceCommand::App(AppCommand::Clear { package }) => seq!["clear"@, package@],
            DeviceCommand::Property { name } => seq![name@],
            DeviceCommand::Identity => seq![],
            DeviceCommand::MakeDirectory { path } => seq!["-p"@, path@],
            DeviceCommand::IsDirectory { path } => seq![
                "-c"@,
                "[ -d \"$1\" ]"@,
                "sidewire-dir-test"@,
                path@,
            ],
            DeviceCommand::Find { root, kind } => seq![root@, "-type"@, kind@, "-print0"@],
        }
    }

    /// The program and its arguments.
    pub fn command_line(self) -> (r: CommandLine)
        ensures
            r.program@ == self.program(),
            shell::views(r.args@) == self.args(),
    {
        let ghost whole = self;
        let mut args: Vec<String> = Vec::new();
        let program = match self {
            DeviceCommand::Install { file } => {
                args.push(String::from_str("install"));
                args.push(String::from_str("-r"));
                args.push(file);
                "/system/bin/pm"
            },
            DeviceCommand::Uninstall { package } => {
                args.push(String::from_str("uninstall"));
                args.push(package);
                "/system/bin/pm"
            },
            DeviceCommand::Remove { file } => {
                args.push(String::from_str("-f"));
                args.push(file);
                "/system/bin/rm"
            },
            DeviceCommand::LogcatClear => {
                args.push(String::from_str("-c"));
                "/system/bin/logcat"
            },
            DeviceCommand::Logcat { args: given } => {
                args = given;
                "/system/bin/logcat"
            },
            DeviceCommand::Reboot { target } => {
                match target {
                    Some(t) => args.push(t),
                    None => {},
                }
                "/system/bin/reboot"
            },
            DeviceCommand::Screencap { file } => {
                args.push(String::from_str("-p"));
                args.push(file);
                "/system/bin/screencap"
            },
            DeviceCommand::Packages { filter } => {
                args.push(String::from_str("list"));
                args.push(String::from_str("packages"));
                match filter {
                    Some(f) => args.push(f),
                    None => {},
                }
                "/system/bin/pm"
            },
            DeviceCommand::App(AppCommand::Start { package }) => {
                args.push(String::from_str("-p"));
                args.push(package);
                args.push(String::from_str("-c"));
                args.push(String::from_str("android.intent.category.LAUNCHER"));
                args.push(String::from_str("1"));
                "/system/bin/monkey"
            },
            DeviceCommand::App(AppCommand::Stop { package }) => {
                args.push(String::from_str("force-stop"));
                args.push(package);
                "/system/bin/am"
            },
            DeviceCommand::App(AppCommand::Clear { package }) => {
                args.push(String::from_str("clear"));
                args.push(package);
                "/system/bin/pm"
            },
            DeviceCommand::Property { name } => {
                args.push(name);
                "/system/bin/getprop"
            },
            DeviceCommand::Identity => "/system/bin/id",
            DeviceCommand::MakeDirectory { path } => {
                args.push(String::from_str("-p"));
                args.push(path);
                "/system/bin/mkdir"
            },
            DeviceCommand::IsDirectory { path } => {
                args.push(String::from_str("-c"));
                args.push(String::from_str("[ -d \"$1\" ]"));
                args.push(String::from_str("sidewire-dir-test"));
                args.push(path);
                "/system/bin/sh"
            },
            DeviceCommand::Find { root, kind } => {
                args.push(root);
                args.push(String::from_str("-type"));
                args.push(kind);
                args.push(String::from_str("-print0"));
                "/system/bin/find"
            },
        };
        assert(shell::views(args@) =~= whole.args());
        CommandLine { program: String::from_str(program), args }
    }
}

/// What the command line can do with a clipboard.
#[derive(Debug, Clone, Copy, PartialEq, Eq, Structural)]
pub enum ClipboardCommand {
    /// Print what the device's clipboard holds.
    Get,
    /// Give the device's clipboard a text.
    SetText,
    /// Give the device what the computer's clipboard holds.
    Push,
    /// Give the computer what the device's clipboard holds.
    Pull,
    Clear,
}

/// Which request serves a clipboard command, and where its text comes from and goes to.
#[derive(Debug, Clone, Copy, PartialEq, Eq, Structural)]
pub struct ClipboardPlan {
    /// The computer's clipboard is read first, and its text is sent.
    pub reads_local: bool,
    /// The device's text is wanted.
    pub gets: bool,
    /// The computer's clipboard takes the text; else it is printed.
    pub writes_local: bool,
}

pub open spec fn plan_of(command: ClipboardCommand) -> ClipboardPlan {
    ClipboardPlan {
        reads_local: command == ClipboardCommand::Push,
        gets: command == ClipboardCommand::Get || command == ClipboardCommand::Pull,
        writes_local: command == ClipboardCommand::Pull,
    }
}

/// A clipboard is never read and written at once, and what is written here is what was gotten from
/// the device. Push and pull are the two ways between the clipboards, opposite to each other; the
/// other commands leave the computer's clipboard alone.
pub proof fn lemma_clipboards_are_not_mixed_up(command: ClipboardCommand)
    ensures
        ({
            let plan = plan_of(command);
            &&& !(plan.reads_local && plan.gets)
            &&& plan.writes_local ==> plan.gets
            &&& plan.reads_local <==> command == ClipboardCommand::Push
            &&& plan.writes_local <==> command == ClipboardCommand::Pull
            &&& plan.gets && !plan.writes_local <==> command == ClipboardCommand::Get
        }),
{
}

pub fn clipboard_plan(command: ClipboardCommand) -> (r: ClipboardPlan)
    ensures
        r == plan_of(command),
{
    ClipboardPlan {
        reads_local: command == ClipboardCommand::Push,
        gets: command == ClipboardCommand::Get || command == ClipboardCommand::Pull,
        writes_local: command == ClipboardCommand::Pull,
    }
}

/// Every port can be named, with `tcp:` before its number or without.
pub proof fn lemma_every_port_can_be_named(port: u16)
    ensures
        tcp_port(text::decimal(port as nat)) == Some(port as nat),
        tcp_port("tcp:"@ + text::decimal(port as nat)) == Some(port as nat),
{
    let digits = text::decimal(port as nat);
    reveal_strlit("tcp:");
    text::lemma_decimal_value(port as nat);
    text::lemma_decimal_round_trip(port as nat, 65535);
    assert(text::is_digit(digits[0]));
    if text::starts_with(digits, "tcp:"@) {
        assert(digits.take(4)[0] == digits[0]);
    }
    let named = "tcp:"@ + digits;
    assert(named.take(4) =~= "tcp:"@);
    assert(named.skip(4) =~= digits);
}

/// What a command names reaches its program as one argument, whole and as it was given: a file, a
/// package, a property, a path, and each argument of the log reader. A package is installed over
/// an older one and removed with its data, a file is removed without complaint, a directory is
/// made with those above it, and nothing more is asked for.
pub proof fn lemma_command_gets_what_it_names(command: DeviceCommand)
    ensures
        match command {
            DeviceCommand::Install { file } => command.args().last() == file@ && command.args()[0]
                == "install"@ && command.args()[1] == "-r"@ && command.args().len() == 3,
            DeviceCommand::Uninstall { package } => command.args().last() == package@
                && command.args()[0] == "uninstall"@ && command.args().len() == 2,
            DeviceCommand::Remove { file } => command.args().last() == file@ && command.args()[0]
                == "-f"@ && command.args().len() == 2,
            DeviceCommand::Logcat { args } => command.args() == shell::views(args@),
            DeviceCommand::LogcatClear => command.args() == seq!["-c"@],
            DeviceCommand::Reboot { target } => match target {
                Some(t) => command.args() == seq![t@],
                None => command.args().len() == 0,
            },
            DeviceCommand::Screencap { file } => command.args().last() == file@ && command.args()[0]
                == "-p"@ && command.args().len() == 2,
            DeviceCommand::Packages { filter } => match filter {
                Some(f) => command.args().last() == f@ && command.args().len() == 3,
                None => command.args().len() == 2,
            },
            DeviceCommand::App(AppCommand::Start { package }) => command.args().contains(package@)
                && command.args().take(2) == seq!["-p"@, package@] && command.args().last()
                == "1"@,
            DeviceCommand::App(AppCommand::Stop { package }) => command.args().last() == package@
                && command.args()[0] == "force-stop"@ && command.args().len() == 2,
            DeviceCommand::App(AppCommand::Clear { package }) => command.args().last() == package@
                && command.args()[0] == "clear"@ && command.args().len() == 2,
            DeviceCommand::Property { name } => command.args() == seq![name@],
            DeviceCommand::Identity => command.args().len() == 0,
            DeviceCommand::MakeDirectory { path } => command.args().last() == path@
                && command.args()[0] == "-p"@ && command.args().len() == 2,
            DeviceCommand::IsDirectory { path } => command.args()[3] == path@ && command.args()[0]
                == "-c"@,
            DeviceCommand::Find { root, kind } => command.args()[0] == root@ && command.args()[2]
                == kind@ && command.args()[1] == "-type"@ && command.args().last() == "-print0"@
                && command.args().len() == 4,
        },
{
    if let DeviceCommand::App(AppCommand::Start { package }) = command {
        assert(command.args()[1] == package@);
    }
}

/// Packages are installed, removed, listed and cleared by one program; no two of these have the
/// same words. Commands for different things run different programs.
pub proof fn lemma_commands_differ(file: String, package: String, filter: Option<String>)
    ensures
        ({
            let install = DeviceCommand::Install { file };
            let uninstall = DeviceCommand::Uninstall { package };
            let list = DeviceCommand::Packages { filter };
            let clear = DeviceCommand::App(AppCommand::Clear { package });
            &&& install.program() == uninstall.program()
            &&& install.program() == list.program()
            &&& install.program() == clear.program()
            &&& install.args()[0] != uninstall.args()[0]
            &&& install.args()[0] != list.args()[0]
            &&& install.args()[0] != clear.args()[0]
            &&& uninstall.args()[0] != clear.args()[0]
            &&& uninstall.args()[0] != list.args()[0]
            &&& clear.args()[0] != list.args()[0]
        }),
{
    reveal_strlit("install");
    reveal_strlit("uninstall");
    reveal_strlit("list");
    reveal_strlit("clear");
    assert("install"@.len() == 7 && "uninstall"@.len() == 9 && "list"@.len() == 4 && "clear"@.len()
        == 5);
}

/// A command ends well with code zero alone: not with any other, and not if it was killed.
pub proof fn lemma_only_zero_is_success(code: Option<i32>)
    ensures
        succeeded(code) <==> code is Some && code->0 == 0,
{
}

proof fn lemma_signed_injective(a: int, b: int)
    ensures
        signed(a) == signed(b) ==> a == b,
{
    reveal_strlit("-");
    assert("-"@ =~= seq!['-']);
    let x = if a < 0 {
        (-a) as nat
    } else {
        a as nat
    };
    let y = if b < 0 {
        (-b) as nat
    } else {
        b as nat
    };
    text::lemma_decimal_value(x);
    text::lemma_decimal_value(y);
    if signed(a) == signed(b) {
        assert(text::is_digit(text::decimal(x)[0]));
        assert(text::is_digit(text::decimal(y)[0]));
        if a < 0 {
            assert(signed(a)[0] == '-');
            assert(signed(a).skip(1) =~= text::decimal(x));
        }
        if b < 0 {
            assert(signed(b)[0] == '-');
            assert(signed(b).skip(1) =~= text::decimal(y));
        }
    }
}

/// How a command ended can be told from what is shown of it: no two codes are shown alike, nor is
/// a code like the end of a command that was killed.
pub proof fn lemma_codes_are_told_apart(a: Option<i32>, b: Option<i32>)
    ensures
        shown_code(a) == shown_code(b) ==> a == b,
{
    reveal_strlit("Some(");
    reveal_strlit("None");
    reveal_strlit(")");
    if shown_code(a) == shown_code(b) {
        let s = shown_code(a);
        assert(a is Some ==> s[0] == 'S');
        assert(b is Some ==> s[0] == 'S');
        assert(a is None ==> s[0] == 'N');
        assert(b is None ==> s[0] == 'N');
        if a is Some && b is Some {
            let x = signed(a->0 as int);
            let y = signed(b->0 as int);
            assert(s.subrange(5, s.len() - 1) =~= x);
            assert(s.subrange(5, s.len() - 1) =~= y);
            lemma_signed_injective(a->0 as int, b->0 as int);
        }
    }
}

/// A command that fails on one of several devices is reported with the device's name, and one that
/// succeeds is not.
pub proof fn lemma_failures_are_reported(name: Seq<char>, result: Result<Option<i32>, String>)
    ensures
        failure_line(name, result) is None <==> result == Ok::<Option<i32>, String>(Some(0i32)),
        failure_line(name, result) matches Some(line) ==> line.len() > name.len() && line.subrange(
            1,
            1 + name.len() as int,
        ) == name,
        (result matches Err(error) ==> (failure_line(name, result) matches Some(line) && line.skip(
            line.len() - error@.len(),
        ) == error@)),
{
    reveal_strlit("[");
    if let Some(line) = failure_line(name, result) {
        assert(line.subrange(1, 1 + name.len() as int) =~= name);
        if let Err(error) = result {
            assert(line.skip(line.len() - error@.len()) =~= error@);
        }
    }
}

/// Two temporary files of one kind have the same name only if the same random bytes were drawn,
/// and all of them stand in the directory for such files.
pub proof fn lemma_temporary_files_differ(
    prefix: Seq<char>,
    suffix: Seq<char>,
    a: Seq<u8>,
    b: Seq<u8>,
)
    ensures
        text::starts_with(temporary_name(prefix, a, suffix), "/data/local/tmp/"@),
        a.len() == b.len() && temporary_name(prefix, a, suffix) == temporary_name(prefix, b, suffix)
            ==> a == b,
{
    reveal_strlit("/data/local/tmp/");
    reveal_strlit("/data/local/tmp/sidewire-");
    let x = temporary_name(prefix, a, suffix);
    let y = temporary_name(prefix, b, suffix);
    assert(x.take(16) =~= "/data/local/tmp/"@);
    if a.len() == b.len() && x == y {
        let from = ("/data/local/tmp/sidewire-"@ + prefix + "-"@).len() as int;
        let to = from + 2 * a.len();
        assert(x.subrange(from, to) =~= hex::hex(a));
        assert(y.subrange(from, to) =~= hex::hex(b));
        hex::lemma_hex_round_trip(a);
        hex::lemma_hex_round_trip(b);
    }
}

proof fn lemma_hex_chars_within(s: Seq<char>, n: nat)
    requires
        n <= s.len(),
        forall|i: int| 0 <= i < s.len() ==> (#[trigger] s[i]) as u32 <= 0x7f,
    ensures
        text::chars_within(s, n) == n,
    decreases s.len(),
{
    if n > 0 {
        assert(s[0] as u32 <= 0x7f);
        text::lemma_width(s[0]);
        let rest = s.drop_first();
        assert forall|i: int| 0 <= i < rest.len() implies (#[trigger] rest[i]) as u32 <= 0x7f by {
            assert(s[i + 1] as u32 <= 0x7f);
        }
        lemma_hex_chars_within(rest, (n - 1) as nat);
    } else if s.len() > 0 {
        text::lemma_width(s[0]);
    }
}

/// Every part of the program shows the same beginning of an identity: its first eight digits.
pub proof fn lemma_identities_are_shown_alike(id: crate::device_id::DeviceId)
    ensures
        short_id(id.hex()) == id.hex().take(8),
{
    let h = id.hex();
    assert forall|i: int| 0 <= i < h.len() implies (#[trigger] h[i]) as u32 <= 0x7f by {
        hex::lemma_hex_digit(
            if i % 2 == 0 {
                (id.0@[i / 2] / 16) as nat
            } else {
                (id.0@[i / 2] % 16) as nat
            },
        );
    }
    lemma_hex_chars_within(h, 8);
}

/// Where any device will do, a device that is there is taken, and the same one however many come
/// after it.
pub proof fn lemma_first_device_will_do(devices: Seq<DeviceInfo>, more: DeviceInfo)
    ensures
        any_device(devices) is None <==> devices.len() == 0,
        any_device(seq![more]) == Some(more),
        devices.len() > 0 ==> any_device(devices.push(more)) == any_device(devices),
        any_device(devices) matches Some(device) ==> devices.contains(device),
{
    if devices.len() > 0 {
        assert(devices[0] == any_device(devices)->0);
    }
}

/// A property is what the device printed of it, without the line end, and is left out where the
/// question failed; what the device complained of is no property.
pub proof fn lemma_property_is_what_was_printed(
    label: Seq<char>,
    value: Seq<char>,
    answer: ExecResult,
)
    requires
        value.len() > 0,
        !text::is_space(value[0]),
        !text::is_space(value.last()),
        answer.stdout@ == value.push('\n'),
    ensures
        property_line(label, answer) is Some <==> answer.code == Some(0i32),
        property_line(label, answer) matches Some(line) ==> line.len() == label.len() + 1
            + value.len() && line.take(label.len() as int) == label && line.skip(
            label.len() as int + 1,
        ) == value,
{
    reveal_strlit("\t");
    let blank = seq!['\n'];
    let none = Seq::<char>::empty();
    text::lemma_trim_surrounded(none, value, blank);
    assert(none + value + blank =~= value.push('\n'));
    let line = label + "\t"@ + value;
    assert(line.take(label.len() as int) =~= label);
    assert(line.skip(label.len() as int + 1) =~= value);
}

/// A check of an identity and a command for all devices tell success and failure apart: success is
/// said only where every command ended with code zero.
pub proof fn lemma_success_is_said_only_of_success(
    label: Seq<char>,
    code: Option<i32>,
    failed: bool,
    what: Seq<char>,
)
    ensures
        identity_line(label, code).skip(label.len() as int) == "OK"@ <==> code == Some(0i32),
        all_fault(failed, what) is None <==> !failed,
        all_fault(failed, what) matches Some(message) ==> message.len() > what.len()
            && message.subrange(12, 12 + what.len() as int) == what,
{
    reveal_strlit("OK");
    reveal_strlit("FAIL");
    reveal_strlit("one or more ");
    let line = identity_line(label, code);
    assert(line.skip(label.len() as int) =~= if succeeded(code) {
        "OK"@
    } else {
        "FAIL"@
    });
    if failed {
        let message = all_fault(failed, what)->0;
        assert(message.subrange(12, 12 + what.len() as int) =~= what);
    }
}

} // verus!
