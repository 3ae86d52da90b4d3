//! The payloads of the protocol's frames.

use vstd::prelude::*;
use vstd::string::*;
use crate::device_id::DeviceId;

verus! {

pub const DISCOVERY_PORT: u16 = 58320;

pub const PAIRING_PORT: u16 = 58323;

/// The datagram that asks for devices: `SIDEWIRE_DISCOVER_V1`.
pub const DISCOVERY_REQUEST: [u8; 20] = [
    83, 73, 68, 69, 87, 73, 82, 69, 95, 68, 73, 83, 67, 79, 86, 69, 82, 95, 86, 49,
];

#[derive(Debug)]
pub struct DiscoveryReply {
    pub device_id: DeviceId,
    pub name: String,
    pub port: u16,
    pub protocol_version: u16,
    pub security: SecurityMode,
}

#[derive(Debug)]
pub struct Hello {
    pub device_id: Option<DeviceId>,
    pub name: String,
    pub role: PeerRole,
    pub protocol_version: u16,
    pub capabilities: u64,
}

#[derive(Debug, Clone, Copy, PartialEq, Eq, Structural)]
pub enum PeerRole {
    Host,
    Device,
}

#[derive(Debug)]
pub struct HelloAck {
    pub device_id: Option<DeviceId>,
    pub name: String,
    pub os: String,
    pub arch: String,
    pub protocol_version: u16,
    pub capabilities: u64,
}

/// Who a command runs as.
#[derive(Debug, Clone, Copy, PartialEq, Eq, Structural)]
pub enum ExecIdentity {
    Root,
    Shell,
}

#[derive(Debug)]
pub struct ExecRequest {
    pub program: String,
    pub args: Vec<String>,
    pub cwd: Option<String>,
    pub identity: ExecIdentity,
}

#[derive(Debug, Clone, Copy, PartialEq, Eq, Structural)]
pub struct ExecExit {
    pub code: Option<i32>,
}

#[derive(Debug)]
pub struct FilePushRequest {
    pub path: String,
    pub identity: ExecIdentity,
}

#[derive(Debug)]
pub struct FilePullRequest {
    pub path: String,
    pub identity: ExecIdentity,
}

#[derive(Debug, Clone, Copy, PartialEq, Eq, Structural)]
pub struct FileMeta {
    pub size: u64,
}

/// Which end of a proxy connection presents the token.
#[derive(Debug, Clone, Copy, PartialEq, Eq, Structural)]
pub enum ProxyTokenMode {
    Expect,
    Send,
}

#[derive(Debug)]
pub struct ProxyStartRequest {
    pub id: String,
    pub bind: String,
    pub target: String,
    pub token: Vec<u8>,
    pub token_mode: ProxyTokenMode,
}

#[derive(Debug)]
pub struct ProxyStartAck {
    pub id: String,
    pub bound: String,
}

#[derive(Debug)]
pub struct PtyOpenRequest {
    pub program: String,
    pub args: Vec<String>,
    pub identity: ExecIdentity,
    pub cols: u16,
    pub rows: u16,
    pub term: String,
    pub echo: bool,
}

#[derive(Debug, Clone, Copy, PartialEq, Eq, Structural)]
pub struct PtyOpenAck {
    pub pid: u32,
}

#[derive(Debug, Clone, Copy, PartialEq, Eq, Structural)]
pub struct PtyResize {
    pub cols: u16,
    pub rows: u16,
}

#[derive(Debug)]
pub struct PtyCompleteRequest {
    pub line: String,
    pub cursor: u32,
}

#[derive(Debug)]
pub struct PtyCompleteResult {
    pub line: String,
    pub cursor: u32,
    pub candidates: Vec<String>,
    pub candidate_count: u32,
}

#[derive(Debug, Clone, Copy, PartialEq, Eq, Structural)]
pub struct PtyExit {
    pub code: Option<i32>,
}

#[derive(Debug)]
pub struct ErrorMessage {
    pub message: String,
}

#[derive(Debug)]
pub struct ClipboardData {
    pub text: Option<String>,
}

#[derive(Debug)]
pub struct ClipboardSetRequest {
    pub text: String,
}

/// More room in a stream's window.
#[derive(Debug, Clone, Copy, PartialEq, Eq, Structural)]
pub struct StreamWindowUpdate {
    pub bytes: u32,
}

/// Whether a session is encrypted.
#[derive(Debug, Clone, Copy, PartialEq, Eq, Structural)]
pub enum SecurityMode {
    Secure,
    Insecure,
}

impl SecurityMode {
    pub open spec fn name(self) -> Seq<char> {
        match self {
            SecurityMode::Secure => "secure"@,
            SecurityMode::Insecure => "insecure"@,
        }
    }

    pub fn as_str(self) -> (r: &'static str)
        ensures
            r@ == self.name(),
    {
        match self {
            SecurityMode::Secure => "secure",
            SecurityMode::Insecure => "insecure",
        }
    }
}

#[derive(Debug, Clone, Copy)]
pub struct SecurityBanner {
    pub node_id: DeviceId,
    pub security: SecurityMode,
    pub protocol_version: u16,
}

#[derive(Debug, Clone, Copy)]
pub struct SecurityClientHello {
    pub node_id: DeviceId,
    pub security: SecurityMode,
    pub protocol_version: u16,
}

#[derive(Debug)]
pub struct SecurityDecision {
    pub accepted: bool,
    pub message: String,
}

#[derive(Debug)]
pub struct PairBanner {
    pub device_id: DeviceId,
    pub name: String,
    pub protocol_version: u16,
    pub pairing_available: bool,
}

#[derive(Debug)]
pub struct PairStart {
    pub protocol_version: u16,
    pub host_id: DeviceId,
    pub host_name: String,
    pub spake_message: Vec<u8>,
}

#[derive(Debug)]
pub struct PairReply {
    pub spake_message: Vec<u8>,
}

#[derive(Debug)]
pub struct PairCommit {
    pub host_id: DeviceId,
    pub host_name: String,
    pub shared_secret: [u8; 32],
}

#[derive(Debug)]
pub struct PairComplete {
    pub device_id: DeviceId,
    pub device_name: String,
}

} // verus!
