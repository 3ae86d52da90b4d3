//! Verified core of SideWire, a remote shell, file transfer and proxy link between a host and
//! an Android device.

pub mod agreement;
pub mod bytes;
pub mod capabilities;
pub mod client;
pub mod clipboard;
pub mod completion;
pub mod config;
pub mod connector;
pub mod console;
pub mod control;
pub mod device;
pub mod device_id;
pub mod discovery;
pub mod frame;
pub mod handlers;
pub mod handshake;
pub mod hex;
pub mod messages;
pub mod mux;
pub mod noise;
pub mod order;
pub mod outbound;
pub mod packet;
pub mod pairing;
pub mod pairing_desk;
pub mod proxies;
pub mod record;
pub mod registry;
pub mod remote;
pub mod security;
pub mod serve;
pub mod settings;
pub mod shell;
pub mod streams;
pub mod table;
pub mod text;
pub mod transfer;
pub mod trust;
pub mod utf16;
pub mod walk;
