//! Persistent 128-bit identities of hosts and devices, and 256-bit pairing keys.

use vstd::prelude::*;
use vstd::string::*;
use crate::bytes;
use crate::hex;
use crate::text;

verus! {

/// The identity of a host or a device.
#[derive(Debug, Clone, Copy)]
pub struct DeviceId(pub [u8; 16]);

impl PartialEq for DeviceId {
    fn eq(&self, other: &DeviceId) -> (r: bool) {
        bytes::same(self.0.as_slice(), other.0.as_slice())
    }
}

impl vstd::std_specs::cmp::PartialEqSpecImpl for DeviceId {
    open spec fn obeys_eq_spec() -> bool {
        true
    }

    open spec fn eq_spec(&self, other: &DeviceId) -> bool {
        self.0@ == other.0@
    }
}

impl Eq for DeviceId {

}

/// A text that was to be an identity or a key, and is not the right number of hexadecimal
/// digits.
#[derive(Debug, Clone, Copy, PartialEq, Eq, Structural)]
pub enum HexError {
    DeviceId,
    Key,
}

impl HexError {
    pub open spec fn text(self) -> Seq<char> {
        match self {
            HexError::DeviceId => "device ID must contain 32 hexadecimal digits"@,
            HexError::Key => "security key must contain 64 hexadecimal digits"@,
        }
    }

    pub fn message(self) -> (r: String)
        ensures
            r@ == self.text(),
    {
        match self {
            HexError::DeviceId => String::from_str("device ID must contain 32 hexadecimal digits"),
            HexError::Key => String::from_str("security key must contain 64 hexadecimal digits"),
        }
    }
}

impl DeviceId {
    /// The identity in hexadecimal notation.
    pub open spec fn hex(self) -> Seq<char> {
        hex::hex(self.0@)
    }

    /// The 32 hexadecimal digits of the identity.
    pub fn to_hex(self) -> (r: String)
        ensures
            r@ == self.hex(),
    {
        hex::hex_string(self.0.as_slice())
    }

    /// The first eight digits of the identity.
    pub fn short(self) -> (r: String)
        ensures
            r@ == self.hex().take(8),
    {
        let all = text::chars_of(self.to_hex().as_str());
        let head = text::copy_range(all.as_slice(), 0, 8);
        text::string_of(head.as_slice())
    }

    /// Reads an identity.
    pub fn parse(value: &str) -> (r: Result<DeviceId, HexError>)
        ensures
            match r {
                Ok(id) => hex::parse_hex(value@, 16) == Some(id.0@),
                Err(e) => e == HexError::DeviceId && hex::parse_hex(value@, 16) is None,
            },
    {
        match hex::hex_parse(value, 16) {
            None => Err(HexError::DeviceId),
            Some(bytes) => {
                let mut out = [0u8;16];
                let mut i: usize = 0;
                while i < 16
                    invariant
                        i <= 16,
                        bytes@.len() == 16,
                        out@.len() == 16,
                        forall|j: int| 0 <= j < i ==> out@[j] == bytes@[j],
                    decreases 16 - i,
                {
                    out[i] = bytes[i];
                    i += 1;
                }
                assert(out@ =~= bytes@);
                Ok(DeviceId(out))
            },
        }
    }
}

/// The 64 hexadecimal digits of a key.
pub fn key_to_hex(key: &[u8; 32]) -> (r: String)
    ensures
        r@ == hex::hex(key@),
{
    hex::hex_string(key.as_slice())
}

/// Reads a key.
pub fn key_from_hex(value: &str) -> (r: Result<[u8; 32], HexError>)
    ensures
        match r {
            Ok(key) => hex::parse_hex(value@, 32) == Some(key@),
            Err(e) => e == HexError::Key && hex::parse_hex(value@, 32) is None,
        },
{
    match hex::hex_parse(value, 32) {
        None => Err(HexError::Key),
        Some(bytes) => Ok(key_array(bytes.as_slice())),
    }
}

/// Thirty-two bytes as a key.
pub fn key_array(bytes: &[u8]) -> (r: [u8; 32])
    requires
        bytes@.len() == 32,
    ensures
        r@ == bytes@,
{
    let mut out = [0u8;32];
    let mut i: usize = 0;
    while i < 32
        invariant
            i <= 32,
            bytes@.len() == 32,
            out@.len() == 32,
            forall|j: int| 0 <= j < i ==> out@[j] == bytes@[j],
        decreases 32 - i,
    {
        out[i] = bytes[i];
        i += 1;
    }
    assert(out@ =~= bytes@);
    out
}

/// Reading the notation of a key gives the key.
pub proof fn lemma_key_hex_round_trip(key: [u8; 32])
    ensures
        hex::parse_hex(hex::hex(key@), 32) == Some(key@),
{
    hex::lemma_hex_round_trip(key@);
}

/// Reading the notation of an identity gives the identity.
pub proof fn lemma_device_id_hex_round_trip(id: DeviceId)
    ensures
        hex::parse_hex(id.hex(), 16) == Some(id.0@),
{
    hex::lemma_hex_round_trip(id.0@);
}

/// Different identities have different notations.
pub proof fn lemma_device_id_hex_injective(a: DeviceId, b: DeviceId)
    requires
        a.hex() == b.hex(),
    ensures
        a.0@ == b.0@,
        a == b,
{
    lemma_device_id_hex_round_trip(a);
    lemma_device_id_hex_round_trip(b);
    assert(a.0 =~= b.0);
}

} // verus!
