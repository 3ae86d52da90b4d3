//! What binds a session to its peers: prologues and pairing keys.

use vstd::prelude::*;
use vstd::string::*;
use vstd::utf8::*;
use crate::bytes;
use crate::device_id::DeviceId;
use crate::frame;
use crate::hex;
use crate::text;

verus! {

/// The BLAKE3 digest of some bytes.
pub uninterp spec fn blake3_digest(input: Seq<u8>) -> Seq<u8>;

/// `blake3::hash` gives the 32 bytes of the digest of its input.
#[verifier::external_body]
fn blake3_hash(input: &[u8]) -> (r: [u8; 32])
    ensures
        r@ == blake3_digest(input@),
{
    *blake3::hash(input).as_bytes()
}

/// What an encrypted session is bound to: the version and both identities, by role.
pub open spec fn prologue_text(version: u16, initiator: DeviceId, responder: DeviceId) -> Seq<char> {
    "SideWire/v"@ + text::decimal(version as nat) + "/"@ + initiator.hex() + "->"@ + responder.hex()
}

pub fn security_prologue(version: u16, initiator: DeviceId, responder: DeviceId) -> (r: Vec<u8>)
    ensures
        r@ == encode_utf8(prologue_text(version, initiator, responder)),
{
    let mut out = String::from_str("SideWire/v");
    out.append(text::decimal_string(version as u64).as_str());
    out.append("/");
    out.append(initiator.to_hex().as_str());
    out.append("->");
    out.append(responder.to_hex().as_str());
    bytes::copy(out.as_str().as_bytes())
}

/// Sessions that differ in version or in either identity have different prologues.
pub proof fn lemma_prologue_injective(
    v1: u16,
    a1: DeviceId,
    b1: DeviceId,
    v2: u16,
    a2: DeviceId,
    b2: DeviceId,
)
    requires
        encode_utf8(prologue_text(v1, a1, b1)) == encode_utf8(prologue_text(v2, a2, b2)),
    ensures
        v1 == v2,
        a1 == a2,
        b1 == b2,
{
    let t1 = prologue_text(v1, a1, b1);
    let t2 = prologue_text(v2, a2, b2);
    encode_utf8_decode_utf8(t1);
    encode_utf8_decode_utf8(t2);
    assert(t1 == t2);
    reveal_strlit("SideWire/v");
    reveal_strlit("/");
    reveal_strlit("->");
    let d1 = text::decimal(v1 as nat);
    let d2 = text::decimal(v2 as nat);
    assert(t1.len() == 77 + d1.len());
    assert(t2.len() == 77 + d2.len());
    assert(t1.skip(t1.len() - 32) =~= b1.hex());
    assert(t2.skip(t2.len() - 32) =~= b2.hex());
    assert(t1.subrange(t1.len() - 66, t1.len() - 34) =~= a1.hex());
    assert(t2.subrange(t2.len() - 66, t2.len() - 34) =~= a2.hex());
    assert(t1.subrange(10, t1.len() - 67) =~= d1);
    assert(t2.subrange(10, t2.len() - 67) =~= d2);
    crate::device_id::lemma_device_id_hex_injective(a1, a2);
    crate::device_id::lemma_device_id_hex_injective(b1, b2);
    text::lemma_decimal_value(v1 as nat);
    text::lemma_decimal_value(v2 as nat);
}

/// What the key of a pairing attempt is derived from.
pub open spec fn pairing_input(shared: Seq<u8>, host_id: DeviceId, device_id: DeviceId) -> Seq<u8> {
    encode_utf8("SideWire pairing v1"@) + host_id.0@ + device_id.0@ + shared
}

/// The key that a pairing session is bound to: a digest of the secret that both sides agreed
/// on and of their identities.
pub fn pairing_psk(shared: &[u8], host_id: DeviceId, device_id: DeviceId) -> (r: [u8; 32])
    ensures
        r@ == blake3_digest(pairing_input(shared@, host_id, device_id)),
{
    let mut input = bytes::copy("SideWire pairing v1".as_bytes());
    bytes::append(&mut input, host_id.0.as_slice());
    bytes::append(&mut input, device_id.0.as_slice());
    bytes::append(&mut input, shared);
    blake3_hash(input.as_slice())
}

/// Pairing attempts that differ in the secret or in either identity digest different bytes.
pub proof fn lemma_pairing_binds_identities(
    s1: Seq<u8>,
    h1: DeviceId,
    d1: DeviceId,
    s2: Seq<u8>,
    h2: DeviceId,
    d2: DeviceId,
)
    requires
        pairing_input(s1, h1, d1) == pairing_input(s2, h2, d2),
    ensures
        s1 == s2,
        h1 == h2,
        d1 == d2,
{
    let p = encode_utf8("SideWire pairing v1"@);
    let i1 = pairing_input(s1, h1, d1);
    let i2 = pairing_input(s2, h2, d2);
    let n = p.len() as int;
    assert(h1.0@ =~= i1.subrange(n, n + 16));
    assert(h2.0@ =~= i2.subrange(n, n + 16));
    assert(d1.0@ =~= i1.subrange(n + 16, n + 32));
    assert(d2.0@ =~= i2.subrange(n + 16, n + 32));
    assert(s1 =~= i1.skip(n + 32));
    assert(s2 =~= i2.skip(n + 32));
    assert(h1.0 =~= h2.0);
    assert(d1.0 =~= d2.0);
}

/// What the digest in a proxy prologue is taken of.
pub open spec fn proxy_input(token: Seq<u8>, direction: Seq<char>) -> Seq<u8> {
    encode_utf8("SideWire proxy v1"@) + encode_utf8(direction) + token
}

/// What the session of one proxied connection is bound to.
pub open spec fn proxy_prologue_text(token: Seq<u8>, direction: Seq<char>) -> Seq<char> {
    "SideWire/proxy/v"@ + text::decimal(frame::VERSION as nat) + "/"@ + direction + "/"@ + hex::hex(
        blake3_digest(proxy_input(token, direction)),
    )
}

pub fn proxy_prologue(token: &[u8], direction: &str) -> (r: Vec<u8>)
    ensures
        r@ == encode_utf8(proxy_prologue_text(token@, direction@)),
{
    let mut input = bytes::copy("SideWire proxy v1".as_bytes());
    bytes::append(&mut input, direction.as_bytes());
    bytes::append(&mut input, token);
    let digest = blake3_hash(input.as_slice());
    let mut out = String::from_str("SideWire/proxy/v");
    out.append(text::decimal_string(frame::VERSION as u64).as_str());
    out.append("/");
    out.append(direction);
    out.append("/");
    out.append(hex::hex_string(digest.as_slice()).as_str());
    bytes::copy(out.as_str().as_bytes())
}

/// A prologue names the version, then the side that called and then the side that was called, each
/// by its whole identity: exchanging the two gives another prologue.
pub proof fn lemma_prologue_names_both_sides(version: u16, initiator: DeviceId, responder: DeviceId)
    ensures
        ({
            let t = prologue_text(version, initiator, responder);
            let n = t.len() as int;
            &&& n > 66
            &&& t.skip(n - 32) == responder.hex()
            &&& t.subrange(n - 66, n - 34) == initiator.hex()
            &&& text::parse_unsigned(t.subrange(10, n - 67), u16::MAX as nat) == Some(
                version as nat,
            )
        }),
        prologue_text(version, initiator, responder) == prologue_text(version, responder, initiator)
            ==> initiator.hex() == responder.hex(),
{
    reveal_strlit("SideWire/v");
    reveal_strlit("/");
    reveal_strlit("->");
    let t = prologue_text(version, initiator, responder);
    let u = prologue_text(version, responder, initiator);
    let n = t.len() as int;
    assert(initiator.hex().len() == 32 && responder.hex().len() == 32);
    assert(t.skip(n - 32) =~= responder.hex());
    assert(u.skip(n - 32) =~= initiator.hex());
    assert(t.subrange(n - 66, n - 34) =~= initiator.hex());
    assert(t.subrange(10, n - 67) =~= text::decimal(version as nat));
    text::lemma_decimal_round_trip(version as nat, u16::MAX as nat);
}

/// What a pairing key is derived from holds the identity of the host, then that of the device, and
/// ends with the secret: which of the two is the host makes a difference.
pub proof fn lemma_pairing_input_is_by_role(shared: Seq<u8>, host_id: DeviceId, device_id: DeviceId)
    ensures
        ({
            let b = pairing_input(shared, host_id, device_id);
            let n = (b.len() - shared.len()) as int;
            &&& b.len() >= shared.len() + 32
            &&& b.skip(n) == shared
            &&& b.subrange(n - 16, n) == device_id.0@
            &&& b.subrange(n - 32, n - 16) == host_id.0@
        }),
        pairing_input(shared, host_id, device_id) == pairing_input(shared, device_id, host_id)
            ==> host_id.0@ == device_id.0@,
{
    let b = pairing_input(shared, host_id, device_id);
    let c = pairing_input(shared, device_id, host_id);
    let n = (b.len() - shared.len()) as int;
    assert(host_id.0@.len() == 16 && device_id.0@.len() == 16);
    assert(b.skip(n) =~= shared);
    assert(b.subrange(n - 16, n) =~= device_id.0@);
    assert(b.subrange(n - 32, n - 16) =~= host_id.0@);
    assert(c.subrange(n - 16, n) =~= host_id.0@);
}

} // verus!
