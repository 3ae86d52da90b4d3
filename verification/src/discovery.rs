//! How devices on the local network are found.

use vstd::prelude::*;
use vstd::string::*;
use crate::bytes;
use crate::device_id::DeviceId;
use crate::frame;
use crate::frame::{protocol_compatible, VERSION};
use crate::messages::{DiscoveryReply, SecurityMode, DISCOVERY_REQUEST};
use crate::text;

verus! {

/// A device that answered, and where it answered from.
#[derive(Debug)]
pub struct DiscoveredDevice {
    pub device_id: DeviceId,
    pub name: String,
    pub endpoint: String,
    pub protocol_version: u16,
    pub security: SecurityMode,
}

/// Whether a datagram asks for devices.
pub fn is_discovery_request(datagram: &[u8]) -> (r: bool)
    ensures
        r == (datagram@ == DISCOVERY_REQUEST@),
{
    let request = DISCOVERY_REQUEST;
    bytes::same(datagram, &request)
}

/// The answer of a device.
pub open spec fn reply_of(
    device_id: DeviceId,
    name: String,
    port: u16,
    security: SecurityMode,
) -> DiscoveryReply {
    DiscoveryReply { device_id, name, port, protocol_version: VERSION, security }
}

/// What a device answers.
pub fn discovery_reply(
    device_id: DeviceId,
    name: String,
    port: u16,
    security: SecurityMode,
) -> (r: DiscoveryReply)
    ensures
        r == reply_of(device_id, name, port, security),
{
    DiscoveryReply { device_id, name, port, protocol_version: VERSION, security }
}

/// Where a device listens that answered from an address.
pub open spec fn endpoint_of(ip: Seq<char>, port: u16) -> Seq<char> {
    ip + ":"@ + text::decimal(port as nat)
}

/// Whether a device is what an answer from an address says.
pub open spec fn is_found(reply: DiscoveryReply, ip: Seq<char>, device: DiscoveredDevice) -> bool {
    &&& device.device_id == reply.device_id
    &&& device.name == reply.name
    &&& device.endpoint@ == endpoint_of(ip, reply.port)
    &&& device.protocol_version == reply.protocol_version
    &&& device.security == reply.security
}

/// What an answer says of a device: it listens at the address that it answered from.
pub fn discovered(reply: DiscoveryReply, ip: &str) -> (r: DiscoveredDevice)
    ensures
        is_found(reply, ip@, r),
{
    DiscoveredDevice {
        device_id: reply.device_id,
        name: reply.name,
        endpoint: text::cat3(ip, ":", text::decimal_string(reply.port as u64).as_str()),
        protocol_version: reply.protocol_version,
        security: reply.security,
    }
}

/// The position of a device among others.
pub open spec fn place(devices: Seq<DiscoveredDevice>, id: Seq<u8>) -> int
    decreases devices.len(),
{
    if devices.len() == 0 {
        0
    } else if devices[0].device_id.0@ == id {
        0
    } else {
        1 + place(devices.drop_first(), id)
    }
}

/// The devices after one more answer: a device that answered before is noted as it answered
/// last.
pub open spec fn noted(devices: Seq<DiscoveredDevice>, device: DiscoveredDevice) -> Seq<
    DiscoveredDevice,
> {
    let at = place(devices, device.device_id.0@);
    if at < devices.len() {
        devices.update(at, device)
    } else {
        devices.push(device)
    }
}

/// Whether no device is noted twice.
pub open spec fn distinct(devices: Seq<DiscoveredDevice>) -> bool {
    forall|i: int, j: int|
        0 <= i < j < devices.len() ==> (#[trigger] devices[i]).device_id.0@ != (
        #[trigger] devices[j]).device_id.0@
}

proof fn lemma_place(devices: Seq<DiscoveredDevice>, id: Seq<u8>)
    ensures
        0 <= place(devices, id) <= devices.len(),
        forall|i: int| 0 <= i < place(devices, id) ==> (#[trigger] devices[i]).device_id.0@ != id,
        place(devices, id) < devices.len() ==> devices[place(devices, id)].device_id.0@ == id,
    decreases devices.len(),
{
    if devices.len() > 0 && devices[0].device_id.0@ != id {
        let rest = devices.drop_first();
        lemma_place(rest, id);
        assert forall|i: int| 0 <= i < place(devices, id) implies (
        #[trigger] devices[i]).device_id.0@ != id by {
            if i > 0 {
                assert(rest[i - 1] == devices[i]);
            }
        }
    }
}

/// Every device that answers is noted, and none is noted twice.
pub proof fn lemma_each_device_is_noted_once(
    devices: Seq<DiscoveredDevice>,
    device: DiscoveredDevice,
)
    requires
        distinct(devices),
    ensures
        distinct(noted(devices, device)),
        noted(devices, device).contains(device),
        forall|i: int|
            0 <= i < devices.len() && (#[trigger] devices[i]).device_id.0@ != device.device_id.0@
                ==> noted(devices, device).contains(devices[i]),
{
    let id = device.device_id.0@;
    lemma_place(devices, id);
    let at = place(devices, id);
    let after = noted(devices, device);
    if at < devices.len() {
        assert(after[at] == device);
    } else {
        assert(after[devices.len() as int] == device);
    }
    assert forall|i: int|
        0 <= i < devices.len() && (#[trigger] devices[i]).device_id.0@
            != id implies after.contains(devices[i]) by {
        assert(after[i] == devices[i]);
    }
    assert forall|i: int, j: int| 0 <= i < j < after.len() implies (
    #[trigger] after[i]).device_id.0@ != (#[trigger] after[j]).device_id.0@ by {
        if i < devices.len() && j < devices.len() {
            assert(devices[i].device_id.0@ != devices[j].device_id.0@);
        }
    }
}

/// Notes a device that answered.
pub fn note_device(devices: &mut Vec<DiscoveredDevice>, device: DiscoveredDevice)
    ensures
        final(devices)@ == noted(old(devices)@, device),
{
    let ghost all = devices@;
    let mut i: usize = 0;
    assert(all.skip(0) =~= all);
    while i < devices.len()
        invariant
            i <= devices@.len(),
            devices@ == all,
            old(devices)@ == all,
            place(all, device.device_id.0@) == i + place(all.skip(i as int), device.device_id.0@),
        decreases devices@.len() - i,
    {
        proof {
            assert(all.skip(i as int)[0] == all[i as int]);
            assert(all.skip(i as int).drop_first() =~= all.skip(i + 1));
        }
        if devices[i].device_id == device.device_id {
            devices.set(i, device);
            return ;
        }
        i += 1;
    }
    devices.push(device);
}

/// One line of the list of devices: name, endpoint and version.
pub open spec fn device_line(device: DiscoveredDevice) -> Seq<char> {
    device.name@ + "\t"@ + device.endpoint@ + "\t"@ + text::decimal(device.protocol_version as nat)
}

pub fn device_row(device: &DiscoveredDevice) -> (r: String)
    ensures
        r@ == device_line(*device),
{
    let mut out = text::cat4(device.name.as_str(), "\t", device.endpoint.as_str(), "\t");
    out.append(text::decimal_string(device.protocol_version as u64).as_str());
    out
}

/// The first of some devices that speaks another major version.
pub open spec fn first_incompatible(devices: Seq<DiscoveredDevice>) -> Option<u16>
    decreases devices.len(),
{
    if devices.len() == 0 {
        None
    } else if !frame::compatible(devices[0].protocol_version) {
        Some(devices[0].protocol_version)
    } else {
        first_incompatible(devices.drop_first())
    }
}

/// What is said of a search: that it found nothing, or that it found a device which speaks
/// another major version.
pub fn check_discovered(devices: &[DiscoveredDevice]) -> (r: Result<(), String>)
    ensures
        r is Ok <==> devices@.len() > 0 && first_incompatible(devices@) is None,
        r matches Err(message) ==> message@ == if devices@.len() == 0 {
            "no inbound SideWire device discovered"@
        } else {
            "protocol mismatch: CLI="@ + text::decimal(VERSION as nat) + " device="@
                + text::decimal(first_incompatible(devices@)->0 as nat)
        },
{
    if devices.len() == 0 {
        return Err(String::from_str("no inbound SideWire device discovered"));
    }
    let mut i: usize = 0;
    assert(devices@.skip(0) =~= devices@);
    while i < devices.len()
        invariant
            i <= devices@.len(),
            devices@.len() > 0,
            first_incompatible(devices@) == first_incompatible(devices@.skip(i as int)),
        decreases devices@.len() - i,
    {
        proof {
            assert(devices@.skip(i as int)[0] == devices@[i as int]);
            assert(devices@.skip(i as int).drop_first() =~= devices@.skip(i + 1));
        }
        if !protocol_compatible(devices[i].protocol_version) {
            let mut message = text::cat_number(
                "protocol mismatch: CLI=",
                VERSION as u64,
                " device=",
            );
            message.append(text::decimal_string(devices[i].protocol_version as u64).as_str());
            return Err(message);
        }
        i += 1;
    }
    Ok(())
}

/// A device is called at the address that it answered from, on the port that it announced.
pub proof fn lemma_device_is_called_where_it_answered(ip: Seq<char>, port: u16)
    ensures
        text::starts_with(endpoint_of(ip, port), ip),
        crate::remote::port_of(endpoint_of(ip, port)) == Some(port as nat),
{
    crate::remote::lemma_port_is_named(ip, port);
    assert(endpoint_of(ip, port).take(ip.len() as int) =~= ip);
}

/// A search has nothing to complain of if and only if every device that it found has this major
/// version; otherwise it names the version of one that has not.
pub proof fn lemma_every_version_is_checked(devices: Seq<DiscoveredDevice>)
    ensures
        first_incompatible(devices) is None <==> forall|i: int|
            0 <= i < devices.len() ==> (#[trigger] devices[i]).protocol_version / 256 == VERSION / 256,
        first_incompatible(devices) matches Some(version) ==> exists|i: int|
            0 <= i < devices.len() && (#[trigger] devices[i]).protocol_version == version && version
                / 256 != VERSION / 256,
    decreases devices.len(),
{
    if devices.len() > 0 {
        let rest = devices.drop_first();
        lemma_every_version_is_checked(rest);
        if frame::compatible(devices[0].protocol_version) {
            if first_incompatible(devices) is None {
                assert forall|i: int| 0 <= i < devices.len() implies (
                #[trigger] devices[i]).protocol_version / 256 == VERSION / 256 by {
                    if i > 0 {
                        assert(rest[i - 1] == devices[i]);
                    }
                }
            } else {
                let version = first_incompatible(devices)->0;
                let k = choose|k: int|
                    0 <= k < rest.len() && (#[trigger] rest[k]).protocol_version == version
                        && version / 256 != VERSION / 256;
                assert(devices[k + 1] == rest[k]);
            }
        } else {
            assert(devices[0].protocol_version / 256 != VERSION / 256);
        }
    }
}

/// A device that answers is found as it is: under its identity and name, and at the port that it
/// announced. A host of this version in the same security mode calls it, and one in the other mode
/// does not.
pub proof fn lemma_answering_device_is_called(
    device_id: DeviceId,
    name: String,
    port: u16,
    security: SecurityMode,
    other: SecurityMode,
    ip: Seq<char>,
    found: DiscoveredDevice,
)
    requires
        is_found(reply_of(device_id, name, port, security), ip, found),
    ensures
        found.device_id == device_id,
        found.name == name,
        crate::remote::port_of(found.endpoint@) == Some(port as nat),
        crate::connector::considered(Map::empty(), found, security)
            == crate::connector::Considered::Start,
        other != security ==> crate::connector::considered(Map::empty(), found, other)
            == crate::connector::Considered::OtherSecurity,
        first_incompatible(seq![found]) is None,
{
    lemma_device_is_called_where_it_answered(ip, port);
    lemma_every_version_is_checked(seq![found]);
}

} // verus!
