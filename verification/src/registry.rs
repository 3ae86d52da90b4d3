//! The devices that are connected to a host, and how one of them is chosen.

use vstd::prelude::*;
use vstd::string::*;
use crate::capabilities;
use crate::capabilities::HEARTBEAT;
use crate::device_id::DeviceId;
use crate::frame;
use crate::frame::protocol_label;
use crate::hex;
use crate::messages::SecurityMode;
use crate::order;
use crate::order::{sort_keys, SortKey};
use crate::table;
use crate::table::Table;
use crate::text;

verus! {

/// Who made a connection: the host called the device, or the device called the host.
#[derive(Debug, Clone, Copy, PartialEq, Eq, Structural)]
pub enum ConnectionMode {
    Inbound,
    Outbound,
}

impl ConnectionMode {
    pub open spec fn name(self) -> Seq<char> {
        match self {
            ConnectionMode::Inbound => "inbound"@,
            ConnectionMode::Outbound => "outbound"@,
        }
    }

    pub fn as_str(self) -> (r: &'static str)
        ensures
            r@ == self.name(),
    {
        match self {
            ConnectionMode::Inbound => "inbound",
            ConnectionMode::Outbound => "outbound",
        }
    }
}

/// A device that is connected. `connection` tells its connection from every other.
#[derive(Debug)]
pub struct DeviceSession {
    pub id: DeviceId,
    pub name: String,
    pub peer: String,
    pub mode: ConnectionMode,
    pub security: SecurityMode,
    pub capabilities: u64,
    pub protocol: u16,
    pub connection: u64,
}

/// What is shown of a connected device.
#[derive(Debug)]
pub struct DeviceInfo {
    pub id: String,
    pub name: String,
    pub peer: String,
    pub mode: String,
    pub security: String,
    pub protocol: String,
    pub capabilities: u64,
}

/// What is shown of a session.
pub open spec fn shows(info: DeviceInfo, session: DeviceSession) -> bool {
    &&& info.id@ == session.id.hex()
    &&& info.name@ == session.name@
    &&& info.peer@ == session.peer@
    &&& info.mode@ == session.mode.name()
    &&& info.security@ == session.security.name()
    &&& info.protocol@ == frame::label(session.protocol)
    &&& info.capabilities == session.capabilities
}

/// Whether devices are shown by name, those of one name by identity, each of the sessions once.
pub open spec fn is_listing(
    entries: Seq<(String, DeviceSession)>,
    shown: Seq<DeviceInfo>,
) -> bool {
    exists|positions: Seq<usize>| #[trigger] is_listing_by(entries, shown, positions)
}

/// Whether devices are shown in a given order of the sessions.
pub open spec fn is_listing_by(
    entries: Seq<(String, DeviceSession)>,
    shown: Seq<DeviceInfo>,
    positions: Seq<usize>,
) -> bool {
    &&& order::is_order(positions, info_keys(entries))
    &&& shown.len() == positions.len()
    &&& forall|i: int|
        0 <= i < shown.len() ==> shows(#[trigger] shown[i], entries[positions[i] as int].1)
}

/// What becomes of a new connection.
#[derive(Debug, Clone, Copy, PartialEq, Eq, Structural)]
pub enum Registration {
    /// It is the device's session now; an older connection is to be closed.
    Accepted { close: Option<u64> },
    /// The device has a healthy session already: the new connection is to be closed.
    Duplicate,
}

/// The connected devices, by their identities in hexadecimal.
pub struct Registry {
    pub sessions: Table<DeviceSession>,
}

/// Whether a new connection loses against the one that a device has: that one is healthy, and
/// the new one is not an outbound device that has called again.
pub open spec fn is_duplicate(existing: DeviceSession, new: DeviceSession, open: bool) -> bool {
    &&& existing.connection != new.connection
    &&& open
    &&& !(existing.mode == ConnectionMode::Outbound && new.mode == ConnectionMode::Outbound)
}

/// What becomes of a new connection, and the sessions then.
pub open spec fn registered(
    sessions: Map<Seq<char>, DeviceSession>,
    new: DeviceSession,
    open: bool,
) -> (Registration, Map<Seq<char>, DeviceSession>) {
    let key = new.id.hex();
    let known = sessions.contains_key(key);
    let existing = sessions[key];
    if known && is_duplicate(existing, new, open) {
        (Registration::Duplicate, sessions)
    } else {
        (
            Registration::Accepted {
                close: if known && existing.connection != new.connection && open {
                    Some(existing.connection)
                } else {
                    None
                },
            },
            sessions.insert(key, new),
        )
    }
}

/// Whether the end of a connection removes a session, and the sessions then.
pub open spec fn removed(
    sessions: Map<Seq<char>, DeviceSession>,
    id: DeviceId,
    connection: u64,
) -> (bool, Map<Seq<char>, DeviceSession>) {
    if sessions.contains_key(id.hex()) && sessions[id.hex()].connection == connection {
        (true, sessions.remove(id.hex()))
    } else {
        (false, sessions)
    }
}

impl Registry {
    /// Every session stands under its own identity.
    pub open spec fn wf(&self) -> bool {
        &&& self.sessions.wf()
        &&& forall|i: int|
            0 <= i < self.sessions.entries@.len() ==> (#[trigger] self.sessions.entries@[i]).0@
                == self.sessions.entries@[i].1.id.hex()
    }

    pub fn new() -> (r: Registry)
        ensures
            r.wf(),
            r.sessions@ == Map::<Seq<char>, DeviceSession>::empty(),
    {
        Registry { sessions: Table::new() }
    }

    /// The session of a device.
    pub fn get(&self, id: DeviceId) -> (r: Option<&DeviceSession>)
        requires
            self.wf(),
        ensures
            match r {
                Some(session) => self.sessions@.contains_key(id.hex()) && *session
                    == self.sessions@[id.hex()],
                None => !self.sessions@.contains_key(id.hex()),
            },
    {
        self.sessions.get(id.to_hex().as_str())
    }

    /// Takes a new connection. `open` tells whether the session that the device has, if any, is
    /// still open.
    pub fn register(&mut self, session: DeviceSession, open: bool) -> (r: Registration)
        requires
            old(self).wf(),
        ensures
            final(self).wf(),
            (r, final(self).sessions@) == registered(old(self).sessions@, session, open),
    {
        let key = session.id.to_hex();
        let mut close: Option<u64> = None;
        match self.sessions.get(key.as_str()) {
            None => {},
            Some(existing) => {
                if existing.connection != session.connection && open {
                    if existing.mode == ConnectionMode::Outbound && session.mode
                        == ConnectionMode::Outbound {
                        close = Some(existing.connection);
                    } else {
                        return Registration::Duplicate;
                    }
                }
            },
        }
        let ghost before = self.sessions.entries@;
        let ghost new = session;
        self.sessions.insert(key, session);
        proof {
            let after = self.sessions.entries@;
            assert forall|i: int| 0 <= i < after.len() implies (#[trigger] after[i]).0@
                == after[i].1.id.hex() by {
                table::lemma_present(after, i);
                let name = after[i].0@;
                if name != new.id.hex() {
                    let k = table::lemma_found(before, name);
                    table::lemma_present(before, k);
                    assert(before[k].0@ == before[k].1.id.hex());
                }
            }
        }
        Registration::Accepted { close }
    }

    /// Removes the session of a device, unless another connection has taken its place.
    pub fn remove_if_same(&mut self, id: DeviceId, connection: u64) -> (r: bool)
        requires
            old(self).wf(),
        ensures
            final(self).wf(),
            (r, final(self).sessions@) == removed(old(self).sessions@, id, connection),
    {
        let key = id.to_hex();
        let same = match self.sessions.get(key.as_str()) {
            Some(session) => session.connection == connection,
            None => false,
        };
        let ghost before = self.sessions.entries@;
        if same {
            self.sessions.remove(key.as_str());
            proof {
                let after = self.sessions.entries@;
                assert forall|i: int| 0 <= i < after.len() implies (#[trigger] after[i]).0@
                    == after[i].1.id.hex() by {
                    table::lemma_present(after, i);
                    let k = table::lemma_found(before, after[i].0@);
                    table::lemma_present(before, k);
                    assert(before[k].0@ == before[k].1.id.hex());
                }
            }
        }
        same
    }

    /// Shows the connected devices by name, those of one name by identity.
    pub fn list(&self) -> (r: Vec<DeviceInfo>)
        ensures
            is_listing(self.sessions.entries@, r@),
    {
        let mut keys: Vec<SortKey> = Vec::new();
        let mut i: usize = 0;
        let ghost all = info_keys(self.sessions.entries@);
        assert(order::key_views(keys@) =~= all.take(0));
        while i < self.sessions.entries.len()
            invariant
                i <= self.sessions.entries@.len(),
                all == info_keys(self.sessions.entries@),
                order::key_views(keys@) == all.take(i as int),
            decreases self.sessions.entries@.len() - i,
        {
            let ghost before = order::key_views(keys@);
            let session = &self.sessions.entries[i].1;
            let key = SortKey {
                name: text::chars_of(session.name.as_str()),
                id: text::chars_of(session.id.to_hex().as_str()),
            };
            let ghost added = key@;
            keys.push(key);
            assert(order::key_views(keys@) =~= before.push(added));
            i += 1;
            assert(order::key_views(keys@) =~= all.take(i as int));
        }
        assert(all.take(i as int) =~= all);
        let positions = sort_keys(keys.as_slice());
        let mut out: Vec<DeviceInfo> = Vec::new();
        let mut k: usize = 0;
        while k < positions.len()
            invariant
                k <= positions@.len(),
                out@.len() == k,
                all == info_keys(self.sessions.entries@),
                order::is_order(positions@, all),
                forall|j: int|
                    0 <= j < k ==> shows(
                        #[trigger] out@[j],
                        self.sessions.entries@[positions@[j] as int].1,
                    ),
            decreases positions@.len() - k,
        {
            let at: usize = positions[k];
            let session = &self.sessions.entries[at].1;
            out.push(show(session));
            k += 1;
        }
        assert(is_listing_by(self.sessions.entries@, out@, positions@));
        out
    }

    /// Chooses a device: by the beginning of its identity, else by its name; without a selector,
    /// the only device. The position of its session.
    pub fn resolve(&self, requested: Option<&str>) -> (r: Result<usize, String>)
        ensures
            match (r, resolution(self.sessions.entries@, view_of(requested))) {
                (Ok(i), Ok(j)) => i == j && i < self.sessions.entries@.len(),
                (Err(message), Err(text)) => message@ == text,
                _ => false,
            },
    {
        match requested {
            None => only(self.sessions.entries.len()),
            Some(selector) => {
                let found = self.find(selector);
                if found.len() == 1 {
                    assert(positions(found@) =~= seq![found@[0] as int]);
                    return Ok(found[0]);
                }
                if found.len() == 0 {
                    return Err(no_match_message(selector));
                }
                let mut list = self.choice(found[0]);
                let mut i: usize = 1;
                let ghost all = positions(found@);
                assert(all.take(1).drop_last() =~= Seq::<int>::empty());
                assert(choices(self.sessions.entries@, all.take(1)) =~= list@);
                while i < found.len()
                    invariant
                        1 <= i <= found@.len(),
                        all == positions(found@),
                        forall|j: int|
                            0 <= j < found@.len() ==> #[trigger] found@[j]
                                < self.sessions.entries@.len(),
                        list@ == choices(self.sessions.entries@, all.take(i as int)),
                    decreases found@.len() - i,
                {
                    proof {
                        assert(all.take(i + 1).drop_last() =~= all.take(i as int));
                    }
                    list.append(", ");
                    list.append(self.choice(found[i]).as_str());
                    i += 1;
                }
                assert(all.take(i as int) =~= all);
                let mut message = text::cat4(
                    "device selector '",
                    selector,
                    "' is ambiguous: ",
                    list.as_str(),
                );
                message.append("; use an ID prefix");
                Err(message)
            },
        }
    }

    fn choice(&self, at: usize) -> (r: String)
        requires
            at < self.sessions.entries@.len(),
        ensures
            r@ == choice_text(self.sessions.entries@[at as int].1),
    {
        let session = &self.sessions.entries[at].1;
        text::cat3(session.id.short().as_str(), ":", session.name.as_str())
    }

    fn find(&self, selector: &str) -> (r: Vec<usize>)
        ensures
            positions(r@) == chosen(self.sessions.entries@, selector@),
            forall|j: int| 0 <= j < r@.len() ==> #[trigger] r@[j] < self.sessions.entries@.len(),
    {
        let compact = compacted(selector);
        let by_id = is_id_prefix(compact.as_slice());
        let mut ids: Vec<usize> = Vec::new();
        let mut names: Vec<usize> = Vec::new();
        let wanted = text::chars_of(selector);
        let ghost entries = self.sessions.entries@;
        let mut i: usize = 0;
        assert(entries.take(0) =~= Seq::<(String, DeviceSession)>::empty());
        assert(positions(ids@) =~= Seq::<int>::empty());
        assert(positions(names@) =~= Seq::<int>::empty());
        while i < self.sessions.entries.len()
            invariant
                i <= self.sessions.entries@.len(),
                entries == self.sessions.entries@,
                compact@ == compact_selector(selector@),
                by_id == id_prefix(selector@),
                wanted@ == selector@,
                positions(ids@) == id_matches(entries.take(i as int), selector@),
                positions(names@) == name_matches(entries.take(i as int), selector@),
                forall|j: int| 0 <= j < ids@.len() ==> #[trigger] ids@[j] < i,
                forall|j: int| 0 <= j < names@.len() ==> #[trigger] names@[j] < i,
            decreases self.sessions.entries@.len() - i,
        {
            let ghost ids_before = positions(ids@);
            let ghost names_before = positions(names@);
            proof {
                assert(entries.take(i + 1).drop_last() =~= entries.take(i as int));
                assert(entries.take(i + 1).last() == entries[i as int]);
            }
            let session = &self.sessions.entries[i].1;
            let id = text::chars_of(session.id.to_hex().as_str());
            if by_id && text::begins_with(id.as_slice(), compact.as_slice()) {
                ids.push(i);
                assert(positions(ids@) =~= ids_before.push(i as int));
            }
            let name = text::chars_of(session.name.as_str());
            if text::same_chars_ignoring_case(name.as_slice(), wanted.as_slice()) {
                names.push(i);
                assert(positions(names@) =~= names_before.push(i as int));
            }
            i += 1;
        }
        assert(entries.take(i as int) =~= entries);
        if ids.len() > 0 {
            ids
        } else {
            names
        }
    }
}

/// The text of an optional string.
pub open spec fn view_of(s: Option<&str>) -> Option<Seq<char>> {
    match s {
        Some(t) => Some(t@),
        None => None,
    }
}

/// The position of the session that is meant, or why there is none.
pub open spec fn resolution(
    entries: Seq<(String, DeviceSession)>,
    requested: Option<Seq<char>>,
) -> Result<int, Seq<char>> {
    match requested {
        Some(selector) => {
            let found = chosen(entries, selector);
            if found.len() == 1 {
                Ok(found[0])
            } else if found.len() == 0 {
                Err(no_match(selector))
            } else {
                Err(
                    "device selector '"@ + selector + "' is ambiguous: "@ + choices(entries, found)
                        + "; use an ID prefix"@,
                )
            }
        },
        None => if entries.len() == 0 {
            Err("no SideWire devices connected"@)
        } else if entries.len() == 1 {
            Ok(0)
        } else {
            Err(several())
        },
    }
}

pub open spec fn positions(found: Seq<usize>) -> Seq<int> {
    found.map_values(|i: usize| i as int)
}

fn show(session: &DeviceSession) -> (r: DeviceInfo)
    ensures
        shows(r, *session),
{
    DeviceInfo {
        id: session.id.to_hex(),
        name: String::from_str(session.name.as_str()),
        peer: String::from_str(session.peer.as_str()),
        mode: String::from_str(session.mode.as_str()),
        security: String::from_str(session.security.as_str()),
        protocol: protocol_label(session.protocol),
        capabilities: session.capabilities,
    }
}

/// By what the sessions are listed: the name, then the identity.
pub open spec fn info_keys(entries: Seq<(String, DeviceSession)>) -> Seq<(Seq<char>, Seq<char>)> {
    entries.map_values(|e: (String, DeviceSession)| (e.1.name@, e.1.id.hex()))
}

/// The text without dashes.
pub open spec fn without_dashes(s: Seq<char>) -> Seq<char>
    decreases s.len(),
{
    if s.len() == 0 {
        Seq::empty()
    } else if s.last() == '-' {
        without_dashes(s.drop_last())
    } else {
        without_dashes(s.drop_last()).push(s.last())
    }
}

/// A selector as the beginning of an identity: without dashes, in lower case.
pub open spec fn compact_selector(selector: Seq<char>) -> Seq<char> {
    text::lowered(without_dashes(selector))
}

/// Whether a selector can be the beginning of an identity: at least four hexadecimal digits.
pub open spec fn id_prefix(selector: Seq<char>) -> bool {
    let compact = compact_selector(selector);
    compact.len() >= 4 && hex::all_hex(compact)
}

/// Whether a selector means an identity in hexadecimal.
pub open spec fn means_id(id: Seq<char>, selector: Seq<char>) -> bool {
    id_prefix(selector) && text::starts_with(id, compact_selector(selector))
}

fn compacted(selector: &str) -> (r: Vec<char>)
    ensures
        r@ == compact_selector(selector@),
{
    let chars = text::chars_of(selector);
    let mut kept: Vec<char> = Vec::new();
    let mut i: usize = 0;
    assert(chars@.take(0) =~= Seq::<char>::empty());
    while i < chars.len()
        invariant
            i <= chars@.len(),
            kept@ == without_dashes(chars@.take(i as int)),
        decreases chars@.len() - i,
    {
        proof {
            assert(chars@.take(i + 1).drop_last() =~= chars@.take(i as int));
        }
        if chars[i] != '-' {
            kept.push(chars[i]);
        }
        i += 1;
    }
    assert(chars@.take(i as int) =~= chars@);
    text::lower_all(kept.as_slice())
}

fn is_id_prefix(compact: &[char]) -> (r: bool)
    ensures
        r == (compact@.len() >= 4 && hex::all_hex(compact@)),
{
    if compact.len() < 4 {
        return false;
    }
    hex::check_hex(compact)
}

/// The positions of the sessions whose identities a selector means.
pub open spec fn id_matches(entries: Seq<(String, DeviceSession)>, selector: Seq<char>) -> Seq<int>
    decreases entries.len(),
{
    if entries.len() == 0 {
        Seq::empty()
    } else if means_id(entries.last().1.id.hex(), selector) {
        id_matches(entries.drop_last(), selector).push(entries.len() - 1)
    } else {
        id_matches(entries.drop_last(), selector)
    }
}

/// The positions of the sessions with a name, up to the case of its letters.
pub open spec fn name_matches(
    entries: Seq<(String, DeviceSession)>,
    selector: Seq<char>,
) -> Seq<int>
    decreases entries.len(),
{
    if entries.len() == 0 {
        Seq::empty()
    } else if text::same_ignoring_case(entries.last().1.name@, selector) {
        name_matches(entries.drop_last(), selector).push(entries.len() - 1)
    } else {
        name_matches(entries.drop_last(), selector)
    }
}

/// The positions of the sessions that a selector means: by identity, or else by name.
pub open spec fn chosen(entries: Seq<(String, DeviceSession)>, selector: Seq<char>) -> Seq<int> {
    if id_matches(entries, selector).len() > 0 {
        id_matches(entries, selector)
    } else {
        name_matches(entries, selector)
    }
}

pub open spec fn choice_text(session: DeviceSession) -> Seq<char> {
    session.id.hex().take(8) + ":"@ + session.name@
}

/// The devices that a selector may mean, for a person to choose from.
pub open spec fn choices(entries: Seq<(String, DeviceSession)>, found: Seq<int>) -> Seq<char>
    decreases found.len(),
{
    if found.len() == 0 {
        Seq::empty()
    } else if found.len() == 1 {
        choice_text(entries[found[0]].1)
    } else {
        choices(entries, found.drop_last()) + ", "@ + choice_text(entries[found.last()].1)
    }
}

pub open spec fn no_match(selector: Seq<char>) -> Seq<char> {
    "device selector '"@ + selector + "' did not match any connected device"@
}

pub open spec fn several() -> Seq<char> {
    "multiple devices connected; select one with -s <name-or-id> or configure default-device"@
}

fn no_match_message(selector: &str) -> (r: String)
    ensures
        r@ == no_match(selector@),
{
    text::cat3("device selector '", selector, "' did not match any connected device")
}

fn only(count: usize) -> (r: Result<usize, String>)
    ensures
        match r {
            Ok(i) => count == 1 && i == 0,
            Err(message) => count != 1 && message@ == if count == 0 {
                "no SideWire devices connected"@
            } else {
                several()
            },
        },
{
    if count == 0 {
        return Err(String::from_str("no SideWire devices connected"));
    }
    if count == 1 {
        return Ok(0);
    }
    Err(
        String::from_str(
            "multiple devices connected; select one with -s <name-or-id> or configure default-device",
        ),
    )
}

/// Whether a selector means a device, by the beginning of its identity or by its name.
pub open spec fn means_device(device: DeviceInfo, selector: Seq<char>) -> bool {
    means_id(device.id@, selector) || text::same_ignoring_case(device.name@, selector)
}

/// Whether a selector means a device, by the beginning of its identity or by its name.
pub fn selector_matches(device: &DeviceInfo, selector: &str) -> (r: bool)
    ensures
        r == means_device(*device, selector@),
{
    let compact = compacted(selector);
    let id = text::chars_of(device.id.as_str());
    if is_id_prefix(compact.as_slice()) && text::begins_with(id.as_slice(), compact.as_slice()) {
        return true;
    }
    text::equal_ignoring_case(device.name.as_str(), selector)
}

/// How many of some devices a selector means.
pub open spec fn meant(devices: Seq<DeviceInfo>, selector: Seq<char>) -> nat
    decreases devices.len(),
{
    if devices.len() == 0 {
        0
    } else {
        meant(devices.drop_last(), selector) + if means_device(devices.last(), selector) {
            1nat
        } else {
            0
        }
    }
}

proof fn lemma_meant(devices: Seq<DeviceInfo>, selector: Seq<char>, i: int)
    requires
        0 <= i < devices.len(),
        means_device(devices[i], selector),
    ensures
        meant(devices, selector) >= 1,
    decreases devices.len(),
{
    if i < devices.len() - 1 {
        lemma_meant(devices.drop_last(), selector, i);
    }
}

/// Chooses one of the devices that a server listed: the only one that a selector means; without
/// a selector, the only device.
pub fn select_device<'a>(devices: &'a [DeviceInfo], selector: Option<&str>) -> (r: Result<
    &'a DeviceInfo,
    String,
>)
    ensures
        match selector {
            Some(s) => match r {
                Ok(device) => meant(devices@, s@) == 1 && means_device(*device, s@)
                    && devices@.contains(*device),
                Err(message) => if meant(devices@, s@) == 0 {
                    message@ == no_match(s@)
                } else {
                    meant(devices@, s@) > 1 && message@ == "device selector '"@ + s@
                        + "' is ambiguous; use an ID prefix"@
                },
            },
            None => match r {
                Ok(device) => devices@.len() == 1 && *device == devices@[0],
                Err(message) => devices@.len() != 1 && message@ == if devices@.len() == 0 {
                    "no SideWire devices connected"@
                } else {
                    several()
                },
            },
        },
{
    match selector {
        None => match only(devices.len()) {
            Ok(i) => Ok(&devices[i]),
            Err(message) => Err(message),
        },
        Some(s) => {
            let mut found: Option<usize> = None;
            let mut count: usize = 0;
            let mut i: usize = 0;
            assert(devices@.take(0) =~= Seq::<DeviceInfo>::empty());
            while i < devices.len()
                invariant
                    i <= devices@.len(),
                    count <= i,
                    count == meant(devices@.take(i as int), s@),
                    count > 0 <==> found is Some,
                    found matches Some(k) ==> k < i && means_device(devices@[k as int], s@),
                decreases devices@.len() - i,
            {
                proof {
                    assert(devices@.take(i + 1).drop_last() =~= devices@.take(i as int));
                }
                if selector_matches(&devices[i], s) {
                    found = Some(i);
                    count += 1;
                }
                i += 1;
            }
            assert(devices@.take(i as int) =~= devices@);
            match found {
                None => Err(no_match_message(s)),
                Some(k) => {
                    if count == 1 {
                        assert(devices@[k as int] == devices@[k as int]);
                        return Ok(&devices[k]);
                    }
                    Err(text::cat3("device selector '", s, "' is ambiguous; use an ID prefix"))
                },
            }
        },
    }
}

/// Whether a device is the one that a selector means.
pub open spec fn marked(devices: Seq<DeviceInfo>, at: int, selector: Seq<char>) -> bool {
    meant(devices, selector) == 1 && means_device(devices[at], selector)
}

/// Whether a device is marked as the default: the configured selector means it, and no other.
pub fn is_default(devices: &[DeviceInfo], at: usize, default_device: Option<&str>) -> (r: bool)
    requires
        at < devices@.len(),
    ensures
        r == (default_device matches Some(s) && marked(devices@, at as int, s@)),
{
    match default_device {
        None => false,
        Some(s) => {
            if !selector_matches(&devices[at], s) {
                return false;
            }
            match select_device(devices, Some(s)) {
                Ok(_) => true,
                Err(_) => false,
            }
        },
    }
}

/// Two devices of one name are told apart by their identities: a selector that is the beginning
/// of just one identity means that device, however many share its name.
pub proof fn lemma_identity_wins(
    entries: Seq<(String, DeviceSession)>,
    selector: Seq<char>,
    at: int,
)
    requires
        0 <= at < entries.len(),
        means_id(entries[at].1.id.hex(), selector),
        forall|i: int|
            0 <= i < entries.len() && i != at ==> !means_id(
                (#[trigger] entries[i]).1.id.hex(),
                selector,
            ),
    ensures
        chosen(entries, selector) == seq![at],
{
    lemma_single(entries, selector, at);
}

proof fn lemma_none(entries: Seq<(String, DeviceSession)>, selector: Seq<char>)
    requires
        forall|i: int|
            0 <= i < entries.len() ==> !means_id((#[trigger] entries[i]).1.id.hex(), selector),
    ensures
        id_matches(entries, selector) == Seq::<int>::empty(),
    decreases entries.len(),
{
    if entries.len() > 0 {
        let init = entries.drop_last();
        assert forall|i: int| 0 <= i < init.len() implies !means_id(
            (#[trigger] init[i]).1.id.hex(),
            selector,
        ) by {
            assert(init[i] == entries[i]);
        }
        lemma_none(init, selector);
        assert(!means_id(entries[entries.len() - 1].1.id.hex(), selector));
    }
}

proof fn lemma_single(entries: Seq<(String, DeviceSession)>, selector: Seq<char>, at: int)
    requires
        0 <= at < entries.len(),
        means_id(entries[at].1.id.hex(), selector),
        forall|i: int|
            0 <= i < entries.len() && i != at ==> !means_id(
                (#[trigger] entries[i]).1.id.hex(),
                selector,
            ),
    ensures
        id_matches(entries, selector) == seq![at],
    decreases entries.len(),
{
    let init = entries.drop_last();
    assert forall|i: int| 0 <= i < init.len() && i != at implies !means_id(
        (#[trigger] init[i]).1.id.hex(),
        selector,
    ) by {
        assert(init[i] == entries[i]);
    }
    if at == entries.len() - 1 {
        lemma_none(init, selector);
        assert(Seq::<int>::empty().push(at) =~= seq![at]);
    } else {
        assert(init[at] == entries[at]);
        lemma_single(init, selector, at);
        assert(!means_id(entries[entries.len() - 1].1.id.hex(), selector));
    }
}

/// Whether a device with some capabilities answers heartbeats.
pub open spec fn answers_heartbeats(capabilities: u64) -> bool {
    capabilities::has(capabilities, HEARTBEAT)
}

/// Whether a session answers heartbeats.
pub fn has_heartbeat(session: &DeviceSession) -> (r: bool)
    ensures
        r == answers_heartbeats(session.capabilities),
{
    session.capabilities & HEARTBEAT != 0
}

/// Devices are kept apart by identity: a new session of one changes nothing for another, whatever
/// their names are.
pub proof fn lemma_devices_stay_distinct(
    sessions: Map<Seq<char>, DeviceSession>,
    new: DeviceSession,
    other: DeviceId,
)
    requires
        other.0@ != new.id.0@,
    ensures
        sessions.insert(new.id.hex(), new).contains_key(other.hex()) == sessions.contains_key(
            other.hex(),
        ),
        sessions.contains_key(other.hex()) ==> sessions.insert(new.id.hex(), new)[other.hex()]
            == sessions[other.hex()],
{
    if other.hex() == new.id.hex() {
        crate::device_id::lemma_device_id_hex_injective(other, new.id);
    }
}

/// A device has one session at a time. A first connection is always taken, and so is one whose
/// predecessor is no longer open, with nothing to close. Against a healthy session a new
/// connection is turned away and changes nothing, unless the device has called both times: then
/// the older of the two is closed, and never the new one.
pub proof fn lemma_healthy_session_is_kept(
    sessions: Map<Seq<char>, DeviceSession>,
    new: DeviceSession,
    open: bool,
)
    ensures
        ({
            let key = new.id.hex();
            let (r, after) = registered(sessions, new, open);
            let other = sessions.contains_key(key) && sessions[key].connection != new.connection;
            let called_twice = sessions[key].mode == ConnectionMode::Outbound && new.mode
                == ConnectionMode::Outbound;
            &&& after.contains_key(key)
            &&& !other || !open ==> r == (Registration::Accepted { close: None })
            &&& other && open && !called_twice ==> r is Duplicate && after == sessions
            &&& other && open && called_twice ==> r == (Registration::Accepted {
                close: Some(sessions[key].connection),
            })
            &&& r is Accepted ==> after[key] == new
            &&& r matches Registration::Accepted { close: Some(closed) } ==> closed
                != new.connection
            &&& forall|k: Seq<char>|
                k != key ==> after.contains_key(k) == sessions.contains_key(k)
                    && #[trigger] after[k] == sessions[k]
        }),
{
}

proof fn lemma_no_name(entries: Seq<(String, DeviceSession)>, selector: Seq<char>)
    requires
        forall|i: int|
            0 <= i < entries.len() ==> !text::same_ignoring_case(
                (#[trigger] entries[i]).1.name@,
                selector,
            ),
    ensures
        name_matches(entries, selector) == Seq::<int>::empty(),
    decreases entries.len(),
{
    if entries.len() > 0 {
        let init = entries.drop_last();
        assert forall|i: int| 0 <= i < init.len() implies !text::same_ignoring_case(
            (#[trigger] init[i]).1.name@,
            selector,
        ) by {
            assert(init[i] == entries[i]);
        }
        lemma_no_name(init, selector);
        assert(!text::same_ignoring_case(entries[entries.len() - 1].1.name@, selector));
    }
}

proof fn lemma_single_name(entries: Seq<(String, DeviceSession)>, selector: Seq<char>, at: int)
    requires
        0 <= at < entries.len(),
        text::same_ignoring_case(entries[at].1.name@, selector),
        forall|i: int|
            0 <= i < entries.len() && i != at ==> !text::same_ignoring_case(
                (#[trigger] entries[i]).1.name@,
                selector,
            ),
    ensures
        name_matches(entries, selector) == seq![at],
    decreases entries.len(),
{
    let init = entries.drop_last();
    assert forall|i: int| 0 <= i < init.len() && i != at implies !text::same_ignoring_case(
        (#[trigger] init[i]).1.name@,
        selector,
    ) by {
        assert(init[i] == entries[i]);
    }
    if at == entries.len() - 1 {
        lemma_no_name(init, selector);
        assert(Seq::<int>::empty().push(at) =~= seq![at]);
    } else {
        assert(init[at] == entries[at]);
        lemma_single_name(init, selector, at);
        assert(!text::same_ignoring_case(entries[entries.len() - 1].1.name@, selector));
    }
}

/// A name that one device alone has, however its letters are written, selects that device, where
/// it is no beginning of an identity.
pub proof fn lemma_unique_name_selects(
    entries: Seq<(String, DeviceSession)>,
    selector: Seq<char>,
    at: int,
)
    requires
        0 <= at < entries.len(),
        text::lowered(entries[at].1.name@) == text::lowered(selector),
        forall|i: int|
            0 <= i < entries.len() && i != at ==> text::lowered((#[trigger] entries[i]).1.name@)
                != text::lowered(selector),
        forall|i: int|
            0 <= i < entries.len() ==> !means_id((#[trigger] entries[i]).1.id.hex(), selector),
    ensures
        resolution(entries, Some(selector)) == Ok::<int, Seq<char>>(at),
{
    lemma_none(entries, selector);
    assert forall|i: int| 0 <= i < entries.len() && i != at implies !text::same_ignoring_case(
        (#[trigger] entries[i]).1.name@,
        selector,
    ) by {
        assert(text::lowered(entries[i].1.name@) != text::lowered(selector));
    }
    lemma_single_name(entries, selector, at);
}

/// The beginning of an identity selects its device if no other device has it, whatever their names
/// are; a selector that means nobody selects nothing.
pub proof fn lemma_identity_selects(
    entries: Seq<(String, DeviceSession)>,
    selector: Seq<char>,
    at: int,
)
    requires
        0 <= at < entries.len(),
        means_id(entries[at].1.id.hex(), selector),
        forall|i: int|
            0 <= i < entries.len() && i != at ==> !means_id(
                (#[trigger] entries[i]).1.id.hex(),
                selector,
            ),
    ensures
        resolution(entries, Some(selector)) == Ok::<int, Seq<char>>(at),
{
    lemma_single(entries, selector, at);
}

/// Without a selector the only device is meant; where there are none or several, none is.
pub proof fn lemma_only_device_is_meant(entries: Seq<(String, DeviceSession)>)
    ensures
        resolution(entries, None) is Ok <==> entries.len() == 1,
        resolution(entries, None) matches Ok(i) ==> i == 0,
{
}

proof fn lemma_no_dashes(s: Seq<char>)
    requires
        forall|i: int| 0 <= i < s.len() ==> #[trigger] s[i] != '-',
    ensures
        without_dashes(s) == s,
    decreases s.len(),
{
    if s.len() > 0 {
        let init = s.drop_last();
        assert forall|i: int| 0 <= i < init.len() implies #[trigger] init[i] != '-' by {
            assert(init[i] == s[i]);
        }
        lemma_no_dashes(init);
        assert(s[s.len() - 1] != '-');
        assert(init.push(s.last()) =~= s);
    }
}

/// Four or more digits from the beginning of its identity mean a device, the eight that are shown
/// of it among them; fewer digits mean no identity at all.
pub proof fn lemma_beginning_means_identity(id: DeviceId, n: int)
    requires
        0 <= n <= 32,
    ensures
        id.hex().len() == 32,
        means_id(id.hex(), id.hex().take(n)) <==> n >= 4,
{
    let h = id.hex();
    let s = h.take(n);
    assert(id.0@.len() == 16);
    assert forall|i: int| 0 <= i < s.len() implies hex::is_hex_digit(#[trigger] s[i]) && s[i] != '-'
        && text::lower(s[i]) == s[i] by {
        let d = if i % 2 == 0 {
            (id.0@[i / 2] / 16) as nat
        } else {
            (id.0@[i / 2] % 16) as nat
        };
        hex::lemma_hex_digit(d);
        assert(s[i] == hex::hex_digit(d));
    }
    lemma_no_dashes(s);
    assert(text::lowered(s) =~= s);
    assert(compact_selector(s) == s);
    assert(h.take(s.len() as int) =~= s);
}

/// The end of a connection removes the session that it carried, and no session that has taken its
/// place: a device that has called again stays connected. Other devices are not touched.
pub proof fn lemma_late_end_removes_nothing(
    sessions: Map<Seq<char>, DeviceSession>,
    new: DeviceSession,
    open: bool,
    connection: u64,
    other: Seq<char>,
)
    requires
        registered(sessions, new, open).0 is Accepted,
    ensures
        ({
            let now = registered(sessions, new, open).1;
            &&& connection != new.connection ==> removed(now, new.id, connection) == (false, now)
            &&& removed(now, new.id, new.connection).0
            &&& !removed(now, new.id, new.connection).1.contains_key(new.id.hex())
            &&& other != new.id.hex() ==> (removed(now, new.id, connection).1.contains_key(other)
                <==> sessions.contains_key(other)) && removed(now, new.id, connection).1[other]
                == sessions[other]
        }),
{
}

proof fn lemma_meant_twice(devices: Seq<DeviceInfo>, selector: Seq<char>, i: int, j: int)
    requires
        0 <= i < j < devices.len(),
        means_device(devices[i], selector),
        means_device(devices[j], selector),
    ensures
        meant(devices, selector) >= 2,
    decreases devices.len(),
{
    let init = devices.drop_last();
    if j < init.len() {
        lemma_meant_twice(init, selector, i, j);
    } else {
        lemma_meant_once(init, selector, i);
    }
}

proof fn lemma_meant_once(devices: Seq<DeviceInfo>, selector: Seq<char>, i: int)
    requires
        0 <= i < devices.len(),
        means_device(devices[i], selector),
    ensures
        meant(devices, selector) >= 1,
    decreases devices.len(),
{
    if i < devices.len() - 1 {
        lemma_meant_once(devices.drop_last(), selector, i);
    }
}

/// At most one device is marked as the default, and only one that the selector means.
pub proof fn lemma_one_default(devices: Seq<DeviceInfo>, selector: Seq<char>, i: int, j: int)
    requires
        0 <= i < devices.len(),
        0 <= j < devices.len(),
    ensures
        marked(devices, i, selector) && marked(devices, j, selector) ==> i == j,
        marked(devices, i, selector) ==> means_device(devices[i], selector),
        marked(devices, i, selector) && j != i ==> !means_device(devices[j], selector),
{
    if means_device(devices[i], selector) && means_device(devices[j], selector) && i != j {
        if i < j {
            lemma_meant_twice(devices, selector, i, j);
        } else {
            lemma_meant_twice(devices, selector, j, i);
        }
    }
}

} // verus!
