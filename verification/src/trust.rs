//! The host's memory of paired devices.

use vstd::prelude::*;
use vstd::string::*;
use crate::device_id::{key_from_hex, key_to_hex, DeviceId, HexError};
use crate::hex;
use crate::order;
use crate::order::{sort_keys, SortKey};
use crate::table;
use crate::table::Table;
use crate::text;

verus! {

/// A device that was paired with this host.
#[derive(Debug)]
pub struct TrustedDevice {
    pub id: DeviceId,
    pub name: String,
    pub shared_secret: String,
}

/// The identity of this host, and its paired devices by their identities in hexadecimal.
pub struct TrustStore {
    pub host_id: Option<DeviceId>,
    pub devices: Table<TrustedDevice>,
}

/// Why no pairing was removed.
#[derive(Debug, Clone, Copy, PartialEq, Eq, Structural)]
pub enum TrustError {
    NotFound,
    Ambiguous,
}

impl TrustError {
    pub open spec fn text(self, selector: Seq<char>) -> Seq<char> {
        match self {
            TrustError::NotFound => "paired device '"@ + normalized(selector) + "' not found"@,
            TrustError::Ambiguous => "paired device selector '"@ + normalized(selector)
                + "' is ambiguous; use an ID prefix"@,
        }
    }

    pub fn message(self, selector: &str) -> (r: String)
        ensures
            r@ == self.text(selector@),
    {
        let chars = normalize(selector);
        let shown = text::string_of(chars.as_slice());
        match self {
            TrustError::NotFound => text::cat3("paired device '", shown.as_str(), "' not found"),
            TrustError::Ambiguous => text::cat3(
                "paired device selector '",
                shown.as_str(),
                "' is ambiguous; use an ID prefix",
            ),
        }
    }
}

/// A selector without the white space around it, in lower case.
pub open spec fn normalized(selector: Seq<char>) -> Seq<char> {
    text::lowered(text::trim(selector))
}

fn normalize(selector: &str) -> (r: Vec<char>)
    ensures
        r@ == normalized(selector@),
{
    let all = text::chars_of(selector);
    text::lower_all(text::trimmed(all.as_slice()).as_slice())
}

/// Whether a selector means an entry: by the beginning of its identity, or by its name.
pub open spec fn selected(entry: (String, TrustedDevice), selector: Seq<char>) -> bool {
    text::starts_with(entry.0@, normalized(selector)) || text::same_ignoring_case(
        entry.1.name@,
        normalized(selector),
    )
}

/// By what the entries are listed: the name, then the identity.
pub open spec fn list_keys(entries: Seq<(String, TrustedDevice)>) -> Seq<(Seq<char>, Seq<char>)> {
    entries.map_values(|e: (String, TrustedDevice)| (e.1.name@, e.1.id.hex()))
}

/// The name of this host: from the first of two settings that is there, unless it is blank.
pub open spec fn host_name_of(computer: Option<Seq<char>>, host: Option<Seq<char>>) -> Seq<char> {
    let set = if computer is Some {
        computer
    } else {
        host
    };
    match set {
        Some(name) => if text::trim(name).len() > 0 {
            name
        } else {
            "sidewire-host"@
        },
        None => "sidewire-host"@,
    }
}

/// The name of this host.
pub fn host_name(computer: Option<String>, host: Option<String>) -> (r: String)
    ensures
        r@ == host_name_of(
            match computer {
                Some(s) => Some(s@),
                None => None,
            },
            match host {
                Some(s) => Some(s@),
                None => None,
            },
        ),
{
    let set = match computer {
        Some(name) => Some(name),
        None => host,
    };
    match set {
        Some(name) => {
            let all = text::chars_of(name.as_str());
            if text::trimmed(all.as_slice()).len() > 0 {
                return name;
            }
            String::from_str("sidewire-host")
        },
        None => String::from_str("sidewire-host"),
    }
}

/// The identity of a host that has one or not, with random bytes at hand, and whether it is new.
pub open spec fn identity_kept(host_id: Option<Seq<u8>>, random: Seq<u8>) -> (Seq<u8>, bool) {
    match host_id {
        Some(id) => (id, false),
        None => (random, true),
    }
}

impl TrustStore {
    pub open spec fn wf(&self) -> bool {
        self.devices.wf()
    }

    pub fn new() -> (r: TrustStore)
        ensures
            r.wf(),
            r.host_id is None,
            r.devices@ == Map::<Seq<char>, TrustedDevice>::empty(),
    {
        TrustStore { host_id: None, devices: Table::new() }
    }

    /// The identity of this host: the one it has, or else the given random bytes, which it then
    /// keeps. Says whether the store has changed.
    pub fn ensure_host_id(&mut self, random: [u8; 16]) -> (r: (DeviceId, bool))
        ensures
            final(self).host_id == Some(r.0),
            final(self).devices == old(self).devices,
            (r.0.0@, r.1) == identity_kept(
                match old(self).host_id {
                    Some(id) => Some(id.0@),
                    None => None,
                },
                random@,
            ),
            old(self).host_id is Some ==> final(self).host_id == old(self).host_id,
    {
        match self.host_id {
            Some(id) => (id, false),
            None => {
                let id = DeviceId(random);
                self.host_id = Some(id);
                (id, true)
            },
        }
    }

    /// The secret that is shared with a device, if it is paired.
    pub open spec fn secret_of(&self, id: DeviceId) -> Result<Option<Seq<u8>>, HexError> {
        if self.devices@.contains_key(id.hex()) {
            match hex::parse_hex(self.devices@[id.hex()].shared_secret@, 32) {
                Some(key) => Ok(Some(key)),
                None => Err(HexError::Key),
            }
        } else {
            Ok(None)
        }
    }

    /// The secret that is shared with a device, if it is paired.
    pub fn device_secret(&self, id: DeviceId) -> (r: Result<Option<[u8; 32]>, HexError>)
        requires
            self.wf(),
        ensures
            match r {
                Ok(Some(key)) => self.secret_of(id) == Ok::<Option<Seq<u8>>, HexError>(Some(key@)),
                Ok(None) => self.secret_of(id) == Ok::<Option<Seq<u8>>, HexError>(None),
                Err(e) => self.secret_of(id) == Err::<Option<Seq<u8>>, HexError>(e),
            },
    {
        match self.devices.get(id.to_hex().as_str()) {
            None => Ok(None),
            Some(device) => match key_from_hex(device.shared_secret.as_str()) {
                Ok(key) => Ok(Some(key)),
                Err(e) => Err(e),
            },
        }
    }

    /// Remembers a device that was paired, in place of what was known of it. Its secret is then
    /// the one given, and every other device keeps its own.
    pub fn save_device(&mut self, id: DeviceId, name: String, secret: &[u8; 32])
        requires
            old(self).wf(),
        ensures
            final(self).wf(),
            final(self).host_id == old(self).host_id,
            exists|device: TrustedDevice|
                final(self).devices@ == #[trigger] old(self).devices@.insert(id.hex(), device)
                    && device.id == id && device.name == name && device.shared_secret@ == hex::hex(
                    secret@,
                ),
            final(self).secret_of(id) == Ok::<Option<Seq<u8>>, HexError>(Some(secret@)),
            forall|other: DeviceId|
                other.0@ != id.0@ ==> #[trigger] final(self).secret_of(other) == old(self).secret_of(other),
    {
        let device = TrustedDevice { id, name, shared_secret: key_to_hex(secret) };
        let ghost kept = device;
        self.devices.insert(id.to_hex(), device);
        proof {
            crate::device_id::lemma_key_hex_round_trip(*secret);
            assert(self.devices@ == old(self).devices@.insert(id.hex(), kept));
            assert forall|other: DeviceId| other.0@ != id.0@ implies #[trigger] self.secret_of(other)
                == old(self).secret_of(other) by {
                if other.hex() == id.hex() {
                    crate::device_id::lemma_device_id_hex_injective(other, id);
                }
            }
        }
    }

    /// The paired devices by name: the positions of their entries.
    pub fn list_devices(&self) -> (r: Vec<usize>)
        ensures
            order::is_order(r@, list_keys(self.devices.entries@)),
    {
        let mut keys: Vec<SortKey> = Vec::new();
        let mut i: usize = 0;
        assert(order::key_views(keys@) =~= list_keys(self.devices.entries@).take(0));
        while i < self.devices.entries.len()
            invariant
                i <= self.devices.entries@.len(),
                order::key_views(keys@) == list_keys(self.devices.entries@).take(i as int),
            decreases self.devices.entries@.len() - i,
        {
            let ghost before = order::key_views(keys@);
            let device = &self.devices.entries[i].1;
            let key = SortKey {
                name: text::chars_of(device.name.as_str()),
                id: text::chars_of(device.id.to_hex().as_str()),
            };
            let ghost added = key@;
            keys.push(key);
            assert(order::key_views(keys@) =~= before.push(added));
            i += 1;
            assert(order::key_views(keys@) =~= list_keys(self.devices.entries@).take(i as int));
        }
        assert(list_keys(self.devices.entries@).take(i as int) =~= list_keys(
            self.devices.entries@,
        ));
        sort_keys(keys.as_slice())
    }

    /// Forgets the one device that a selector means.
    pub fn remove_device(&mut self, selector: &str) -> (r: Result<TrustedDevice, TrustError>)
        requires
            old(self).wf(),
        ensures
            final(self).wf(),
            final(self).host_id == old(self).host_id,
            match r {
                Ok(removed) => exists|i: int|
                    {
                        &&& 0 <= i < old(self).devices.entries@.len()
                        &&& #[trigger] selected(old(self).devices.entries@[i], selector@)
                        &&& forall|j: int|
                            0 <= j < old(self).devices.entries@.len() && #[trigger] selected(
                                old(self).devices.entries@[j],
                                selector@,
                            ) ==> j == i
                        &&& removed == old(self).devices.entries@[i].1
                        &&& final(self).devices@ == old(self).devices@.remove(
                            old(self).devices.entries@[i].0@,
                        )
                    },
                Err(TrustError::NotFound) => {
                    &&& final(self).devices@ == old(self).devices@
                    &&& forall|j: int|
                        0 <= j < old(self).devices.entries@.len() ==> !#[trigger] selected(
                            old(self).devices.entries@[j],
                            selector@,
                        )
                },
                Err(TrustError::Ambiguous) => {
                    &&& final(self).devices@ == old(self).devices@
                    &&& exists|i: int, j: int|
                        0 <= i < j < old(self).devices.entries@.len() && #[trigger] selected(
                            old(self).devices.entries@[i],
                            selector@,
                        ) && #[trigger] selected(old(self).devices.entries@[j], selector@)
                },
            },
    {
        let wanted = normalize(selector);
        let mut found: Option<usize> = None;
        let mut i: usize = 0;
        while i < self.devices.entries.len()
            invariant
                i <= self.devices.entries@.len(),
                *self == *old(self),
                self.wf(),
                wanted@ == normalized(selector@),
                match found {
                    None => forall|j: int|
                        0 <= j < i ==> !#[trigger] selected(
                            self.devices.entries@[j],
                            selector@,
                        ),
                    Some(k) => k < i && selected(self.devices.entries@[k as int], selector@)
                        && forall|j: int|
                        0 <= j < i && #[trigger] selected(self.devices.entries@[j], selector@)
                            ==> j == k,
                },
            decreases self.devices.entries@.len() - i,
        {
            let key = text::chars_of(self.devices.entries[i].0.as_str());
            let name = text::chars_of(self.devices.entries[i].1.name.as_str());
            if text::begins_with(key.as_slice(), wanted.as_slice())
                || text::same_chars_ignoring_case(name.as_slice(), wanted.as_slice()) {
                assert(selected(self.devices.entries@[i as int], selector@));
                if found.is_some() {
                    return Err(TrustError::Ambiguous);
                }
                found = Some(i);
            }
            i += 1;
        }
        match found {
            None => Err(TrustError::NotFound),
            Some(k) => {
                let key = String::from_str(self.devices.entries[k].0.as_str());
                proof {
                    table::lemma_present(self.devices.entries@, k as int);
                }
                match self.devices.remove(key.as_str()) {
                    Some(removed) => Ok(removed),
                    None => Err(TrustError::NotFound),
                }
            },
        }
    }
}

/// A device that is forgotten shares no secret any more.
pub proof fn lemma_removed_has_no_secret(before: TrustStore, after: TrustStore, id: DeviceId)
    requires
        after.devices@ == before.devices@.remove(id.hex()),
    ensures
        after.secret_of(id) == Ok::<Option<Seq<u8>>, HexError>(None),
{
}

/// A host always has a name that can be seen: the first setting that is there, as it is, unless it
/// is blank.
pub proof fn lemma_host_has_a_name(computer: Option<Seq<char>>, host: Option<Seq<char>>, name: Seq<char>)
    requires
        text::trim(name).len() > 0,
    ensures
        host_name_of(Some(name), host) == name,
        host_name_of(None, Some(name)) == name,
        text::trim(host_name_of(computer, host)).len() > 0,
{
    reveal_strlit("sidewire-host");
    text::lemma_trim_nothing("sidewire-host"@);
}

/// The beginning of its identity selects a paired device, and so does its name, in any case and
/// with white space around it.
pub proof fn lemma_paired_device_is_selected(entry: (String, TrustedDevice), n: int, typed: Seq<char>)
    requires
        0 <= n <= 32,
        entry.0@ == entry.1.id.hex(),
        text::lowered(text::trim(typed)) == text::lowered(entry.1.name@),
    ensures
        selected(entry, entry.1.id.hex().take(n)),
        selected(entry, typed),
{
    let h = entry.1.id.hex();
    let s = h.take(n);
    let id = entry.1.id;
    assert(id.0@.len() == 16);
    assert forall|i: int| 0 <= i < s.len() implies text::lower(#[trigger] s[i]) == s[i]
        && !text::is_space(s[i]) by {
        let d = if i % 2 == 0 {
            (id.0@[i / 2] / 16) as nat
        } else {
            (id.0@[i / 2] % 16) as nat
        };
        hex::lemma_hex_digit(d);
        assert(s[i] == hex::hex_digit(d));
    }
    if s.len() > 0 {
        assert(!text::is_space(s[0]) && !text::is_space(s[s.len() - 1]));
    }
    text::lemma_trim_nothing(s);
    assert(text::lowered(s) =~= s);
    assert(h.take(s.len() as int) =~= s);
    let name = text::lowered(text::trim(typed));
    assert(text::lowered(name) =~= name);
}

/// A host that has an identity keeps it, whatever is drawn; one that has none takes what is drawn,
/// and from then on keeps that.
pub proof fn lemma_host_keeps_its_identity(
    host_id: Option<Seq<u8>>,
    random: Seq<u8>,
    again: Seq<u8>,
)
    ensures
        identity_kept(Some(identity_kept(host_id, random).0), again) == (
            identity_kept(host_id, random).0,
            false,
        ),
        identity_kept(None, random) == (random, true),
        identity_kept(host_id, random).1 <==> host_id is None,
{
}

} // verus!
