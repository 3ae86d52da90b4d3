//! Pairing a host with a device by a PIN.

use spake2::{Ed25519Group, Spake2};
use vstd::prelude::*;
use vstd::string::*;
use vstd::utf8::*;
use crate::device_id::{key_from_hex, key_to_hex, DeviceId, HexError};
use crate::frame;
use crate::frame::{negotiated_version, protocol_label, VERSION};
use crate::hex;
use crate::messages::PAIRING_PORT;
use crate::security;
use crate::security::{pairing_psk, security_prologue};
use crate::text;

verus! {

pub const MAX_PAIRING_CONNECTIONS: usize = 4;

pub const MAX_PAIRING_ATTEMPTS_PER_IP: usize = 5;

pub const MAX_PIN_FAILURES: u8 = 5;

/// The window in which the attempts of one address are counted, in nanoseconds.
pub const PAIRING_RATE_WINDOW_NANOS: u64 = 60_000_000_000;

pub const PAIRING_TIMEOUT_SECS: u64 = 65;

#[verifier::external_type_specification]
#[verifier::external_body]
pub struct ExSpakeError(spake2::Error);

/// One side of a key exchange: a `Spake2` over the Edwards curve. Its type parameter is bounded
/// by a trait of the outside crate, so it is held here and seen only through [`exchange`].
#[verifier::external_body]
pub struct KeyExchange {
    state: Spake2<Ed25519Group>,
}

/// What a key exchange was begun with, and the message that it gave to the peer: whether it is
/// the first side, the password, both identities, the message.
pub uninterp spec fn exchange(state: KeyExchange) -> (
    bool,
    Seq<u8>,
    Seq<u8>,
    Seq<u8>,
    Seq<u8>,
);

/// The key of an exchange: it depends on the password, both identities, and the messages of the
/// first and the second side, and on nothing else.
pub uninterp spec fn exchange_key(
    password: Seq<u8>,
    id_a: Seq<u8>,
    id_b: Seq<u8>,
    message_a: Seq<u8>,
    message_b: Seq<u8>,
) -> Seq<u8>;

/// `Spake2::start_a` begins an exchange as its first side. The message is 33 bytes and begins
/// with the letter A; the rest of it hangs on a fresh random number, so nothing is said of it.
#[verifier::external_body]
fn exchange_first(password: &[u8], id_a: &[u8], id_b: &[u8]) -> (r: (
    KeyExchange,
    Vec<u8>,
))
    ensures
        exchange(r.0) == (true, password@, id_a@, id_b@, r.1@),
        r.1@.len() == 33,
        r.1@[0] == 65,
{
    let (state, message) = Spake2::<Ed25519Group>::start_a(
        &spake2::Password::new(password),
        &spake2::Identity::new(id_a),
        &spake2::Identity::new(id_b),
    );
    (KeyExchange { state }, message)
}

/// `Spake2::start_b` begins an exchange as its second side. The message is 33 bytes and begins
/// with the letter B; the rest of it hangs on a fresh random number, so nothing is said of it.
#[verifier::external_body]
fn exchange_second(password: &[u8], id_a: &[u8], id_b: &[u8]) -> (r: (
    KeyExchange,
    Vec<u8>,
))
    ensures
        exchange(r.0) == (false, password@, id_a@, id_b@, r.1@),
        r.1@.len() == 33,
        r.1@[0] == 66,
{
    let (state, message) = Spake2::<Ed25519Group>::start_b(
        &spake2::Password::new(password),
        &spake2::Identity::new(id_a),
        &spake2::Identity::new(id_b),
    );
    (KeyExchange { state }, message)
}

/// Whether some exchange of one side sent a message.
pub open spec fn sent_by(first: bool, message: Seq<u8>) -> bool {
    exists|peer: KeyExchange| #[trigger]
        exchange(peer).4 == message && exchange(peer).0 == first
}

/// `Spake2::finish` gives the 32 bytes of the key for the peer's message. It refuses a message of
/// another length or of the wrong side, and one that encodes no point of the curve; what the
/// other side's exchange sent is taken.
#[verifier::external_body]
fn exchange_finish(state: KeyExchange, message: &[u8]) -> (r: Result<
    Vec<u8>,
    spake2::Error,
>)
    ensures
        r matches Ok(key) ==> {
            let (first, password, id_a, id_b, own) = exchange(state);
            &&& key@.len() == 32
            &&& message@.len() == 33
            &&& message@[0] == if first {
                66u8
            } else {
                65u8
            }
            &&& key@ == if first {
                exchange_key(password, id_a, id_b, own, message@)
            } else {
                exchange_key(password, id_a, id_b, message@, own)
            }
        },
        sent_by(!exchange(state).0, message@) ==> r is Ok,
{
    state.state.finish(message)
}

/// Why pairing fails.
#[derive(Debug, Clone, Copy, PartialEq, Eq, Structural)]
pub enum PairError {
    NotEnabled,
    MajorMismatch,
    HostMajorMismatch(u16),
    KeyExchange,
    Authentication,
    HostAuthentication,
    HostChanged,
    DeviceChanged,
    PinUsed,
    PinFormat,
    TargetAndDiscover,
    NoTarget,
    NothingDiscovered,
    ManyDiscovered,
}

impl PairError {
    pub open spec fn text(self) -> Seq<char> {
        match self {
            PairError::NotEnabled => "pairing is not enabled or has expired"@,
            PairError::MajorMismatch => "pairing protocol major mismatch"@,
            PairError::HostMajorMismatch(theirs) => "pairing protocol mismatch: device "@
                + frame::label(theirs) + ", host "@ + frame::label(VERSION),
            PairError::KeyExchange => "pairing key exchange failed"@,
            PairError::Authentication => "pairing authentication failed"@,
            PairError::HostAuthentication => "pairing authentication failed; check the PIN"@,
            PairError::HostChanged => "pairing host identity changed during handshake"@,
            PairError::DeviceChanged => "paired device identity changed during handshake"@,
            PairError::PinUsed => "pairing PIN was already used or expired"@,
            PairError::PinFormat => "pairing PIN must be exactly 6 digits"@,
            PairError::TargetAndDiscover => "use either a target or --discover, not both"@,
            PairError::NoTarget => "provide a phone IP or use --discover"@,
            PairError::NothingDiscovered => "no pairable SideWire device discovered"@,
            PairError::ManyDiscovered => "multiple devices discovered; specify the phone IP explicitly"@,
        }
    }

    pub fn message(self) -> (r: String)
        ensures
            r@ == self.text(),
    {
        match self {
            PairError::NotEnabled => String::from_str("pairing is not enabled or has expired"),
            PairError::MajorMismatch => String::from_str("pairing protocol major mismatch"),
            PairError::HostMajorMismatch(theirs) => text::cat4(
                "pairing protocol mismatch: device ",
                protocol_label(theirs).as_str(),
                ", host ",
                protocol_label(VERSION).as_str(),
            ),
            PairError::KeyExchange => String::from_str("pairing key exchange failed"),
            PairError::Authentication => String::from_str("pairing authentication failed"),
            PairError::HostAuthentication => String::from_str(
                "pairing authentication failed; check the PIN",
            ),
            PairError::HostChanged => String::from_str(
                "pairing host identity changed during handshake",
            ),
            PairError::DeviceChanged => String::from_str(
                "paired device identity changed during handshake",
            ),
            PairError::PinUsed => String::from_str("pairing PIN was already used or expired"),
            PairError::PinFormat => String::from_str("pairing PIN must be exactly 6 digits"),
            PairError::TargetAndDiscover => String::from_str(
                "use either a target or --discover, not both",
            ),
            PairError::NoTarget => String::from_str("provide a phone IP or use --discover"),
            PairError::NothingDiscovered => String::from_str(
                "no pairable SideWire device discovered",
            ),
            PairError::ManyDiscovered => String::from_str(
                "multiple devices discovered; specify the phone IP explicitly",
            ),
        }
    }
}

/// A PIN is six digits.
pub open spec fn is_pin(s: Seq<char>) -> bool {
    s.len() == 6 && text::all_digits(s)
}

fn check_pin(s: &[char]) -> (r: bool)
    ensures
        r == is_pin(s@),
{
    if s.len() != 6 {
        return false;
    }
    let mut i: usize = 0;
    while i < 6
        invariant
            i <= 6,
            s@.len() == 6,
            forall|j: int| 0 <= j < i ==> text::is_digit(#[trigger] s@[j]),
        decreases 6 - i,
    {
        let c = s[i];
        if !('0' <= c && c <= '9') {
            assert(!text::is_digit(s@[i as int]));
            return false;
        }
        i += 1;
    }
    true
}

/// The PIN that a user typed.
pub open spec fn typed_pin(typed: Seq<char>) -> Option<Seq<char>> {
    if is_pin(text::trim(typed)) {
        Some(text::trim(typed))
    } else {
        None
    }
}

/// Any six digits are a PIN as they were typed, with white space around them or none; what is
/// taken for a PIN is always six digits.
pub proof fn lemma_any_six_digits_are_a_pin(before: Seq<char>, pin: Seq<char>, after: Seq<char>)
    requires
        pin.len() == 6,
        forall|i: int| 0 <= i < 6 ==> '0' <= #[trigger] pin[i] <= '9',
        forall|i: int| 0 <= i < before.len() ==> text::is_space(#[trigger] before[i]),
        forall|i: int| 0 <= i < after.len() ==> text::is_space(#[trigger] after[i]),
    ensures
        typed_pin(before + pin + after) == Some(pin),
        forall|typed: Seq<char>|
            (#[trigger] typed_pin(typed)) matches Some(p) ==> p.len() == 6 && text::all_digits(p),
{
    assert('0' <= pin[0] <= '9' && '0' <= pin[5] <= '9');
    text::lemma_trim_surrounded(before, pin, after);
    assert(text::all_digits(pin));
}

/// The PIN that a user typed.
pub fn read_pin(typed: &str) -> (r: Result<String, PairError>)
    ensures
        match r {
            Ok(pin) => typed_pin(typed@) == Some(pin@),
            Err(e) => e == PairError::PinFormat && typed_pin(typed@) is None,
        },
{
    let all = text::chars_of(typed);
    let pin = text::trimmed(all.as_slice());
    if !check_pin(pin.as_slice()) {
        return Err(PairError::PinFormat);
    }
    Ok(text::string_of(pin.as_slice()))
}

/// What follows a prefix in the first line that begins with it.
pub open spec fn first_with(lines: Seq<Seq<char>>, prefix: Seq<char>) -> Option<Seq<char>>
    decreases lines.len(),
{
    if lines.len() == 0 {
        None
    } else if text::starts_with(lines[0], prefix) {
        text::strip_prefix(lines[0], prefix)
    } else {
        first_with(lines.drop_first(), prefix)
    }
}

fn find_line(lines: &[Vec<char>], prefix: &str) -> (r: Option<Vec<char>>)
    ensures
        match r {
            Some(rest) => first_with(text::contents(lines@), prefix@) == Some(rest@),
            None => first_with(text::contents(lines@), prefix@) is None,
        },
{
    let ghost all = text::contents(lines@);
    let mut i: usize = 0;
    assert(all.skip(0) =~= all);
    while i < lines.len()
        invariant
            i <= lines@.len(),
            all == text::contents(lines@),
            first_with(all, prefix@) == first_with(all.skip(i as int), prefix@),
        decreases lines@.len() - i,
    {
        proof {
            assert(all.skip(i as int)[0] == lines@[i as int]@);
            assert(all.skip(i as int).drop_first() =~= all.skip(i + 1));
        }
        match text::after_prefix(lines[i].as_slice(), prefix) {
            Some(rest) => {
                return Some(rest);
            },
            None => {},
        }
        i += 1;
    }
    None
}

/// The PIN that a pairing file offers at a time in seconds: it names the PIN and the last second
/// at which the PIN is good.
pub open spec fn offered_pin(file: Seq<char>, now: nat) -> Option<Seq<char>> {
    let lines = text::lines(file);
    let until = match first_with(lines, "until="@) {
        Some(value) => match text::parse_unsigned(value, u64::MAX as nat) {
            Some(n) => n,
            None => 0,
        },
        None => 0,
    };
    match first_with(lines, "pin="@) {
        Some(pin) => if now <= until && is_pin(pin) {
            Some(pin)
        } else {
            None
        },
        None => None,
    }
}

/// The PIN that a pairing file offers now; none where there is no file.
pub fn pairing_pin(file: Option<&str>, now: u64) -> (r: Option<String>)
    ensures
        match r {
            Some(pin) => file is Some && offered_pin(file->0@, now as nat) == Some(pin@),
            None => file matches Some(content) ==> offered_pin(content@, now as nat) is None,
        },
{
    match file {
        None => None,
        Some(content) => {
            let lines = text::lines_of(content);
            let until: u64 = match find_line(lines.as_slice(), "until=") {
                Some(value) => match text::read_unsigned(value.as_slice(), u64::MAX) {
                    Some(n) => n,
                    None => 0,
                },
                None => 0,
            };
            match find_line(lines.as_slice(), "pin=") {
                None => None,
                Some(pin) => {
                    if now > until || !check_pin(pin.as_slice()) {
                        return None;
                    }
                    Some(text::string_of(pin.as_slice()))
                },
            }
        },
    }
}

/// A text without line ends.
pub open spec fn one_line(s: Seq<char>) -> Seq<char>
    decreases s.len(),
{
    if s.len() == 0 {
        Seq::empty()
    } else if s.last() == '\r' || s.last() == '\n' {
        one_line(s.drop_last())
    } else {
        one_line(s.drop_last()).push(s.last())
    }
}

fn on_one_line(s: &str) -> (r: String)
    ensures
        r@ == one_line(s@),
{
    let chars = text::chars_of(s);
    let mut out = String::new();
    let mut i: usize = 0;
    assert(chars@.take(0) =~= Seq::<char>::empty());
    while i < chars.len()
        invariant
            i <= chars@.len(),
            out@ == one_line(chars@.take(i as int)),
        decreases chars@.len() - i,
    {
        proof {
            assert(chars@.take(i + 1).drop_last() =~= chars@.take(i as int));
        }
        let c = chars[i];
        if c != '\r' && c != '\n' {
            out.push(c);
        }
        i += 1;
    }
    assert(chars@.take(i as int) =~= chars@);
    out
}

/// What a device stores of a host that it is paired with.
pub open spec fn pair_file(host_name: Seq<char>, secret: Seq<u8>) -> Seq<char> {
    "name="@ + one_line(host_name) + "\nsecret="@ + hex::hex(secret) + "\n"@
}

/// What a device stores of a host that it is paired with.
pub fn paired_host_file(host_name: &str, secret: &[u8; 32]) -> (r: String)
    ensures
        r@ == pair_file(host_name@, secret@),
{
    let mut out = text::cat4(
        "name=",
        on_one_line(host_name).as_str(),
        "\nsecret=",
        key_to_hex(secret).as_str(),
    );
    out.append("\n");
    out
}

/// The name of the file of a host.
pub open spec fn pair_file_name(host_id: DeviceId) -> Seq<char> {
    host_id.hex() + ".pair"@
}

/// The file of a host below the directory of paired hosts.
pub fn paired_file_name(host_id: DeviceId) -> (r: String)
    ensures
        r@ == pair_file_name(host_id),
{
    text::cat2(host_id.to_hex().as_str(), ".pair")
}

/// The secret in what is stored of a host.
pub open spec fn stored_secret(content: Seq<char>) -> Result<Option<Seq<u8>>, HexError> {
    match first_with(text::lines(content), "secret="@) {
        None => Ok(None),
        Some(value) => match hex::parse_hex(value, 32) {
            Some(bytes) => Ok(Some(bytes)),
            None => Err(HexError::Key),
        },
    }
}

/// The secret that is shared with a host, from what is stored of it; none where nothing is.
pub fn paired_host_secret(file: Option<&str>) -> (r: Result<Option<[u8; 32]>, HexError>)
    ensures
        match file {
            None => r == Ok::<Option<[u8; 32]>, HexError>(None),
            Some(content) => match r {
                Ok(Some(key)) => stored_secret(content@) == Ok::<Option<Seq<u8>>, HexError>(
                    Some(key@),
                ),
                Ok(None) => stored_secret(content@) == Ok::<Option<Seq<u8>>, HexError>(None),
                Err(e) => stored_secret(content@) == Err::<Option<Seq<u8>>, HexError>(e),
            },
        },
{
    match file {
        None => Ok(None),
        Some(content) => {
            let lines = text::lines_of(content);
            match find_line(lines.as_slice(), "secret=") {
                None => Ok(None),
                Some(value) => match key_from_hex(text::string_of(value.as_slice()).as_str()) {
                    Ok(key) => Ok(Some(key)),
                    Err(e) => Err(e),
                },
            }
        },
    }
}

proof fn lemma_one_line(s: Seq<char>, i: int)
    requires
        0 <= i < one_line(s).len(),
    ensures
        one_line(s)[i] != '\n',
        one_line(s)[i] != '\r',
    decreases s.len(),
{
    if s.last() == '\r' || s.last() == '\n' {
        lemma_one_line(s.drop_last(), i);
    } else if i < one_line(s.drop_last()).len() {
        lemma_one_line(s.drop_last(), i);
    }
}

/// Splitting a text without separators, behind another and a separator.
proof fn lemma_split_line(a: Seq<char>, b: Seq<char>)
    requires
        forall|i: int| 0 <= i < b.len() ==> b[i] != '\n',
    ensures
        text::split(b, '\n') == seq![b],
        text::split(a.push('\n') + b, '\n') == text::split(a, '\n').push(b),
    decreases b.len(),
{
    let s = a.push('\n') + b;
    if b.len() == 0 {
        assert(b =~= Seq::<char>::empty());
        assert(s =~= a.push('\n'));
        assert(s.drop_last() =~= a);
    } else {
        let init = b.drop_last();
        lemma_split_line(a, init);
        assert(s.drop_last() =~= a.push('\n') + init);
        assert(init.push(b.last()) =~= b);
        assert(text::split(b, '\n') =~= seq![b]);
        let before = text::split(a, '\n').push(init);
        assert(before.drop_last() =~= text::split(a, '\n'));
        assert(text::split(s, '\n') =~= text::split(a, '\n').push(b));
    }
}

/// The secret read from what is stored of a host is the secret that was stored, whatever the
/// host calls itself.
pub proof fn lemma_pair_file_round_trip(host_name: Seq<char>, secret: Seq<u8>)
    ensures
        first_with(text::lines(pair_file(host_name, secret)), "secret="@) == Some(hex::hex(secret)),
        hex::parse_hex(hex::hex(secret), secret.len()) == Some(secret),
{
    reveal_strlit("name=");
    reveal_strlit("\nsecret=");
    reveal_strlit("secret=");
    reveal_strlit("\n");
    let name = "name="@ + one_line(host_name);
    let line = "secret="@ + hex::hex(secret);
    let file = pair_file(host_name, secret);
    assert forall|i: int| 0 <= i < name.len() implies name[i] != '\n' && name[i] != '\r' by {
        if i >= 5 {
            lemma_one_line(host_name, i - 5);
        }
    }
    assert forall|i: int| 0 <= i < line.len() implies line[i] != '\n' && line[i] != '\r' by {
        if i >= 7 {
            let k = i - 7;
            assert(line[i] == hex::hex(secret)[k]);
            hex::lemma_hex_digit(
                if k % 2 == 0 {
                    (secret[k / 2] / 16) as nat
                } else {
                    (secret[k / 2] % 16) as nat
                },
            );
        }
    }
    let none = Seq::<char>::empty();
    lemma_split_line(none, name);
    lemma_split_line(name, line);
    let two = name.push('\n') + line;
    lemma_split_line(two, none);
    assert(two.push('\n') + none =~= file);
    let parts = text::split(file, '\n');
    assert(parts =~= seq![name, line, none]);
    let lines = text::lines(file);
    assert(text::without_return(name) == name);
    assert(text::without_return(line) == line);
    assert(lines =~= seq![name, line]);
    assert(name[0] == 'n' && "secret="@[0] == 's');
    assert(!text::starts_with(name, "secret="@)) by {
        if text::starts_with(name, "secret="@) {
            assert(name.take(7)[0] == 's');
        }
    }
    assert(lines.drop_first() =~= seq![line]);
    assert(line.take(7) =~= "secret="@);
    assert(line.skip(7) =~= hex::hex(secret));
    let rest = lines.drop_first();
    assert(text::starts_with(rest[0], "secret="@));
    assert(first_with(rest, "secret="@) == Some(hex::hex(secret)));
    assert(lines[0] == name);
    hex::lemma_hex_round_trip(secret);
}

/// The address of a peer.
#[derive(Debug, Clone, Copy, PartialEq, Eq, Structural)]
pub enum PeerAddr {
    V4(u32),
    V6(u128),
}

/// The attempts that still count at a time: those within the window.
pub open spec fn recent(attempts: Seq<u64>, now: u64) -> Seq<u64>
    decreases attempts.len(),
{
    if attempts.len() > 0 && now - attempts[0] > PAIRING_RATE_WINDOW_NANOS {
        recent(attempts.drop_first(), now)
    } else {
        attempts
    }
}

/// Whether an address may try again, and its attempts then.
pub open spec fn attempted(attempts: Seq<u64>, now: u64) -> (bool, Seq<u64>) {
    let kept = recent(attempts, now);
    if kept.len() < MAX_PAIRING_ATTEMPTS_PER_IP {
        (true, kept.push(now))
    } else {
        (false, kept)
    }
}

/// What guards the PIN against guessing.
pub struct PairingGuard {
    pub per_ip: Vec<(PeerAddr, Vec<u64>)>,
    pub current_pin: Option<String>,
    pub failures: u8,
}

pub open spec fn attempts_in(entries: Seq<(PeerAddr, Vec<u64>)>, ip: PeerAddr) -> Seq<u64>
    decreases entries.len(),
{
    if entries.len() == 0 {
        Seq::empty()
    } else if entries.last().0 == ip {
        entries.last().1@
    } else {
        attempts_in(entries.drop_last(), ip)
    }
}

impl PairingGuard {
    /// The attempts of an address that may still count.
    pub open spec fn attempts(&self, ip: PeerAddr) -> Seq<u64> {
        attempts_in(self.per_ip@, ip)
    }

    /// Every address has one entry.
    pub open spec fn wf(&self) -> bool {
        forall|i: int, j: int|
            0 <= i < j < self.per_ip@.len() ==> (#[trigger] self.per_ip@[i]).0 != (
            #[trigger] self.per_ip@[j]).0
    }

    pub fn new() -> (r: PairingGuard)
        ensures
            r.wf(),
            forall|ip: PeerAddr| #[trigger] r.attempts(ip) == Seq::<u64>::empty(),
            r.current_pin is None,
            r.failures == 0,
    {
        PairingGuard { per_ip: Vec::new(), current_pin: None, failures: 0 }
    }

    /// Counts an attempt of an address at a time in nanoseconds, and says whether it may go on.
    pub fn allow_ip(&mut self, ip: PeerAddr, now: u64) -> (r: bool)
        requires
            old(self).wf(),
        ensures
            final(self).wf(),
            (r, final(self).attempts(ip)) == attempted(old(self).attempts(ip), now),
            forall|other: PeerAddr|
                other != ip ==> #[trigger] final(self).attempts(other) == old(self).attempts(other),
            final(self).current_pin == old(self).current_pin,
            final(self).failures == old(self).failures,
    {
        let mut at: usize = 0;
        while at < self.per_ip.len() && self.per_ip[at].0 != ip
            invariant
                at <= self.per_ip@.len(),
                self.per_ip@ == old(self).per_ip@,
                self.current_pin == old(self).current_pin,
                self.failures == old(self).failures,
                forall|i: int| 0 <= i < at ==> (#[trigger] self.per_ip@[i]).0 != ip,
            decreases self.per_ip@.len() - at,
        {
            at += 1;
        }
        let ghost before = self.per_ip@;
        if at == self.per_ip.len() {
            proof {
                lemma_attempts_absent(before, ip);
            }
            let mut first: Vec<u64> = Vec::new();
            first.push(now);
            assert(first@ =~= Seq::<u64>::empty().push(now));
            self.per_ip.push((ip, first));
            proof {
                assert(self.per_ip@.drop_last() =~= before);
            }
            return true;
        }
        proof {
            lemma_attempts_present(before, at as int);
        }
        let mut kept = keep_recent(self.per_ip[at].1.as_slice(), now);
        let allowed = kept.len() < MAX_PAIRING_ATTEMPTS_PER_IP;
        if allowed {
            kept.push(now);
        }
        self.per_ip.set(at, (ip, kept));
        proof {
            let after = self.per_ip@;
            assert forall|i: int, j: int| 0 <= i < j < after.len() implies (#[trigger] after[i]).0
                != (#[trigger] after[j]).0 by {
                assert(after[i].0 == before[i].0);
                assert(after[j].0 == before[j].0);
            }
            lemma_attempts_present(after, at as int);
            assert forall|other: PeerAddr| other != ip implies #[trigger] attempts_in(after, other)
                == attempts_in(before, other) by {
                lemma_attempts_elsewhere(before, after, at as int, other);
            }
        }
        allowed
    }

    /// A pairing succeeded: what went wrong before is forgotten.
    pub fn clear_success(&mut self)
        ensures
            final(self).current_pin is None,
            final(self).failures == 0,
            final(self).per_ip@ == old(self).per_ip@,
    {
        self.current_pin = None;
        self.failures = 0;
    }

    /// Counts a failed attempt against the PIN that is offered, if one is; says whether the PIN
    /// is to be withdrawn.
    pub fn record_failure(&mut self, pin: Option<String>) -> (r: bool)
        ensures
            final(self).per_ip@ == old(self).per_ip@,
            match pin {
                None => !r && final(self).current_pin == old(self).current_pin && final(self).failures == old(self).failures,
                Some(offered) => {
                    let counted = failures_after(
                        match old(self).current_pin {
                            Some(p) => Some(p@),
                            None => None,
                        },
                        old(self).failures,
                        offered@,
                    );
                    &&& r == withdraws(counted)
                    &&& final(self).failures == if r {
                        0
                    } else {
                        counted
                    }
                    &&& r ==> final(self).current_pin is None
                    &&& !r ==> (final(self).current_pin matches Some(p) && p@ == offered@)
                },
            },
    {
        match pin {
            None => false,
            Some(offered) => {
                let same = match &self.current_pin {
                    Some(current) => text::equal(current.as_str(), offered.as_str()),
                    None => false,
                };
                if !same {
                    self.current_pin = Some(offered);
                    self.failures = 0;
                }
                if self.failures < 255 {
                    self.failures = self.failures + 1;
                }
                if self.failures >= MAX_PIN_FAILURES {
                    self.current_pin = None;
                    self.failures = 0;
                    return true;
                }
                false
            },
        }
    }
}

/// The number of failures against a PIN after one more: failures against another PIN do not
/// count.
pub open spec fn failures_after(current: Option<Seq<char>>, failures: u8, offered: Seq<char>) -> u8 {
    let counted = if current == Some(offered) {
        failures as int
    } else {
        0
    };
    if counted < 255 {
        (counted + 1) as u8
    } else {
        255
    }
}

/// Whether a PIN is withdrawn after so many failures against it.
pub open spec fn withdraws(failures: u8) -> bool {
    failures >= MAX_PIN_FAILURES
}

/// The failures against a PIN that is tried so often without success, from the first on.
pub open spec fn failures_of(pin: Seq<char>, tries: nat) -> u8
    decreases tries,
{
    if tries == 0 {
        0
    } else {
        failures_after(
            if tries == 1 {
                None
            } else {
                Some(pin)
            },
            failures_of(pin, (tries - 1) as nat),
            pin,
        )
    }
}

/// A PIN that is tried again and again without success is withdrawn with the fifth try and not
/// before.
pub proof fn lemma_fifth_failure_withdraws(pin: Seq<char>, tries: nat)
    requires
        tries <= 5,
    ensures
        failures_of(pin, tries) == tries,
        withdraws(failures_of(pin, tries)) <==> tries == 5,
    decreases tries,
{
    if tries > 0 {
        lemma_fifth_failure_withdraws(pin, (tries - 1) as nat);
    }
}

/// A PIN is withdrawn with the fifth failure against it, and not before.
pub proof fn lemma_pin_survives_four_failures(pin: Seq<char>, before: u8)
    requires
        before < MAX_PIN_FAILURES,
    ensures
        failures_after(Some(pin), before, pin) == before + 1,
        failures_after(None, before, pin) == 1,
        forall|other: Seq<char>|
            other != pin ==> #[trigger] failures_after(Some(other), before, pin) == 1,
{
}

proof fn lemma_attempts_absent(entries: Seq<(PeerAddr, Vec<u64>)>, ip: PeerAddr)
    requires
        forall|i: int| 0 <= i < entries.len() ==> (#[trigger] entries[i]).0 != ip,
    ensures
        attempts_in(entries, ip) == Seq::<u64>::empty(),
    decreases entries.len(),
{
    if entries.len() > 0 {
        lemma_attempts_absent(entries.drop_last(), ip);
    }
}

proof fn lemma_attempts_present(entries: Seq<(PeerAddr, Vec<u64>)>, at: int)
    requires
        0 <= at < entries.len(),
        forall|i: int, j: int|
            0 <= i < j < entries.len() ==> (#[trigger] entries[i]).0 != (#[trigger] entries[j]).0,
    ensures
        attempts_in(entries, entries[at].0) == entries[at].1@,
    decreases entries.len(),
{
    if at < entries.len() - 1 {
        assert(entries[at].0 != entries[entries.len() - 1].0);
        lemma_attempts_present(entries.drop_last(), at);
    }
}

proof fn lemma_attempts_elsewhere(
    before: Seq<(PeerAddr, Vec<u64>)>,
    after: Seq<(PeerAddr, Vec<u64>)>,
    at: int,
    other: PeerAddr,
)
    requires
        before.len() == after.len(),
        0 <= at < before.len(),
        before[at].0 == after[at].0,
        before[at].0 != other,
        forall|i: int| 0 <= i < before.len() && i != at ==> before[i] == after[i],
    ensures
        attempts_in(before, other) == attempts_in(after, other),
    decreases before.len(),
{
    if at < before.len() - 1 {
        lemma_attempts_elsewhere(before.drop_last(), after.drop_last(), at, other);
    } else {
        assert(before.drop_last() =~= after.drop_last());
    }
}

fn keep_recent(attempts: &[u64], now: u64) -> (r: Vec<u64>)
    ensures
        r@ == recent(attempts@, now),
{
    let mut from: usize = 0;
    assert(attempts@.skip(0) =~= attempts@);
    while from < attempts.len() && now > attempts[from] && now - attempts[from]
        > PAIRING_RATE_WINDOW_NANOS
        invariant
            from <= attempts@.len(),
            recent(attempts@, now) == recent(attempts@.skip(from as int), now),
        decreases attempts@.len() - from,
    {
        assert(attempts@.skip(from as int).drop_first() =~= attempts@.skip(from + 1));
        from += 1;
    }
    let mut out: Vec<u64> = Vec::new();
    let mut i: usize = from;
    while i < attempts.len()
        invariant
            from <= i <= attempts@.len(),
            out@ == attempts@.subrange(from as int, i as int),
        decreases attempts@.len() - i,
    {
        out.push(attempts[i]);
        i += 1;
        assert(out@ =~= attempts@.subrange(from as int, i as int));
    }
    assert(out@ =~= attempts@.skip(from as int));
    out
}

/// The attempts of one address that were let through, when it tries at the given times, and
/// those that still count at the end.
pub open spec fn let_through(times: Seq<u64>) -> (Seq<u64>, Seq<u64>)
    decreases times.len(),
{
    if times.len() == 0 {
        (Seq::empty(), Seq::empty())
    } else {
        let (passed, counted) = let_through(times.drop_last());
        let (allowed, after) = attempted(counted, times.last());
        (
            if allowed {
                passed.push(times.last())
            } else {
                passed
            },
            after,
        )
    }
}

proof fn lemma_recent_is_suffix(attempts: Seq<u64>, now: u64) -> (dropped: int)
    requires
        forall|i: int, j: int|
            0 <= i <= j < attempts.len() ==> #[trigger] attempts[i] <= #[trigger] attempts[j],
    ensures
        0 <= dropped <= attempts.len(),
        recent(attempts, now) == attempts.skip(dropped),
        forall|i: int| 0 <= i < dropped ==> now - #[trigger] attempts[i] > PAIRING_RATE_WINDOW_NANOS,
    decreases attempts.len(),
{
    if attempts.len() > 0 && now - attempts[0] > PAIRING_RATE_WINDOW_NANOS {
        let rest = attempts.drop_first();
        assert forall|i: int, j: int| 0 <= i <= j < rest.len() implies #[trigger] rest[i]
            <= #[trigger] rest[j] by {
            assert(attempts[i + 1] <= attempts[j + 1]);
        }
        let d = lemma_recent_is_suffix(rest, now);
        assert(rest.skip(d) =~= attempts.skip(d + 1));
        assert forall|i: int| 0 <= i < d + 1 implies now - #[trigger] attempts[i]
            > PAIRING_RATE_WINDOW_NANOS by {
            if i > 0 {
                assert(rest[i - 1] == attempts[i]);
            }
        }
        d + 1
    } else {
        assert(attempts.skip(0) =~= attempts);
        0
    }
}

spec fn ordered(times: Seq<u64>) -> bool {
    forall|i: int, j: int| 0 <= i <= j < times.len() ==> #[trigger] times[i] <= #[trigger] times[j]
}

proof fn lemma_let_through(times: Seq<u64>)
    requires
        ordered(times),
    ensures
        ({
            let (passed, counted) = let_through(times);
            &&& ordered(passed)
            &&& counted.len() <= passed.len()
            &&& counted == passed.skip(passed.len() - counted.len())
            &&& counted.len() <= MAX_PAIRING_ATTEMPTS_PER_IP
            &&& forall|i: int|
                0 <= i < passed.len() ==> times.len() > 0 && #[trigger] passed[i] <= times.last()
            &&& forall|i: int|
                0 <= i < passed.len() - counted.len() ==> times.last() - #[trigger] passed[i]
                    > PAIRING_RATE_WINDOW_NANOS
            &&& forall|i: int, j: int|
                0 <= i && i + MAX_PAIRING_ATTEMPTS_PER_IP <= j && j < passed.len()
                    ==> #[trigger] passed[j] - #[trigger] passed[i] > PAIRING_RATE_WINDOW_NANOS
        }),
    decreases times.len(),
{
    if times.len() == 0 {
        assert(Seq::<u64>::empty().skip(0) =~= Seq::<u64>::empty());
    } else {
        let init = times.drop_last();
        let now = times.last();
        assert(ordered(init)) by {
            assert forall|i: int, j: int| 0 <= i <= j < init.len() implies #[trigger] init[i]
                <= #[trigger] init[j] by {
                assert(times[i] <= times[j]);
            }
        }
        lemma_let_through(init);
        let (passed0, counted0) = let_through(init);
        if init.len() > 0 {
            assert(times[init.len() - 1] <= times[times.len() - 1]);
            assert(init.last() <= now);
        }
        let base = passed0.len() - counted0.len();
        assert forall|i: int, j: int| 0 <= i <= j < counted0.len() implies #[trigger] counted0[i]
            <= #[trigger] counted0[j] by {
            assert(counted0[i] == passed0[base + i]);
            assert(counted0[j] == passed0[base + j]);
        }
        let d = lemma_recent_is_suffix(counted0, now);
        let kept = recent(counted0, now);
        assert(kept =~= passed0.skip(base + d));
        let (passed, counted) = let_through(times);
        assert forall|i: int| 0 <= i < base + d implies now - #[trigger] passed0[i]
            > PAIRING_RATE_WINDOW_NANOS by {
            if i >= base {
                assert(counted0[i - base] == passed0[i]);
            } else {
                assert(init.last() - passed0[i] > PAIRING_RATE_WINDOW_NANOS);
            }
        }
        if kept.len() < MAX_PAIRING_ATTEMPTS_PER_IP {
            assert(counted =~= passed.skip(passed.len() - counted.len()));
            assert(ordered(passed));
            assert forall|i: int, j: int|
                0 <= i && i + MAX_PAIRING_ATTEMPTS_PER_IP <= j && j < passed.len() implies
                #[trigger] passed[j] - #[trigger] passed[i] > PAIRING_RATE_WINDOW_NANOS by {
                if j < passed0.len() {
                    assert(passed0[j] - passed0[i] > PAIRING_RATE_WINDOW_NANOS);
                } else {
                    assert(passed[i] == passed0[i]);
                    assert(i < base + d);
                }
            }
        } else {
            assert(counted =~= passed.skip(passed.len() - counted.len()));
        }
    }
}

/// No more than five attempts of one address are let through in any window: the sixth comes more
/// than a window after the first.
pub proof fn lemma_rate_is_limited(times: Seq<u64>, i: int)
    requires
        forall|a: int, b: int| 0 <= a <= b < times.len() ==> #[trigger] times[a] <= #[trigger] times[b],
        0 <= i,
        i + MAX_PAIRING_ATTEMPTS_PER_IP < let_through(times).0.len(),
    ensures
        let_through(times).0[i + MAX_PAIRING_ATTEMPTS_PER_IP] - let_through(times).0[i]
            > PAIRING_RATE_WINDOW_NANOS,
{
    lemma_let_through(times);
}

/// The key of a pairing attempt between a host and a device with these exchange messages.
pub open spec fn pairing_key(
    pin: Seq<u8>,
    host_id: DeviceId,
    device_id: DeviceId,
    host_message: Seq<u8>,
    device_message: Seq<u8>,
) -> Seq<u8> {
    security::blake3_digest(
        security::pairing_input(
            exchange_key(
                pin,
                encode_utf8(host_id.hex()),
                encode_utf8(device_id.hex()),
                host_message,
                device_message,
            ),
            host_id,
            device_id,
        ),
    )
}

/// Begins the exchange on a host: the state to go on with and the message for the device.
pub fn pair_start(pin: &str, host_id: DeviceId, device_id: DeviceId) -> (r: (
    KeyExchange,
    Vec<u8>,
))
    ensures
        exchange(r.0) == (
            true,
            encode_utf8(pin@),
            encode_utf8(host_id.hex()),
            encode_utf8(device_id.hex()),
            r.1@,
        ),
        sent_by(true, r.1@),
        r.1@.len() == 33,
{
    let begun = exchange_first(
        pin.as_bytes(),
        host_id.to_hex().as_str().as_bytes(),
        device_id.to_hex().as_str().as_bytes(),
    );
    assert(exchange(begun.0).4 == begun.1@ && exchange(begun.0).0 == true);
    begun
}

/// Begins the exchange on a device: the state to go on with and the message for the host.
pub fn pair_reply(pin: &str, host_id: DeviceId, device_id: DeviceId) -> (r: (
    KeyExchange,
    Vec<u8>,
))
    ensures
        exchange(r.0) == (
            false,
            encode_utf8(pin@),
            encode_utf8(host_id.hex()),
            encode_utf8(device_id.hex()),
            r.1@,
        ),
        sent_by(false, r.1@),
        r.1@.len() == 33,
{
    let begun = exchange_second(
        pin.as_bytes(),
        host_id.to_hex().as_str().as_bytes(),
        device_id.to_hex().as_str().as_bytes(),
    );
    assert(exchange(begun.0).4 == begun.1@ && exchange(begun.0).0 == false);
    begun
}

/// Ends the exchange on either side: the key of the pairing session and what it is bound to. What
/// an exchange of the other side sent is taken, whatever its PIN.
pub fn pair_finish(
    state: KeyExchange,
    message: &[u8],
    protocol: u16,
    host_id: DeviceId,
    device_id: DeviceId,
) -> (r: Result<([u8; 32], Vec<u8>), PairError>)
    ensures
        match r {
            Ok((key, prologue)) => {
                let (host, pin, id_a, id_b, own) = exchange(state);
                &&& prologue@ == encode_utf8(security::prologue_text(protocol, host_id, device_id))
                &&& key@ == security::blake3_digest(
                    security::pairing_input(
                        if host {
                            exchange_key(pin, id_a, id_b, own, message@)
                        } else {
                            exchange_key(pin, id_a, id_b, message@, own)
                        },
                        host_id,
                        device_id,
                    ),
                )
            },
            Err(e) => e == PairError::KeyExchange && !sent_by(!exchange(state).0, message@),
        },
{
    match exchange_finish(state, message) {
        Err(_) => Err(PairError::KeyExchange),
        Ok(shared) => Ok(
            (
                pairing_psk(shared.as_slice(), host_id, device_id),
                security_prologue(protocol, host_id, device_id),
            ),
        ),
    }
}

/// A host and a device that know the same PIN, each other's identities and each other's messages
/// derive the same key.
pub proof fn lemma_pairing_agrees(
    host: KeyExchange,
    device: KeyExchange,
    pin: Seq<u8>,
    host_id: DeviceId,
    device_id: DeviceId,
)
    requires
        exchange(host).0,
        !exchange(device).0,
        exchange(host).1 == pin,
        exchange(device).1 == pin,
        exchange(host).2 == encode_utf8(host_id.hex()),
        exchange(device).2 == encode_utf8(host_id.hex()),
        exchange(host).3 == encode_utf8(device_id.hex()),
        exchange(device).3 == encode_utf8(device_id.hex()),
    ensures
        ({
            let (_, pin_a, a1, b1, sent) = exchange(host);
            let (_, pin_b, a2, b2, answered) = exchange(device);
            &&& exchange_key(pin_a, a1, b1, sent, answered) == exchange_key(
                pin_b,
                a2,
                b2,
                sent,
                answered,
            )
            &&& security::blake3_digest(
                security::pairing_input(
                    exchange_key(pin_a, a1, b1, sent, answered),
                    host_id,
                    device_id,
                ),
            ) == pairing_key(pin, host_id, device_id, sent, answered)
        }),
{
}

/// Whether a device may answer a host that wants to pair; the version to speak.
pub open spec fn pair_admitted(offers_pin: bool, version: u16) -> Result<u16, PairError> {
    if !offers_pin {
        Err(PairError::NotEnabled)
    } else {
        match frame::negotiated(version) {
            Some(agreed) => Ok(agreed),
            None => Err(PairError::MajorMismatch),
        }
    }
}

/// Whether a device may answer a host that wants to pair; the version to speak.
pub fn check_pair_start(pin: &Option<String>, version: u16) -> (r: Result<u16, PairError>)
    ensures
        r == pair_admitted(pin is Some, version),
{
    if pin.is_none() {
        return Err(PairError::NotEnabled);
    }
    match negotiated_version(version) {
        Some(agreed) => Ok(agreed),
        None => Err(PairError::MajorMismatch),
    }
}

/// Whether a device may store a host, which is or is not the one that began.
pub open spec fn pair_committed(
    same_host: bool,
    pin: Seq<char>,
    offered: Option<Seq<char>>,
) -> Result<(), PairError> {
    if !same_host {
        Err(PairError::HostChanged)
    } else if offered != Some(pin) {
        Err(PairError::PinUsed)
    } else {
        Ok(())
    }
}

/// Whether a device may store a host: it is the host that began, and the PIN is still the one
/// that is offered.
pub fn check_pair_commit(
    began: DeviceId,
    commits: DeviceId,
    pin: &str,
    offered: &Option<String>,
) -> (r: Result<(), PairError>)
    ensures
        r == pair_committed(
            began.0@ == commits.0@,
            pin@,
            match *offered {
                Some(p) => Some(p@),
                None => None,
            },
        ),
{
    if commits != began {
        return Err(PairError::HostChanged);
    }
    match offered {
        Some(p) => {
            if text::equal(p.as_str(), pin) {
                return Ok(());
            }
            Err(PairError::PinUsed)
        },
        None => Err(PairError::PinUsed),
    }
}

/// Whether a host may go on with a device that was reached for pairing; the version to speak.
pub open spec fn banner_taken(version: u16, available: bool) -> Option<u16> {
    if available {
        frame::negotiated(version)
    } else {
        None
    }
}

/// Whether a host may go on with a device that was reached for pairing; the version to speak.
pub fn check_pair_banner(version: u16, available: bool, name: &str) -> (r: Result<u16, String>)
    ensures
        match r {
            Ok(agreed) => banner_taken(version, available) == Some(agreed),
            Err(message) => banner_taken(version, available) is None && if !frame::compatible(
                version,
            ) {
                message@ == PairError::HostMajorMismatch(version).text()
            } else {
                !available && message@ == "pairing is not enabled on "@ + name@
                    + "; generate a new PIN in the SideWire WebUI and retry within 60 seconds"@
            },
        },
{
    match negotiated_version(version) {
        None => Err(PairError::HostMajorMismatch(version).message()),
        Some(agreed) => {
            if !available {
                return Err(
                    text::cat3(
                        "pairing is not enabled on ",
                        name,
                        "; generate a new PIN in the SideWire WebUI and retry within 60 seconds",
                    ),
                );
            }
            Ok(agreed)
        },
    }
}

/// Whether a device may complete a pairing, when one was reached.
pub open spec fn pair_completed(reached: DeviceId, completes: DeviceId) -> Result<(), PairError> {
    if reached.0@ == completes.0@ {
        Ok(())
    } else {
        Err(PairError::DeviceChanged)
    }
}

/// Whether the device that completes the pairing is the one that was reached.
pub fn check_pair_complete(reached: DeviceId, completes: DeviceId) -> (r: Result<(), PairError>)
    ensures
        r == pair_completed(reached, completes),
{
    if completes != reached {
        return Err(PairError::DeviceChanged);
    }
    Ok(())
}

/// The number of characters before the last occurrence; `None` where there is none.
pub open spec fn last_position(s: Seq<char>, c: char) -> Option<nat>
    decreases s.len(),
{
    if s.len() == 0 {
        None
    } else if s.last() == c {
        Some((s.len() - 1) as nat)
    } else {
        last_position(s.drop_last(), c)
    }
}

/// Where a character last occurs.
pub fn find_last(s: &[char], c: char) -> (r: Option<usize>)
    ensures
        match r {
            Some(i) => last_position(s@, c) == Some(i as nat) && i < s@.len(),
            None => last_position(s@, c) is None,
        },
{
    let mut n: usize = s.len();
    assert(s@.take(n as int) =~= s@);
    while n > 0
        invariant
            n <= s@.len(),
            last_position(s@, c) == last_position(s@.take(n as int), c),
        decreases n,
    {
        assert(s@.take(n as int).drop_last() =~= s@.take(n - 1));
        if s[n - 1] == c {
            return Some(n - 1);
        }
        n -= 1;
    }
    None
}

/// Whether a target names a port: what follows its last colon is a port number.
pub open spec fn has_port(target: Seq<char>) -> bool {
    match last_position(target, ':') {
        Some(i) => text::parse_unsigned(target.skip(i as int + 1), u16::MAX as nat) is Some,
        None => false,
    }
}

/// The endpoint to pair with.
pub open spec fn endpoint_for(target: Seq<char>) -> Seq<char> {
    if has_port(target) {
        target
    } else {
        target + ":"@ + text::decimal(PAIRING_PORT as nat)
    }
}

/// The endpoint to pair with: the target, at the pairing port unless it names another.
pub fn pair_endpoint(target: &str) -> (r: String)
    ensures
        r@ == endpoint_for(target@),
{
    let chars = text::chars_of(target);
    let n: usize = chars.len();
    match find_last(chars.as_slice(), ':') {
        Some(i) => {
            let port = text::copy_range(chars.as_slice(), i + 1, n);
            assert(port@ =~= chars@.skip(i + 1));
            if text::read_unsigned(port.as_slice(), 65535).is_some() {
                return String::from_str(target);
            }
        },
        None => {},
    }
    text::cat3(target, ":", text::decimal_string(PAIRING_PORT as u64).as_str())
}

/// What to pair with: the target that was named, or the only device that was discovered.
#[derive(Debug, Clone, Copy, PartialEq, Eq, Structural)]
pub enum PairChoice {
    Target,
    Discovered(usize),
}

/// Whether a version among those discovered can be paired with.
pub open spec fn compatible_count(versions: Seq<u16>) -> nat
    decreases versions.len(),
{
    if versions.len() == 0 {
        0
    } else {
        compatible_count(versions.drop_last()) + if frame::compatible(versions.last()) {
            1nat
        } else {
            0
        }
    }
}

/// Whether something is what to pair with, when the devices that answered have these versions.
pub open spec fn is_choice(
    target: bool,
    discover: bool,
    discovered: Seq<u16>,
    r: Result<PairChoice, PairError>,
) -> bool {
    if discover && target {
        r == Err::<PairChoice, PairError>(PairError::TargetAndDiscover)
    } else if !discover {
        r == if target {
            Ok::<PairChoice, PairError>(PairChoice::Target)
        } else {
            Err(PairError::NoTarget)
        }
    } else if compatible_count(discovered) == 0 {
        r == Err::<PairChoice, PairError>(PairError::NothingDiscovered)
    } else if compatible_count(discovered) == 1 {
        r matches Ok(PairChoice::Discovered(i)) && i < discovered.len() && frame::compatible(
            discovered[i as int],
        )
    } else {
        r == Err::<PairChoice, PairError>(PairError::ManyDiscovered)
    }
}

/// Chooses what to pair with. `discovered` holds the versions of the devices that answered, and
/// is asked for only with `discover`.
pub fn pair_choice(target: bool, discover: bool, discovered: &[u16]) -> (r: Result<
    PairChoice,
    PairError,
>)
    ensures
        is_choice(target, discover, discovered@, r),
{
    if discover && target {
        return Err(PairError::TargetAndDiscover);
    }
    if !discover {
        if target {
            return Ok(PairChoice::Target);
        }
        return Err(PairError::NoTarget);
    }
    let mut found: Option<usize> = None;
    let mut count: usize = 0;
    let mut i: usize = 0;
    assert(discovered@.take(0) =~= Seq::<u16>::empty());
    while i < discovered.len()
        invariant
            i <= discovered@.len(),
            count <= i,
            count == compatible_count(discovered@.take(i as int)),
            count > 0 <==> found is Some,
            found matches Some(k) ==> k < i && frame::compatible(discovered@[k as int]),
        decreases discovered@.len() - i,
    {
        proof {
            assert(discovered@.take(i + 1).drop_last() =~= discovered@.take(i as int));
        }
        if frame::protocol_compatible(discovered[i]) {
            found = Some(i);
            count += 1;
        }
        i += 1;
    }
    assert(discovered@.take(i as int) =~= discovered@);
    match found {
        None => Err(PairError::NothingDiscovered),
        Some(k) => {
            if count == 1 {
                Ok(PairChoice::Discovered(k))
            } else {
                Err(PairError::ManyDiscovered)
            }
        },
    }
}

/// The attempts that count are the last ones: as many of them as are within the window.
pub proof fn lemma_recent_by_age(attempts: Seq<u64>, now: u64)
    requires
        forall|i: int, j: int|
            0 <= i <= j < attempts.len() ==> #[trigger] attempts[i] <= #[trigger] attempts[j],
    ensures
        recent(attempts, now).len() <= attempts.len(),
        attempts.len() >= 5 && now - attempts[attempts.len() - 5] <= 60_000_000_000 ==> recent(
            attempts,
            now,
        ).len() >= 5,
        attempts.len() >= 5 && now - attempts[attempts.len() - 5] > 60_000_000_000 ==> recent(
            attempts,
            now,
        ).len() < 5,
        attempts.len() == 0 || now - attempts[attempts.len() - 1] > 60_000_000_000 ==> recent(
            attempts,
            now,
        ) == Seq::<u64>::empty(),
    decreases attempts.len(),
{
    if attempts.len() > 0 {
        let rest = attempts.drop_first();
        if now - attempts[0] > PAIRING_RATE_WINDOW_NANOS {
            lemma_recent_by_age(rest, now);
            if rest.len() == 0 {
                assert(rest =~= Seq::<u64>::empty());
            }
        }
    } else {
        assert(attempts =~= Seq::<u64>::empty());
    }
}

/// The lines of two lines that hold no line ends.
proof fn lemma_two_lines(a: Seq<char>, b: Seq<char>)
    requires
        forall|i: int| 0 <= i < a.len() ==> a[i] != '\n' && a[i] != '\r',
        forall|i: int| 0 <= i < b.len() ==> b[i] != '\n' && b[i] != '\r',
    ensures
        text::lines(a.push('\n') + b.push('\n')) == seq![a, b],
{
    let none = Seq::<char>::empty();
    lemma_split_line(none, a);
    lemma_split_line(a, b);
    let two = a.push('\n') + b;
    lemma_split_line(two, none);
    let file = a.push('\n') + b.push('\n');
    assert(two.push('\n') + none =~= file);
    assert(text::split(file, '\n') =~= seq![a, b, none]);
    assert(text::without_return(a) == a);
    assert(text::without_return(b) == b);
    assert(text::lines(file) =~= seq![a, b]);
}

/// A pairing file that names a PIN and a last second offers that PIN up to that second, and none
/// afterwards; a PIN that is no PIN it never offers.
pub proof fn lemma_pin_is_offered_until_its_end(pin: Seq<char>, until: u64, now: nat)
    requires
        forall|i: int| 0 <= i < pin.len() ==> pin[i] != '\n' && pin[i] != '\r',
    ensures
        ({
            let file = ("pin="@ + pin).push('\n') + ("until="@ + text::decimal(until as nat)).push(
                '\n',
            );
            offered_pin(file, now) == if now <= until && is_pin(pin) {
                Some(pin)
            } else {
                None
            }
        }),
{
    reveal_strlit("pin=");
    reveal_strlit("until=");
    let digits = text::decimal(until as nat);
    let a = "pin="@ + pin;
    let b = "until="@ + digits;
    text::lemma_decimal_value(until as nat);
    text::lemma_decimal_round_trip(until as nat, u64::MAX as nat);
    assert forall|i: int| 0 <= i < b.len() implies b[i] != '\n' && b[i] != '\r' by {
        if i >= 6 {
            assert(text::is_digit(digits[i - 6]));
        }
    }
    lemma_two_lines(a, b);
    let lines = seq![a, b];
    assert(a.take(4) =~= "pin="@);
    assert(a.skip(4) =~= pin);
    assert(b.take(6) =~= "until="@);
    assert(b.skip(6) =~= digits);
    assert(!text::starts_with(a, "until="@)) by {
        if text::starts_with(a, "until="@) {
            assert(a.take(6)[0] == a[0]);
        }
    }
    assert(lines.drop_first() =~= seq![b]);
    assert(first_with(seq![b], "until="@) == Some(digits));
    assert(first_with(lines, "until="@) == Some(digits));
    assert(first_with(lines, "pin="@) == Some(pin));
}

/// A host and a device of one major version that meet while a PIN is offered go on with each
/// other, and speak the lower of their versions; without a PIN, or with another major version,
/// neither goes on.
pub proof fn lemma_pairing_begins_on_both_sides(version: u16, offers_pin: bool)
    ensures
        banner_taken(version, offers_pin) is Some <==> offers_pin && version / 256 == VERSION / 256,
        pair_admitted(offers_pin, version) is Ok <==> banner_taken(version, offers_pin) is Some,
        banner_taken(version, offers_pin) matches Some(agreed) ==> pair_admitted(
            offers_pin,
            version,
        ) == Ok::<u16, PairError>(agreed) && agreed <= version && agreed <= VERSION && (agreed
            == version || agreed == VERSION),
        !offers_pin ==> pair_admitted(offers_pin, version) == Err::<u16, PairError>(
            PairError::NotEnabled,
        ),
{
}

/// A host is stored only if it is the one that began and its PIN is the one that is offered still.
pub proof fn lemma_commit_needs_host_and_pin(
    same_host: bool,
    pin: Seq<char>,
    offered: Option<Seq<char>>,
)
    ensures
        pair_committed(same_host, pin, offered) is Ok <==> same_host && offered == Some(pin),
        !same_host ==> pair_committed(same_host, pin, offered) == Err::<(), PairError>(
            PairError::HostChanged,
        ),
{
}

proof fn lemma_last_colon(host: Seq<char>, tail: Seq<char>)
    requires
        !tail.contains(':'),
    ensures
        last_position(host.push(':') + tail, ':') == Some(host.len()),
    decreases tail.len(),
{
    let s = host.push(':') + tail;
    if tail.len() == 0 {
        assert(s.last() == ':');
    } else {
        assert(tail.last() != ':') by {
            if tail[tail.len() - 1] == ':' {
                assert(tail.contains(':'));
            }
        }
        assert(!tail.drop_last().contains(':')) by {
            if tail.drop_last().contains(':') {
                let k = tail.drop_last().index_of(':');
                assert(tail[k] == ':');
            }
        }
        assert(s.drop_last() =~= host.push(':') + tail.drop_last());
        lemma_last_colon(host, tail.drop_last());
    }
}

/// A target with a port is paired with at that port; any other at the pairing port of the same
/// host. Either way the endpoint names a port, and asking again changes nothing.
pub proof fn lemma_endpoint_has_a_port(host: Seq<char>, port: u16, target: Seq<char>)
    ensures
        endpoint_for(host + ":"@ + text::decimal(port as nat)) == host + ":"@ + text::decimal(
            port as nat,
        ),
        has_port(endpoint_for(target)),
        endpoint_for(endpoint_for(target)) == endpoint_for(target),
        !has_port(target) ==> endpoint_for(target) == target + ":"@ + text::decimal(58323),
{
    lemma_named_port(host, port);
    lemma_named_port(target, PAIRING_PORT);
}

proof fn lemma_named_port(host: Seq<char>, port: u16)
    ensures
        has_port(host + ":"@ + text::decimal(port as nat)),
{
    let digits = text::decimal(port as nat);
    reveal_strlit(":");
    text::lemma_decimal_value(port as nat);
    text::lemma_decimal_round_trip(port as nat, 65535);
    if digits.contains(':') {
        let k = digits.index_of(':');
        assert(text::is_digit(digits[k]));
    }
    let s = host.push(':') + digits;
    assert(host + ":"@ + digits =~= s);
    lemma_last_colon(host, digits);
    assert(s.skip(host.len() as int + 1) =~= digits);
}

/// An address may try exactly if fewer than five of its attempts lie within the last minute, and
/// an attempt that is let through counts from then on.
pub proof fn lemma_address_may_try(attempts: Seq<u64>, now: u64)
    requires
        forall|i: int, j: int|
            0 <= i <= j < attempts.len() ==> #[trigger] attempts[i] <= #[trigger] attempts[j],
    ensures
        attempted(attempts, now).0 <==> attempts.len() < 5 || now - attempts[attempts.len() - 5]
            > 60_000_000_000,
        attempted(attempts, now).0 ==> attempted(attempts, now).1.len() > 0 && attempted(
            attempts,
            now,
        ).1.last() == now,
        attempted(attempts, now).1.len() <= 5 || attempts.len() > 5,
{
    lemma_recent_by_age(attempts, now);
}

/// What a device stores of a host that it is paired with gives back the secret, and is found by
/// the host's identity alone: two hosts never share a file.
pub proof fn lemma_paired_host_is_known_again(
    host_name: Seq<char>,
    secret: Seq<u8>,
    a: DeviceId,
    b: DeviceId,
)
    requires
        secret.len() == 32,
    ensures
        stored_secret(pair_file(host_name, secret)) == Ok::<Option<Seq<u8>>, HexError>(Some(secret)),
        stored_secret(Seq::empty()) == Ok::<Option<Seq<u8>>, HexError>(None),
        pair_file_name(a) == pair_file_name(b) ==> a.hex() == b.hex(),
{
    lemma_pair_file_round_trip(host_name, secret);
    reveal_with_fuel(first_with, 2);
    assert(stored_secret(Seq::empty()) == Ok::<Option<Seq<u8>>, HexError>(None));
    if pair_file_name(a) == pair_file_name(b) {
        let s = pair_file_name(a);
        assert(s.take(s.len() - ".pair"@.len()) =~= a.hex());
        assert(s.take(s.len() - ".pair"@.len()) =~= b.hex());
    }
}

/// A pairing is completed by the device that was reached, and by no other.
pub proof fn lemma_reached_device_completes(reached: DeviceId, completes: DeviceId)
    ensures
        pair_completed(reached, completes) is Ok <==> reached.hex() == completes.hex(),
{
    if reached.hex() == completes.hex() {
        crate::device_id::lemma_device_id_hex_injective(reached, completes);
    }
}

proof fn lemma_counted(versions: Seq<u16>, i: int)
    requires
        0 <= i < versions.len(),
        frame::compatible(versions[i]),
    ensures
        compatible_count(versions) >= 1,
        compatible_count(versions) == 1 ==> forall|j: int|
            0 <= j < versions.len() && frame::compatible(#[trigger] versions[j]) ==> j == i,
    decreases versions.len(),
{
    let init = versions.drop_last();
    if i < init.len() {
        lemma_counted(init, i);
        if compatible_count(versions) == 1 {
            assert forall|j: int|
                0 <= j < versions.len() && frame::compatible(#[trigger] versions[j]) implies j
                == i by {
                if j < init.len() {
                    assert(init[j] == versions[j]);
                }
            }
        }
    } else if compatible_count(versions) == 1 {
        assert forall|j: int|
            0 <= j < versions.len() && frame::compatible(#[trigger] versions[j]) implies j == i by {
            if j < init.len() {
                assert(init[j] == versions[j]);
                lemma_counted(init, j);
            }
        }
    }
}

proof fn lemma_none_counted(versions: Seq<u16>)
    requires
        forall|j: int| 0 <= j < versions.len() ==> !frame::compatible(#[trigger] versions[j]),
    ensures
        compatible_count(versions) == 0,
    decreases versions.len(),
{
    if versions.len() > 0 {
        let init = versions.drop_last();
        assert forall|j: int| 0 <= j < init.len() implies !frame::compatible(
            #[trigger] init[j],
        ) by {
            assert(init[j] == versions[j]);
        }
        assert(!frame::compatible(versions[versions.len() - 1]));
        lemma_none_counted(init);
    }
}

proof fn lemma_one_counted(versions: Seq<u16>, i: int)
    requires
        0 <= i < versions.len(),
        forall|j: int|
            0 <= j < versions.len() ==> (frame::compatible(#[trigger] versions[j]) <==> j == i),
    ensures
        compatible_count(versions) == 1,
    decreases versions.len(),
{
    let init = versions.drop_last();
    assert forall|j: int| 0 <= j < init.len() implies (frame::compatible(#[trigger] init[j])
        <==> j == i) by {
        assert(init[j] == versions[j]);
    }
    assert(frame::compatible(versions[versions.len() - 1]) <==> versions.len() - 1 == i);
    if i < init.len() {
        lemma_one_counted(init, i);
    } else {
        lemma_none_counted(init);
    }
}

/// Whoever names a target pairs with that; whoever asks for discovery pairs with the one device
/// that can be paired with, and with none where there is no such device or a second one. Neither
/// or both are refused.
pub proof fn lemma_only_device_is_chosen(
    discovered: Seq<u16>,
    i: usize,
    j: int,
    r: Result<PairChoice, PairError>,
)
    requires
        i < discovered.len(),
        0 <= j < discovered.len(),
        i != j,
    ensures
        is_choice(true, false, discovered, r) ==> r == Ok::<PairChoice, PairError>(
            PairChoice::Target,
        ),
        is_choice(true, true, discovered, r) ==> r is Err,
        is_choice(false, false, discovered, r) ==> r is Err,
        is_choice(false, true, discovered, r) && (forall|k: int|
            0 <= k < discovered.len() ==> ((#[trigger] discovered[k]) / 256 == VERSION / 256 <==> k
                == i)) ==> r == Ok::<PairChoice, PairError>(PairChoice::Discovered(i)),
        is_choice(false, true, discovered, r) && discovered[i as int] / 256 == VERSION / 256
            && discovered[j] / 256 == VERSION / 256 ==> r == Err::<PairChoice, PairError>(
            PairError::ManyDiscovered,
        ),
        is_choice(false, true, discovered, r) && (forall|k: int|
            0 <= k < discovered.len() ==> (#[trigger] discovered[k]) / 256 != VERSION / 256) ==> r
            == Err::<PairChoice, PairError>(PairError::NothingDiscovered),
{
    if forall|k: int|
        0 <= k < discovered.len() ==> ((#[trigger] discovered[k]) / 256 == VERSION / 256 <==> k
            == i) {
        assert forall|k: int| 0 <= k < discovered.len() implies (frame::compatible(
            #[trigger] discovered[k],
        ) <==> k == i) by {
            frame::lemma_version_has_two_parts(discovered[k]);
        }
        lemma_one_counted(discovered, i as int);
    }
    if forall|k: int|
        0 <= k < discovered.len() ==> (#[trigger] discovered[k]) / 256 != VERSION / 256 {
        assert forall|k: int| 0 <= k < discovered.len() implies !frame::compatible(
            #[trigger] discovered[k],
        ) by {
            frame::lemma_version_has_two_parts(discovered[k]);
        }
        lemma_none_counted(discovered);
    }
    if discovered[i as int] / 256 == VERSION / 256 && discovered[j] / 256 == VERSION / 256 {
        frame::lemma_version_has_two_parts(discovered[i as int]);
        frame::lemma_version_has_two_parts(discovered[j]);
        lemma_counted(discovered, i as int);
    }
}

} // verus!
