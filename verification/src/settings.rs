//! The settings of the device's daemon: its command line and its configuration file.

use vstd::prelude::*;
use vstd::string::*;
use crate::config;
use crate::device_id::{DeviceId, HexError};
use crate::hex;
use crate::messages::{SecurityMode, PAIRING_PORT};
use crate::registry::ConnectionMode;
use crate::text;

verus! {

pub const DEFAULT_PORT: u16 = 58321;

/// The command line of the daemon.
pub struct DaemonOptions {
    pub mode: ConnectionMode,
    pub listen: String,
    pub server: String,
    pub name: String,
    pub device_id: Option<String>,
    pub insecure: bool,
}

/// The settings that command line and configuration file make up.
#[derive(Debug)]
pub struct Settings {
    pub mode: ConnectionMode,
    pub host: String,
    pub port: u16,
    pub name: String,
    pub device_id: Option<DeviceId>,
    pub security: SecurityMode,
    pub pairing_file: Option<String>,
    pub pairs_dir: Option<String>,
    pub pairing_port: u16,
    pub clipboard_helper: Option<String>,
}

/// The settings as text and numbers.
#[verifier::ext_equal]
pub struct SettingsView {
    pub mode: ConnectionMode,
    pub host: Seq<char>,
    pub port: u16,
    pub name: Seq<char>,
    pub device_id: Option<Seq<u8>>,
    pub security: SecurityMode,
    pub pairing_file: Option<Seq<char>>,
    pub pairs_dir: Option<Seq<char>>,
    pub pairing_port: u16,
    pub clipboard_helper: Option<Seq<char>>,
}

impl View for Settings {
    type V = SettingsView;

    open spec fn view(&self) -> SettingsView {
        SettingsView {
            mode: self.mode,
            host: self.host@,
            port: self.port,
            name: self.name@,
            device_id: match self.device_id {
                Some(id) => Some(id.0@),
                None => None,
            },
            security: self.security,
            pairing_file: config::text_of(self.pairing_file),
            pairs_dir: config::text_of(self.pairs_dir),
            pairing_port: self.pairing_port,
            clipboard_helper: config::text_of(self.clipboard_helper),
        }
    }
}

/// The text without the quotation marks at its beginning.
pub open spec fn unquoted_start(s: Seq<char>) -> Seq<char>
    decreases s.len(),
{
    if s.len() > 0 && s[0] == '"' {
        unquoted_start(s.drop_first())
    } else {
        s
    }
}

/// The text without the quotation marks at its end.
pub open spec fn unquoted_end(s: Seq<char>) -> Seq<char>
    decreases s.len(),
{
    if s.len() > 0 && s.last() == '"' {
        unquoted_end(s.drop_last())
    } else {
        s
    }
}

/// The text without the quotation marks around it.
pub open spec fn unquoted(s: Seq<char>) -> Seq<char> {
    unquoted_end(unquoted_start(s))
}

/// The key and the value of a line; `None` for an empty line, a comment, and a line without an
/// equals sign.
pub open spec fn setting(line: Seq<char>) -> Option<(Seq<char>, Seq<char>)> {
    let t = text::trim(line);
    let at = text::position(t, '=');
    if t.len() == 0 || t[0] == '#' || at >= t.len() {
        None
    } else {
        Some((text::trim(t.take(at as int)), unquoted(text::trim(t.skip(at as int + 1)))))
    }
}

/// The port that a text names; another one if it names none.
pub open spec fn port_or(value: Seq<char>, fallback: u16) -> u16 {
    match text::parse_unsigned(value, 65535) {
        Some(port) => port as u16,
        None => fallback,
    }
}

/// A file or a directory that may be left out.
pub open spec fn path_or(value: Seq<char>, before: Option<Seq<char>>) -> Option<Seq<char>> {
    if value.len() == 0 {
        before
    } else {
        Some(value)
    }
}

/// The settings after one line of the file; `None` where it names an identity that is none.
pub open spec fn applied(s: SettingsView, key: Seq<char>, value: Seq<char>) -> Option<
    SettingsView,
> {
    if key == "mode"@ {
        Some(
            SettingsView {
                mode: if text::same_ignoring_case(value, "inbound"@) {
                    ConnectionMode::Inbound
                } else {
                    ConnectionMode::Outbound
                },
                ..s
            },
        )
    } else if key == "host"@ {
        Some(SettingsView { host: value, ..s })
    } else if key == "port"@ {
        Some(SettingsView { port: port_or(value, DEFAULT_PORT), ..s })
    } else if key == "name"@ {
        Some(SettingsView { name: value, ..s })
    } else if key == "device_id"@ {
        if value.len() == 0 {
            Some(s)
        } else {
            match hex::parse_hex(value, 16) {
                Some(id) => Some(SettingsView { device_id: Some(id), ..s }),
                None => None,
            }
        }
    } else if key == "security"@ {
        Some(
            SettingsView {
                security: if text::same_ignoring_case(value, "insecure"@) {
                    SecurityMode::Insecure
                } else {
                    SecurityMode::Secure
                },
                ..s
            },
        )
    } else if key == "pairing_file"@ {
        Some(SettingsView { pairing_file: path_or(value, s.pairing_file), ..s })
    } else if key == "pairs_dir"@ {
        Some(SettingsView { pairs_dir: path_or(value, s.pairs_dir), ..s })
    } else if key == "pairing_port"@ {
        Some(SettingsView { pairing_port: port_or(value, PAIRING_PORT), ..s })
    } else if key == "clipboard_helper"@ {
        Some(SettingsView { clipboard_helper: path_or(value, s.clipboard_helper), ..s })
    } else {
        Some(s)
    }
}

/// The settings after the lines of the file, the later ones last.
pub open spec fn settled(s: SettingsView, lines: Seq<Seq<char>>) -> Option<SettingsView>
    decreases lines.len(),
{
    if lines.len() == 0 {
        Some(s)
    } else {
        match settled(s, lines.drop_last()) {
            None => None,
            Some(before) => match setting(lines.last()) {
                None => Some(before),
                Some(pair) => applied(before, pair.0, pair.1),
            },
        }
    }
}

fn strip_quotes(s: &[char]) -> (r: Vec<char>)
    ensures
        r@ == unquoted(s@),
{
    let mut from: usize = 0;
    assert(s@.skip(0) =~= s@);
    while from < s.len() && s[from] == '"'
        invariant
            from <= s@.len(),
            unquoted_start(s@) == unquoted_start(s@.skip(from as int)),
        decreases s@.len() - from,
    {
        proof {
            assert(s@.skip(from as int)[0] == s@[from as int]);
            assert(s@.skip(from as int).drop_first() =~= s@.skip(from + 1));
        }
        from += 1;
    }
    let ghost rest = s@.skip(from as int);
    proof {
        if from < s@.len() {
            assert(rest[0] == s@[from as int]);
        }
        assert(unquoted_start(s@) == rest);
    }
    let mut to: usize = s.len();
    assert(s@.subrange(from as int, to as int) =~= rest);
    while to > from && s[to - 1] == '"'
        invariant
            from <= to <= s@.len(),
            unquoted_end(rest) == unquoted_end(s@.subrange(from as int, to as int)),
        decreases to,
    {
        proof {
            let part = s@.subrange(from as int, to as int);
            assert(part.last() == s@[to - 1]);
            assert(part.drop_last() =~= s@.subrange(from as int, to - 1));
        }
        to -= 1;
    }
    proof {
        let part = s@.subrange(from as int, to as int);
        if part.len() > 0 {
            assert(part.last() == s@[to - 1]);
        }
    }
    text::copy_range(s, from, to)
}

fn read_setting(line: &[char]) -> (r: Option<(String, String)>)
    ensures
        match r {
            Some(pair) => setting(line@) == Some((pair.0@, pair.1@)),
            None => setting(line@) is None,
        },
{
    let t = text::trimmed(line);
    if t.len() == 0 {
        return None;
    }
    if t[0] == '#' {
        return None;
    }
    let at = text::find(t.as_slice(), '=');
    if at >= t.len() {
        return None;
    }
    let key = text::copy_range(t.as_slice(), 0, at);
    let value = text::copy_range(t.as_slice(), at + 1, t.len());
    proof {
        assert(t@.subrange(0, at as int) =~= t@.take(at as int));
        assert(t@.subrange(at + 1, t@.len() as int) =~= t@.skip(at + 1));
    }
    let key = text::trimmed(key.as_slice());
    let value = text::trimmed(value.as_slice());
    let value = strip_quotes(value.as_slice());
    Some((text::string_of(key.as_slice()), text::string_of(value.as_slice())))
}

fn read_port(value: &str, fallback: u16) -> (r: u16)
    ensures
        r == port_or(value@, fallback),
{
    let chars = text::chars_of(value);
    match text::read_unsigned(chars.as_slice(), 65535) {
        Some(port) => port as u16,
        None => fallback,
    }
}

impl Settings {
    /// What the command line alone makes up.
    pub open spec fn initial(cli: DaemonOptions) -> Option<SettingsView> {
        let base = SettingsView {
            mode: cli.mode,
            host: Seq::empty(),
            port: DEFAULT_PORT,
            name: cli.name@,
            device_id: None,
            security: if cli.insecure {
                SecurityMode::Insecure
            } else {
                SecurityMode::Secure
            },
            pairing_file: None,
            pairs_dir: None,
            pairing_port: PAIRING_PORT,
            clipboard_helper: None,
        };
        match cli.device_id {
            None => Some(base),
            Some(text) => match hex::parse_hex(text@, 16) {
                Some(id) => Some(SettingsView { device_id: Some(id), ..base }),
                None => None,
            },
        }
    }

    fn new(cli: &DaemonOptions) -> (r: Result<Settings, HexError>)
        ensures
            match r {
                Ok(s) => Settings::initial(*cli) == Some(s@),
                Err(e) => Settings::initial(*cli) is None && e == HexError::DeviceId,
            },
    {
        let device_id = match &cli.device_id {
            None => None,
            Some(text) => match DeviceId::parse(text.as_str()) {
                Ok(id) => Some(id),
                Err(e) => return Err(e),
            },
        };
        Ok(
            Settings {
                mode: cli.mode,
                host: String::new(),
                port: DEFAULT_PORT,
                name: String::from_str(cli.name.as_str()),
                device_id,
                security: if cli.insecure {
                    SecurityMode::Insecure
                } else {
                    SecurityMode::Secure
                },
                pairing_file: None,
                pairs_dir: None,
                pairing_port: PAIRING_PORT,
                clipboard_helper: None,
            },
        )
    }

    fn apply(&mut self, key: &str, value: String) -> (r: Result<(), HexError>)
        ensures
            match r {
                Ok(_) => applied(old(self)@, key@, value@) == Some(final(self)@),
                Err(e) => applied(old(self)@, key@, value@) is None && e == HexError::DeviceId,
            },
    {
        let empty = value.as_str().is_empty();
        assert(value@ =~= Seq::<char>::empty() <==> value@.len() == 0);
        if text::equal(key, "mode") {
            self.mode = if text::equal_ignoring_case(value.as_str(), "inbound") {
                ConnectionMode::Inbound
            } else {
                ConnectionMode::Outbound
            };
        } else if text::equal(key, "host") {
            self.host = value;
        } else if text::equal(key, "port") {
            self.port = read_port(value.as_str(), DEFAULT_PORT);
        } else if text::equal(key, "name") {
            self.name = value;
        } else if text::equal(key, "device_id") {
            if !empty {
                match DeviceId::parse(value.as_str()) {
                    Ok(id) => {
                        self.device_id = Some(id);
                    },
                    Err(e) => return Err(e),
                }
            }
        } else if text::equal(key, "security") {
            self.security = if text::equal_ignoring_case(value.as_str(), "insecure") {
                SecurityMode::Insecure
            } else {
                SecurityMode::Secure
            };
        } else if text::equal(key, "pairing_file") {
            if !empty {
                self.pairing_file = Some(value);
            }
        } else if text::equal(key, "pairs_dir") {
            if !empty {
                self.pairs_dir = Some(value);
            }
        } else if text::equal(key, "pairing_port") {
            self.pairing_port = read_port(value.as_str(), PAIRING_PORT);
        } else if text::equal(key, "clipboard_helper") {
            if !empty {
                self.clipboard_helper = Some(value);
            }
        }
        Ok(())
    }
}

/// What the daemon runs with.
#[derive(Debug)]
pub struct ResolvedConfig {
    pub mode: ConnectionMode,
    pub endpoint: String,
    pub name: String,
    pub device_id: DeviceId,
    pub security: SecurityMode,
    pub pairing_file: Option<String>,
    pub pairs_dir: Option<String>,
    pub pairing_port: u16,
    pub clipboard_helper: Option<String>,
}

/// The settings of command line and file; `None` where either names an identity that is none.
pub open spec fn settings_of(cli: DaemonOptions, file: Option<Seq<char>>) -> Option<SettingsView> {
    match Settings::initial(cli) {
        None => None,
        Some(base) => match file {
            None => Some(base),
            Some(text) => settled(base, text::lines(text)),
        },
    }
}

/// Where the daemon listens, or whom it calls: as the file says, or without one as the command
/// line does.
pub open spec fn endpoint_of(cli: DaemonOptions, has_file: bool, s: SettingsView) -> Seq<char> {
    match (has_file, s.mode) {
        (true, ConnectionMode::Inbound) => "0.0.0.0:"@ + text::decimal(s.port as nat),
        (true, ConnectionMode::Outbound) => if s.host.len() == 0 {
            "127.0.0.1"@ + ":"@ + text::decimal(s.port as nat)
        } else {
            s.host + ":"@ + text::decimal(s.port as nat)
        },
        (false, ConnectionMode::Inbound) => cli.listen@,
        (false, ConnectionMode::Outbound) => cli.server@,
    }
}

/// Whether the daemon runs with some settings, and with `spare` as its identity where they name
/// none.
pub open spec fn runs_with(r: ResolvedConfig, s: SettingsView, spare: Seq<u8>) -> bool {
    &&& r.mode == s.mode
    &&& r.name@ == s.name
    &&& r.device_id.0@ == match s.device_id {
        Some(id) => id,
        None => spare,
    }
    &&& r.security == s.security
    &&& config::text_of(r.pairing_file) == s.pairing_file
    &&& config::text_of(r.pairs_dir) == s.pairs_dir
    &&& r.pairing_port == s.pairing_port
    &&& config::text_of(r.clipboard_helper) == s.clipboard_helper
}

/// Reads the settings of the daemon. A daemon without an identity gets `spare`, which was drawn
/// at random.
pub fn resolve_config(cli: &DaemonOptions, file: Option<&str>, spare: DeviceId) -> (r: Result<
    ResolvedConfig,
    HexError,
>)
    ensures
        match (r, settings_of(*cli, crate::registry::view_of(file))) {
            (Ok(resolved), Some(s)) => runs_with(resolved, s, spare.0@) && resolved.endpoint@
                == endpoint_of(*cli, file is Some, s),
            (Err(e), None) => e == HexError::DeviceId,
            _ => false,
        },
{
    let mut s = match Settings::new(cli) {
        Ok(s) => s,
        Err(e) => return Err(e),
    };
    match file {
        None => {},
        Some(t) => {
            let lines = text::lines_of(t);
            let ghost all = text::contents(lines@);
            let ghost base = s@;
            let mut i: usize = 0;
            assert(all.take(0) =~= Seq::<Seq<char>>::empty());
            while i < lines.len()
                invariant
                    i <= lines@.len(),
                    all == text::contents(lines@),
                    all == text::lines(t@),
                    Settings::initial(*cli) == Some(base),
                    file == Some(t),
                    settled(base, all.take(i as int)) == Some(s@),
                decreases lines@.len() - i,
            {
                proof {
                    assert(all.take(i + 1).drop_last() =~= all.take(i as int));
                    assert(all.take(i + 1).last() == lines@[i as int]@);
                }
                match read_setting(lines[i].as_slice()) {
                    None => {},
                    Some((key, value)) => match s.apply(key.as_str(), value) {
                        Ok(()) => {},
                        Err(e) => {
                            proof {
                                lemma_refused_stays_refused(base, all, i + 1);
                            }
                            return Err(e);
                        },
                    },
                }
                i += 1;
            }
            assert(all.take(i as int) =~= all);
        },
    }
    let port = text::decimal_string(s.port as u64);
    let endpoint = match (file, s.mode) {
        (Some(_), ConnectionMode::Inbound) => text::cat2("0.0.0.0:", port.as_str()),
        (Some(_), ConnectionMode::Outbound) => if s.host.as_str().is_empty() {
            text::cat3("127.0.0.1", ":", port.as_str())
        } else {
            text::cat3(s.host.as_str(), ":", port.as_str())
        },
        (None, ConnectionMode::Inbound) => String::from_str(cli.listen.as_str()),
        (None, ConnectionMode::Outbound) => String::from_str(cli.server.as_str()),
    };
    let device_id = match s.device_id {
        Some(id) => id,
        None => spare,
    };
    Ok(
        ResolvedConfig {
            mode: s.mode,
            endpoint,
            name: s.name,
            device_id,
            security: s.security,
            pairing_file: s.pairing_file,
            pairs_dir: s.pairs_dir,
            pairing_port: s.pairing_port,
            clipboard_helper: s.clipboard_helper,
        },
    )
}

proof fn lemma_refused_stays_refused(s: SettingsView, lines: Seq<Seq<char>>, n: int)
    requires
        0 <= n <= lines.len(),
        settled(s, lines.take(n)) is None,
    ensures
        settled(s, lines) is None,
    decreases lines.len(),
{
    if n < lines.len() {
        assert(lines.drop_last().take(n) =~= lines.take(n));
        lemma_refused_stays_refused(s, lines.drop_last(), n);
    } else {
        assert(lines.take(n) =~= lines);
    }
}

/// A daemon is insecure only where command line or file says so: without `insecure` on the
/// command line, and with no line that sets it, the daemon is secure.
pub proof fn lemma_secure_by_default(s: SettingsView, lines: Seq<Seq<char>>)
    requires
        s.security == SecurityMode::Secure,
        settled(s, lines) is Some,
        forall|i: int|
            0 <= i < lines.len() ==> !((#[trigger] setting(lines[i])) matches Some(pair) && pair.0
                == "security"@ && text::same_ignoring_case(pair.1, "insecure"@)),
    ensures
        settled(s, lines)->0.security == SecurityMode::Secure,
    decreases lines.len(),
{
    if lines.len() > 0 {
        let init = lines.drop_last();
        assert forall|i: int| 0 <= i < init.len() implies !((#[trigger] setting(
            init[i],
        )) matches Some(pair) && pair.0 == "security"@ && text::same_ignoring_case(
            pair.1,
            "insecure"@,
        )) by {
            assert(init[i] == lines[i]);
            let _ = setting(lines[i]);
        }
        lemma_secure_by_default(s, init);
        let _ = setting(lines[lines.len() - 1]);
    }
}

proof fn lemma_first_equals(key: Seq<char>, value: Seq<char>)
    requires
        !key.contains('='),
    ensures
        text::position(key.push('=') + value, '=') == key.len(),
    decreases key.len(),
{
    let s = key.push('=') + value;
    if key.len() > 0 {
        assert(key[0] != '=') by {
            if key[0] == '=' {
                assert(key.contains(key[0]));
            }
        }
        let rest = key.drop_first();
        assert(!rest.contains('=')) by {
            if rest.contains('=') {
                let k = rest.index_of('=');
                assert(key[k + 1] == '=');
            }
        }
        assert(s.drop_first() =~= rest.push('=') + value);
        lemma_first_equals(rest, value);
    }
}

/// A line with a key, an equals sign and a value sets that key to that value; quotation marks
/// around the value make no difference. A line that is empty or a comment sets nothing.
pub proof fn lemma_line_sets_its_key(key: Seq<char>, value: Seq<char>)
    requires
        key.len() > 0,
        key[0] != '#',
        !key.contains('='),
        !text::is_space(key[0]),
        !text::is_space(key.last()),
        value.len() > 0 ==> {
            &&& !text::is_space(value[0]) && !text::is_space(value.last())
            &&& value[0] != '"' && value.last() != '"'
        },
    ensures
        setting(key.push('=') + value) == Some((key, value)),
        setting(key.push('=') + (seq!['"'] + value + seq!['"'])) == Some((key, value)),
        setting(seq!['#'] + key.push('=') + value) is None,
        setting(Seq::empty()) is None,
        setting(key) is None,
{
    let plain = key.push('=') + value;
    let marked = seq!['"'] + value + seq!['"'];
    let quoted = key.push('=') + marked;
    lemma_first_equals(key, value);
    lemma_first_equals(key, marked);
    text::lemma_trim_nothing(plain);
    text::lemma_trim_nothing(quoted);
    text::lemma_trim_nothing(key);
    text::lemma_trim_nothing(value);
    text::lemma_trim_nothing(marked);
    assert(plain.take(key.len() as int) =~= key);
    assert(plain.skip(key.len() as int + 1) =~= value);
    assert(quoted.take(key.len() as int) =~= key);
    assert(quoted.skip(key.len() as int + 1) =~= marked);
    assert(unquoted(value) == value);
    assert(marked.drop_first() =~= value + seq!['"']);
    let ended = value + seq!['"'];
    assert(unquoted_start(marked) == unquoted_start(ended));
    if value.len() > 0 {
        assert(ended[0] == value[0]);
        assert(unquoted_start(ended) == ended);
        assert(ended.last() == '"');
        assert(ended.drop_last() =~= value);
        assert(unquoted_end(ended) == unquoted_end(value));
    } else {
        assert(value =~= Seq::<char>::empty());
        assert(ended[0] == '"');
        assert(ended.drop_first() =~= value);
        assert(unquoted_start(ended) == unquoted_start(value));
        assert(unquoted_start(value) == value);
    }
    assert(unquoted(marked) == value);
    let comment = seq!['#'] + key.push('=') + value;
    text::lemma_trim_nothing(comment);
    let none = text::trim(Seq::<char>::empty());
    lemma_no_equals(key);
}

proof fn lemma_no_equals(key: Seq<char>)
    requires
        !key.contains('='),
    ensures
        text::position(key, '=') >= key.len(),
    decreases key.len(),
{
    if key.len() > 0 {
        assert(key[0] != '=') by {
            if key[0] == '=' {
                assert(key.contains(key[0]));
            }
        }
        let rest = key.drop_first();
        assert(!rest.contains('=')) by {
            if rest.contains('=') {
                let k = rest.index_of('=');
                assert(key[k + 1] == '=');
            }
        }
        lemma_no_equals(rest);
    }
}

proof fn lemma_keys_differ()
    ensures
        "mode"@[0] == 'm' && "host"@[0] == 'h' && "port"@[0] == 'p' && "name"@[0] == 'n',
        "mode"@.len() == 4 && "host"@.len() == 4 && "port"@.len() == 4 && "name"@.len() == 4,
        "device_id"@.len() == 9 && "security"@.len() == 8,
        "pairing_file"@.len() == 12 && "pairing_port"@.len() == 12 && "pairing_file"@[8] == 'f'
            && "pairing_port"@[8] == 'p',
        "pairs_dir"@.len() == 9 && "device_id"@[0] == 'd' && "pairs_dir"@[0] == 'p',
        "clipboard_helper"@.len() == 16,
{
    reveal_strlit("mode");
    reveal_strlit("host");
    reveal_strlit("port");
    reveal_strlit("name");
    reveal_strlit("device_id");
    reveal_strlit("security");
    reveal_strlit("pairing_file");
    reveal_strlit("pairing_port");
    reveal_strlit("pairs_dir");
    reveal_strlit("clipboard_helper");
}

/// Each key of the file sets the thing that it names, to what the line says, and nothing else:
/// every port can be set, both modes, both kinds of security, the name, the host, an identity and
/// the paths. A key that is not known changes nothing.
pub proof fn lemma_keys_set_what_they_name(s: SettingsView, value: Seq<char>, port: u16)
    requires
        value.len() > 0,
    ensures
        applied(s, "host"@, value) == Some(SettingsView { host: value, ..s }),
        applied(s, "name"@, value) == Some(SettingsView { name: value, ..s }),
        applied(s, "port"@, text::decimal(port as nat)) == Some(SettingsView { port, ..s }),
        applied(s, "pairing_port"@, text::decimal(port as nat)) == Some(
            SettingsView { pairing_port: port, ..s },
        ),
        applied(s, "pairing_file"@, value) == Some(
            SettingsView { pairing_file: Some(value), ..s },
        ),
        applied(s, "pairs_dir"@, value) == Some(SettingsView { pairs_dir: Some(value), ..s }),
        applied(s, "clipboard_helper"@, value) == Some(
            SettingsView { clipboard_helper: Some(value), ..s },
        ),
        applied(s, "mode"@, ConnectionMode::Inbound.name()) == Some(
            SettingsView { mode: ConnectionMode::Inbound, ..s },
        ),
        applied(s, "mode"@, ConnectionMode::Outbound.name()) == Some(
            SettingsView { mode: ConnectionMode::Outbound, ..s },
        ),
        applied(s, "security"@, SecurityMode::Secure.name()) == Some(
            SettingsView { security: SecurityMode::Secure, ..s },
        ),
        applied(s, "security"@, SecurityMode::Insecure.name()) == Some(
            SettingsView { security: SecurityMode::Insecure, ..s },
        ),
        applied(s, Seq::empty(), value) == Some(s),
{
    lemma_keys_differ();
    text::lemma_decimal_round_trip(port as nat, 65535);
    reveal_strlit("inbound");
    reveal_strlit("outbound");
    reveal_strlit("secure");
    reveal_strlit("insecure");
    assert(text::lowered("inbound"@).len() == 7 && text::lowered("outbound"@).len() == 8);
    assert(text::lowered("secure"@).len() == 6 && text::lowered("insecure"@).len() == 8);
}

/// An identity in a file is the identity of the daemon, however it was drawn; a later line wins
/// over an earlier one.
pub proof fn lemma_identity_is_kept(s: SettingsView, id: DeviceId, lines: Seq<Seq<char>>, line: Seq<char>)
    requires
        settled(s, lines) is Some,
        setting(line) == Some(("device_id"@, id.hex())),
    ensures
        settled(s, lines.push(line)) matches Some(after) && after.device_id == Some(id.0@)
            && after.security == settled(s, lines)->0.security,
{
    lemma_keys_differ();
    hex::lemma_hex_round_trip(id.0@);
    assert(id.hex().len() == 32);
    assert(lines.push(line).drop_last() =~= lines);
}

/// With a file the endpoint names the port of the settings: one that a daemon which is called
/// listens on, on every address, or that of the host that a daemon calls. Without a file it is
/// what the command line says.
pub proof fn lemma_endpoint_names_its_port(cli: DaemonOptions, s: SettingsView)
    ensures
        crate::remote::port_of(endpoint_of(cli, true, s)) == Some(s.port as nat),
        s.mode == ConnectionMode::Outbound && s.host.len() > 0 ==> text::starts_with(
            endpoint_of(cli, true, s),
            s.host,
        ),
        s.mode == ConnectionMode::Inbound ==> text::starts_with(
            endpoint_of(cli, true, s),
            "0.0.0.0"@,
        ),
        endpoint_of(cli, false, s) == if s.mode == ConnectionMode::Inbound {
            cli.listen@
        } else {
            cli.server@
        },
{
    reveal_strlit("0.0.0.0:");
    reveal_strlit("0.0.0.0");
    reveal_strlit(":");
    let digits = text::decimal(s.port as nat);
    crate::remote::lemma_port_is_named("0.0.0.0"@, s.port);
    crate::remote::lemma_port_is_named("127.0.0.1"@, s.port);
    crate::remote::lemma_port_is_named(s.host, s.port);
    assert("0.0.0.0:"@ =~= "0.0.0.0"@ + ":"@);
    assert(("0.0.0.0"@ + ":"@ + digits).take(7) =~= "0.0.0.0"@);
    assert((s.host + ":"@ + digits).take(s.host.len() as int) =~= s.host);
}

/// What cannot be used is not used: a port that is none gives the usual one, and an empty path or
/// identity leaves what was there. An identity that is none is an error.
pub proof fn lemma_useless_values_are_ignored(s: SettingsView, value: Seq<char>)
    ensures
        text::parse_unsigned(value, 65535) is None ==> applied(s, "port"@, value) == Some(
            SettingsView { port: 58321, ..s },
        ) && applied(s, "pairing_port"@, value) == Some(SettingsView { pairing_port: 58323, ..s }),
        applied(s, "pairing_file"@, Seq::empty()) == Some(s),
        applied(s, "pairs_dir"@, Seq::empty()) == Some(s),
        applied(s, "clipboard_helper"@, Seq::empty()) == Some(s),
        applied(s, "device_id"@, Seq::empty()) == Some(s),
        value.len() > 0 ==> (applied(s, "device_id"@, value) is None <==> hex::parse_hex(value, 16)
            is None),
{
    lemma_keys_differ();
}

/// Without a file the daemon runs as its command line says, at the usual ports; it is insecure
/// only if the command line says so, and has the identity that it names.
pub proof fn lemma_command_line_sets_the_daemon(cli: DaemonOptions, id: DeviceId)
    ensures
        settings_of(cli, None) matches Some(s) ==> {
            &&& s.mode == cli.mode
            &&& s.name == cli.name@
            &&& s.port == 58321
            &&& s.pairing_port == 58323
            &&& s.security == SecurityMode::Insecure <==> cli.insecure
            &&& s.device_id is None <==> cli.device_id is None
        },
        cli.device_id is None ==> settings_of(cli, None) is Some,
        (cli.device_id matches Some(text) ==> (text@ == id.hex() ==> (settings_of(
            cli,
            None,
        ) matches Some(s) && s.device_id == Some(id.0@)))),
{
    hex::lemma_hex_round_trip(id.0@);
}

} // verus!
