//! The settings of the host's command line.

use vstd::prelude::*;
use vstd::string::*;
use crate::messages::ExecIdentity;
use crate::text;

verus! {

/// What a person has set: where the server connects, which device is meant where none is named,
/// and as whom commands run.
#[derive(Debug)]
pub struct AppConfig {
    pub connect: Option<String>,
    pub default_device: Option<String>,
    pub run_as: Option<ExecIdentity>,
}

/// The settings as text.
#[verifier::ext_equal]
pub struct AppConfigView {
    pub connect: Option<Seq<char>>,
    pub default_device: Option<Seq<char>>,
    pub run_as: Option<ExecIdentity>,
}

/// The text of an optional string.
pub open spec fn text_of(s: Option<String>) -> Option<Seq<char>> {
    match s {
        Some(t) => Some(t@),
        None => None,
    }
}

impl View for AppConfig {
    type V = AppConfigView;

    open spec fn view(&self) -> AppConfigView {
        AppConfigView {
            connect: text_of(self.connect),
            default_device: text_of(self.default_device),
            run_as: self.run_as,
        }
    }
}

/// Why a setting is refused.
#[derive(Debug)]
pub enum ConfigError {
    RunAs,
    Key(String),
}

impl ConfigError {
    pub open spec fn text(self) -> Seq<char> {
        match self {
            ConfigError::RunAs => "run-as must be root or shell"@,
            ConfigError::Key(key) => "unknown config key '"@ + key@
                + "' (supported: connect, default-device, run-as)"@,
        }
    }

    pub fn message(self) -> (r: String)
        ensures
            r@ == self.text(),
    {
        match self {
            ConfigError::RunAs => String::from_str("run-as must be root or shell"),
            ConfigError::Key(key) => text::cat3(
                "unknown config key '",
                key.as_str(),
                "' (supported: connect, default-device, run-as)",
            ),
        }
    }
}

/// The identity that a text names.
pub open spec fn identity_named(value: Seq<char>) -> Option<ExecIdentity> {
    let name = text::lowered(text::trim(value));
    if name == "root"@ {
        Some(ExecIdentity::Root)
    } else if name == "shell"@ {
        Some(ExecIdentity::Shell)
    } else {
        None
    }
}

/// The name of an identity.
pub open spec fn identity_name(identity: ExecIdentity) -> Seq<char> {
    match identity {
        ExecIdentity::Root => "root"@,
        ExecIdentity::Shell => "shell"@,
    }
}

/// The settings after one was set; `None` where it is refused.
pub open spec fn after_set(config: AppConfigView, key: Seq<char>, value: Seq<char>) -> Option<
    AppConfigView,
> {
    if key == "connect"@ {
        Some(AppConfigView { connect: Some(text::trim(value)), ..config })
    } else if key == "default-device"@ {
        Some(AppConfigView { default_device: Some(text::trim(value)), ..config })
    } else if key == "run-as"@ {
        match identity_named(value) {
            Some(identity) => Some(AppConfigView { run_as: Some(identity), ..config }),
            None => None,
        }
    } else {
        None
    }
}

/// The settings after one was unset; `None` where there is no such setting.
pub open spec fn after_unset(config: AppConfigView, key: Seq<char>) -> Option<AppConfigView> {
    if key == "connect"@ {
        Some(AppConfigView { connect: None, ..config })
    } else if key == "default-device"@ {
        Some(AppConfigView { default_device: None, ..config })
    } else if key == "run-as"@ {
        Some(AppConfigView { run_as: None, ..config })
    } else {
        None
    }
}

fn trimmed_text(value: &str) -> (r: String)
    ensures
        r@ == text::trim(value@),
{
    let chars = text::chars_of(value);
    text::string_of(text::trimmed(chars.as_slice()).as_slice())
}

impl AppConfig {
    pub fn new() -> (r: AppConfig)
        ensures
            r@ == (AppConfigView { connect: None, default_device: None, run_as: None }),
    {
        AppConfig { connect: None, default_device: None, run_as: None }
    }

    /// Sets a setting.
    pub fn set(&mut self, key: &str, value: &str) -> (r: Result<(), ConfigError>)
        ensures
            match after_set(old(self)@, key@, value@) {
                Some(after) => r is Ok && final(self)@ == after,
                None => *final(self) == *old(self) && (r matches Err(e) && match e {
                    ConfigError::RunAs => key@ == "run-as"@,
                    ConfigError::Key(named) => key@ != "run-as"@ && named@ == key@,
                }),
            },
    {
        proof {
            reveal_strlit("connect");
            reveal_strlit("default-device");
            reveal_strlit("run-as");
            reveal_strlit("root");
            reveal_strlit("shell");
        }
        if text::equal(key, "connect") {
            self.connect = Some(trimmed_text(value));
            return Ok(());
        }
        if text::equal(key, "default-device") {
            self.default_device = Some(trimmed_text(value));
            return Ok(());
        }
        if text::equal(key, "run-as") {
            let chars = text::chars_of(value);
            let name = text::string_of(
                text::lower_all(text::trimmed(chars.as_slice()).as_slice()).as_slice(),
            );
            if text::equal(name.as_str(), "root") {
                self.run_as = Some(ExecIdentity::Root);
                return Ok(());
            }
            if text::equal(name.as_str(), "shell") {
                self.run_as = Some(ExecIdentity::Shell);
                return Ok(());
            }
            return Err(ConfigError::RunAs);
        }
        Err(ConfigError::Key(String::from_str(key)))
    }

    /// Unsets a setting.
    pub fn unset(&mut self, key: &str) -> (r: Result<(), ConfigError>)
        ensures
            match after_unset(old(self)@, key@) {
                Some(after) => r is Ok && final(self)@ == after,
                None => *final(self) == *old(self) && (r matches Err(ConfigError::Key(named))
                    && named@ == key@),
            },
    {
        proof {
            reveal_strlit("connect");
            reveal_strlit("default-device");
            reveal_strlit("run-as");
        }
        if text::equal(key, "connect") {
            self.connect = None;
            return Ok(());
        }
        if text::equal(key, "default-device") {
            self.default_device = None;
            return Ok(());
        }
        if text::equal(key, "run-as") {
            self.run_as = None;
            return Ok(());
        }
        Err(ConfigError::Key(String::from_str(key)))
    }

    /// The settings, a line each.
    pub fn show(&self) -> (r: Vec<String>)
        ensures
            r@.len() == 3,
            r@[0]@ == "connect="@ + shown(self@.connect),
            r@[1]@ == "default-device="@ + shown(self@.default_device),
            r@[2]@ == "run-as="@ + match self@.run_as {
                Some(identity) => identity_name(identity),
                None => Seq::empty(),
            },
    {
        let mut lines: Vec<String> = Vec::new();
        lines.push(text::cat2("connect=", or_empty(&self.connect)));
        lines.push(text::cat2("default-device=", or_empty(&self.default_device)));
        proof {
            reveal_strlit("");
        }
        lines.push(
            match self.run_as {
                Some(ExecIdentity::Root) => text::cat2("run-as=", "root"),
                Some(ExecIdentity::Shell) => text::cat2("run-as=", "shell"),
                None => text::cat2("run-as=", ""),
            },
        );
        assert(""@ =~= Seq::<char>::empty());
        lines
    }
}

/// What is shown of an optional setting.
pub open spec fn shown(value: Option<Seq<char>>) -> Seq<char> {
    match value {
        Some(t) => t,
        None => Seq::empty(),
    }
}

fn or_empty(value: &Option<String>) -> (r: &str)
    ensures
        r@ == shown(text_of(*value)),
{
    match value {
        Some(t) => t.as_str(),
        None => {
            proof {
                reveal_strlit("");
                assert(""@ =~= Seq::<char>::empty());
            }
            ""
        },
    }
}

/// As whom a command runs.
pub open spec fn runs_as(
    config: AppConfigView,
    requested: Option<ExecIdentity>,
    fallback: ExecIdentity,
) -> ExecIdentity {
    match requested {
        Some(identity) => identity,
        None => match config.run_as {
            Some(identity) => identity,
            None => fallback,
        },
    }
}

/// As whom a command runs: as asked, else as set, else as is usual for it.
pub fn resolve_run_as(
    config: &AppConfig,
    requested: Option<ExecIdentity>,
    fallback: ExecIdentity,
) -> (r: ExecIdentity)
    ensures
        r == runs_as(config@, requested, fallback),
{
    match requested {
        Some(identity) => identity,
        None => match config.run_as {
            Some(identity) => identity,
            None => fallback,
        },
    }
}

/// Which device is meant.
pub open spec fn meant_device(config: AppConfigView, requested: Option<Seq<char>>) -> Option<
    Seq<char>,
> {
    match requested {
        Some(device) => Some(device),
        None => config.default_device,
    }
}

/// Which device is meant: the one that is named, else the one that is set.
pub fn resolve_device(config: &AppConfig, requested: Option<String>) -> (r: Option<String>)
    ensures
        text_of(r) == meant_device(config@, text_of(requested)),
{
    match requested {
        Some(device) => Some(device),
        None => match &config.default_device {
            Some(device) => Some(String::from_str(device.as_str())),
            None => None,
        },
    }
}

/// Where the server connects.
pub open spec fn endpoints_of(config: AppConfigView, named: Seq<Seq<char>>) -> Seq<Seq<char>> {
    if named.len() > 0 {
        named
    } else {
        match config.connect {
            Some(endpoint) => seq![endpoint],
            None => Seq::empty(),
        }
    }
}

/// Where the server connects: to the endpoints that are named, else to the one that is set.
pub fn server_endpoints(config: &AppConfig, named: Vec<String>) -> (r: Vec<String>)
    ensures
        crate::shell::views(r@) == endpoints_of(config@, crate::shell::views(named@)),
        named@.len() > 0 ==> r == named,
{
    if named.len() > 0 {
        return named;
    }
    let mut endpoints: Vec<String> = Vec::new();
    match &config.connect {
        Some(endpoint) => endpoints.push(String::from_str(endpoint.as_str())),
        None => {},
    }
    assert(crate::shell::views(endpoints@) =~= endpoints_of(config@, crate::shell::views(named@)));
    endpoints
}

/// A command for all devices cannot name one.
pub fn check_all(all: bool, device_named: bool) -> (r: Result<(), String>)
    ensures
        r is Err <==> all && device_named,
        r matches Err(message) ==> message@ == "--all cannot be combined with -s/--device"@,
{
    if all && device_named {
        return Err(String::from_str("--all cannot be combined with -s/--device"));
    }
    Ok(())
}

/// What was set is there afterwards, and what was unset is not.
pub proof fn lemma_settings_hold(config: AppConfigView, value: Seq<char>)
    ensures
        after_set(config, "connect"@, value) == Some(
            AppConfigView { connect: Some(text::trim(value)), ..config },
        ),
        after_set(config, "default-device"@, value) == Some(
            AppConfigView { default_device: Some(text::trim(value)), ..config },
        ),
        identity_named(value) is Some ==> after_set(config, "run-as"@, value) == Some(
            AppConfigView { run_as: identity_named(value), ..config },
        ),
        after_unset(config, "connect"@) == Some(AppConfigView { connect: None, ..config }),
        after_unset(config, "default-device"@) == Some(
            AppConfigView { default_device: None, ..config },
        ),
        after_unset(config, "run-as"@) == Some(AppConfigView { run_as: None, ..config }),
{
    reveal_strlit("connect");
    reveal_strlit("default-device");
    reveal_strlit("run-as");
    assert("connect"@[0] == 'c');
    assert("default-device"@[0] == 'd');
    assert("run-as"@[0] == 'r');
}

/// What is asked for on the command line wins over every setting; without it the setting counts,
/// and without that what is usual, or nothing.
pub proof fn lemma_command_line_wins(
    config: AppConfigView,
    identity: ExecIdentity,
    usual: ExecIdentity,
    device: Seq<char>,
    named: Seq<Seq<char>>,
)
    requires
        named.len() > 0,
    ensures
        runs_as(config, Some(identity), usual) == identity,
        config.run_as == Some(identity) ==> runs_as(config, None, usual) == identity,
        config.run_as is None ==> runs_as(config, None, usual) == usual,
        meant_device(config, Some(device)) == Some(device),
        meant_device(config, None) == config.default_device,
        endpoints_of(config, named) == named,
        config.connect matches Some(endpoint) ==> endpoints_of(config, Seq::empty()) == seq![
            endpoint,
        ],
        config.connect is None ==> endpoints_of(config, Seq::empty()).len() == 0,
{
}

/// The name of an identity names that identity, with white space around it and in any case; no
/// name names two.
pub proof fn lemma_identities_have_their_names(identity: ExecIdentity, typed: Seq<char>)
    requires
        text::lowered(text::trim(typed)) == identity_name(identity),
    ensures
        identity_named(typed) == Some(identity),
        identity_named(identity_name(identity)) == Some(identity),
{
    reveal_strlit("root");
    reveal_strlit("shell");
    let name = identity_name(identity);
    assert("root"@.len() == 4 && "shell"@.len() == 5);
    text::lemma_trim_nothing(name);
    assert(text::lowered(name) =~= name);
}

/// Setting one thing leaves the others as they are, and unsetting it brings back that there is
/// none; what was set for commands decides as whom they run.
pub proof fn lemma_settings_are_independent(config: AppConfigView, value: Seq<char>)
    requires
        value.len() > 0 ==> !text::is_space(value[0]) && !text::is_space(value.last()),
    ensures
        after_set(config, "connect"@, value) matches Some(after) && after.connect == Some(value)
            && after.default_device == config.default_device && after.run_as == config.run_as
            && (after_unset(after, "connect"@) matches Some(back) && back.connect is None
            && back.default_device == config.default_device),
        after_set(config, "default-device"@, value) matches Some(after) && after.default_device
            == Some(value) && after.connect == config.connect && after.run_as == config.run_as
            && meant_device(after, None) == Some(value),
        after_set(config, "run-as"@, "root"@) matches Some(after) && after.connect == config.connect
            && runs_as(after, None, ExecIdentity::Shell) == ExecIdentity::Root,
        after_set(config, "run-as"@, "shell"@) matches Some(after) && runs_as(
            after,
            None,
            ExecIdentity::Root,
        ) == ExecIdentity::Shell,
{
    lemma_settings_hold(config, value);
    text::lemma_trim_nothing(value);
    reveal_strlit("root");
    reveal_strlit("shell");
    reveal_strlit("connect");
    reveal_strlit("default-device");
    reveal_strlit("run-as");
    assert("connect"@.len() == 7 && "default-device"@.len() == 14 && "run-as"@.len() == 6);
    text::lemma_trim_nothing("root"@);
    text::lemma_trim_nothing("shell"@);
    assert(text::lowered("root"@) =~= "root"@);
    assert(text::lowered("shell"@) =~= "shell"@);
    lemma_identities_have_their_names(ExecIdentity::Root, "root"@);
    lemma_identities_have_their_names(ExecIdentity::Shell, "shell"@);
}

} // verus!
