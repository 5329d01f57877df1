//! Configuration: a small TOML file plus `INDEXD_*` environment overrides.
//!
//! Precedence is environment, then file, then built-in default, and a missing
//! file is normal: every setting has a working default. The one setting with no
//! usable default is the `/hook` token list. It is a secret, it lives in the file
//! rather than the environment, and an empty list is loadable, so that the daemon
//! can start and say loudly what is wrong.

use vstd::prelude::*;
use vstd::string::*;

use crate::paths;
use crate::text;
use crate::tmux::extract::{DEFAULT_DISMISS_MARKER, STREAMING_MARKER};
use crate::worker::SweepConfig;

verus! {

/// The port of the ring and of the console.
pub const DEFAULT_PORT: u16 = 7490;

/// The port of `internd`'s callbacks.
pub const DEFAULT_CALLBACK_PORT: u16 = 7491;

/// Where `internd`'s machine API is.
pub const DEFAULT_INTERN_URL: &'static str = "http://127.0.0.1:7472";

/// The name of the tmux window.
pub const DEFAULT_WINDOW: &'static str = "index MASTER";

/// The working directory below the home directory: the home directory itself.
/// Anything else is a guess about someone else's layout.
pub const DEFAULT_CWD_SUFFIX: &'static str = "";

/// No default: a wrong value silently points key discovery at someone else's
/// tenant.
pub const DEFAULT_TEAM_DOMAIN: &'static str = "";

/// First wait for a reply.
pub const DEFAULT_PRIMARY_TIMEOUT_SECS: u64 = 90;

/// The extended wait a still-working turn is granted.
pub const DEFAULT_EXTENDED_TIMEOUT_SECS: u64 = 600;

/// How often a pane is captured.
pub const DEFAULT_POLL_INTERVAL_MS: u64 = 200;

/// Ceiling on one HTTP call to `internd`.
pub const DEFAULT_INTERN_TIMEOUT_SECS: u64 = 15;

/// How often everything in flight is reconciled.
pub const DEFAULT_SWEEP_INTERVAL_SECS: u64 = 60;

/// When to give up on a command that never reached `internd`.
pub const DEFAULT_SUBMIT_TIMEOUT_SECS: u64 = 60;

/// When to give up on a running command while `internd` is unreachable.
pub const DEFAULT_STALE_AFTER_SECS: u64 = 3600;

/// The database file inside the data directory.
pub const DB_FILENAME: &'static str = "indexd.db";

// ---------------------------------------------------------------------------
// The file and the environment
// ---------------------------------------------------------------------------

/// The file's shape. Every field optional: a partial file is the normal case.
#[derive(Debug, Clone)]
pub struct FileConfig {
    pub port: Option<u16>,
    pub callback_port: Option<u16>,
    pub data_dir: Option<String>,
    pub static_dir: Option<String>,
    pub window: Option<String>,
    pub cwd: Option<String>,
    /// Accepted at the top level as well as under `[auth]`, so that a list
    /// written in the obvious place is never silently ignored.
    pub tokens: Option<Vec<String>>,
    /// Launched in a window this daemon creates. Absent = never create one.
    pub agent_command: Option<Vec<String>>,
    pub streaming_marker: Option<String>,
    pub dismiss_marker: Option<String>,
    pub auth: AuthSection,
    pub intern: InternSection,
    pub timeouts: TimeoutSection,
}

/// `[auth]`.
#[derive(Debug, Clone)]
pub struct AuthSection {
    /// Full `Authorization` header values. More than one so that a token can be
    /// rotated without downtime.
    pub tokens: Option<Vec<String>>,
    /// Full `Authorization` header values accepted from `internd`.
    pub callback_tokens: Option<Vec<String>>,
    /// The audience tag of the console's Access application.
    pub access_aud: Option<String>,
    pub allowed_emails: Option<Vec<String>>,
    pub team_domain: Option<String>,
    pub allowed_hosts: Option<Vec<String>>,
}

/// `[intern]`.
#[derive(Debug, Clone)]
pub struct InternSection {
    pub url: Option<String>,
    pub token: Option<String>,
}

/// `[timeouts]`, in the units their names say.
#[derive(Debug, Clone)]
pub struct TimeoutSection {
    pub primary_secs: Option<u64>,
    pub extended_secs: Option<u64>,
    pub poll_interval_ms: Option<u64>,
    pub intern_secs: Option<u64>,
    pub sweep_interval_secs: Option<u64>,
    pub submit_timeout_secs: Option<u64>,
    pub stale_after_secs: Option<u64>,
}

/// An `[auth]` section that says nothing.
pub open spec fn silent_auth(a: AuthSection) -> bool {
    &&& a.tokens is None
    &&& a.callback_tokens is None
    &&& a.access_aud is None
    &&& a.allowed_emails is None
    &&& a.team_domain is None
    &&& a.allowed_hosts is None
}

/// A `[timeouts]` section that says nothing.
pub open spec fn silent_timeouts(t: TimeoutSection) -> bool {
    &&& t.primary_secs is None
    &&& t.extended_secs is None
    &&& t.poll_interval_ms is None
    &&& t.intern_secs is None
    &&& t.sweep_interval_secs is None
    &&& t.submit_timeout_secs is None
    &&& t.stale_after_secs is None
}

/// A file that says nothing, or is missing.
pub open spec fn silent(f: FileConfig) -> bool {
    &&& f.port is None
    &&& f.callback_port is None
    &&& f.data_dir is None
    &&& f.static_dir is None
    &&& f.window is None
    &&& f.cwd is None
    &&& f.tokens is None
    &&& f.agent_command is None
    &&& f.streaming_marker is None
    &&& f.dismiss_marker is None
    &&& silent_auth(f.auth)
    &&& f.intern.url is None
    &&& f.intern.token is None
    &&& silent_timeouts(f.timeouts)
}

impl Default for AuthSection {
    fn default() -> (r: AuthSection)
        ensures
            silent_auth(r),
    {
        AuthSection {
            tokens: None,
            callback_tokens: None,
            access_aud: None,
            allowed_emails: None,
            team_domain: None,
            allowed_hosts: None,
        }
    }
}

impl Default for InternSection {
    fn default() -> (r: InternSection)
        ensures
            r.url is None,
            r.token is None,
    {
        InternSection { url: None, token: None }
    }
}

impl Default for TimeoutSection {
    fn default() -> (r: TimeoutSection)
        ensures
            silent_timeouts(r),
    {
        TimeoutSection {
            primary_secs: None,
            extended_secs: None,
            poll_interval_ms: None,
            intern_secs: None,
            sweep_interval_secs: None,
            submit_timeout_secs: None,
            stale_after_secs: None,
        }
    }
}

impl Default for FileConfig {
    fn default() -> (r: FileConfig)
        ensures
            silent(r),
    {
        FileConfig {
            port: None,
            callback_port: None,
            data_dir: None,
            static_dir: None,
            window: None,
            cwd: None,
            tokens: None,
            agent_command: None,
            streaming_marker: None,
            dismiss_marker: None,
            auth: AuthSection::default(),
            intern: InternSection::default(),
            timeouts: TimeoutSection::default(),
        }
    }
}

/// The environment: names and values.
pub type Env = Vec<(String, String)>;

/// The environment, over the views of its texts.
pub open spec fn env_view(env: Seq<(String, String)>) -> Seq<(Seq<char>, Seq<char>)> {
    env.map_values(|p: (String, String)| (p.0@, p.1@))
}

/// The value of a variable from position `i` on.
pub open spec fn variable(env: Seq<(Seq<char>, Seq<char>)>, key: Seq<char>, i: int) -> Option<
    Seq<char>,
>
    decreases env.len() - i,
{
    if i < 0 || i >= env.len() {
        None
    } else if env[i].0 == key {
        Some(env[i].1)
    } else {
        variable(env, key, i + 1)
    }
}

/// The value of a variable, trimmed. A blank one counts as absent.
pub open spec fn env_value(env: Seq<(Seq<char>, Seq<char>)>, key: Seq<char>) -> Option<Seq<char>> {
    match variable(env, key, 0) {
        Some(v) => if text::trimmed(v).len() == 0 {
            None
        } else {
            Some(text::trimmed(v))
        },
        None => None,
    }
}

fn env_raw(env: &Env, key: &str) -> (r: Option<String>)
    ensures
        text::opt_view(r) == variable(env_view(env@), key@, 0),
{
    let ghost all = env_view(env@);
    let mut i: usize = 0;
    while i < env.len()
        invariant
            i <= env@.len(),
            all == env_view(env@),
            variable(all, key@, i as int) == variable(all, key@, 0),
        decreases env@.len() - i,
    {
        assert(all[i as int] == (env@[i as int].0@, env@[i as int].1@));
        if text::same(env[i].0.as_str(), key) {
            return Some(env[i].1.clone());
        }
        i = i + 1;
    }
    None
}

/// An environment variable, treating blank as absent: a placeholder that was
/// never filled in lands on the same path as never having been written.
pub fn env_str(env: &Env, key: &str) -> (r: Option<String>)
    ensures
        text::opt_view(r) == env_value(env_view(env@), key@),
{
    match env_raw(env, key) {
        Some(v) => {
            let t = text::trim(v.as_str());
            if t.as_str().is_empty() {
                None
            } else {
                Some(t)
            }
        },
        None => None,
    }
}

/// The entries of a list, trimmed, without the blank ones.
pub open spec fn cleaned(items: Seq<Seq<char>>) -> Seq<Seq<char>>
    decreases items.len(),
{
    if items.len() == 0 {
        Seq::empty()
    } else {
        let rest = cleaned(items.drop_last());
        let t = text::trimmed(items.last());
        if t.len() == 0 {
            rest
        } else {
            rest.push(t)
        }
    }
}

/// The entries of a list, in lower case.
pub open spec fn lowered_all(items: Seq<Seq<char>>) -> Seq<Seq<char>> {
    items.map_values(|s: Seq<char>| text::lowered(s))
}

/// A list with its entries trimmed and the blank ones dropped.
pub fn clean_list(items: &Vec<String>) -> (r: Vec<String>)
    ensures
        text::views(r@) == cleaned(text::views(items@)),
{
    let ghost all = text::views(items@);
    let mut r: Vec<String> = Vec::new();
    let mut i: usize = 0;
    assert(all.take(0) =~= Seq::<Seq<char>>::empty());
    assert(text::views(r@) =~= Seq::<Seq<char>>::empty());
    while i < items.len()
        invariant
            i <= items@.len(),
            all == text::views(items@),
            text::views(r@) == cleaned(all.take(i as int)),
        decreases items@.len() - i,
    {
        assert(all.take(i + 1).drop_last() =~= all.take(i as int));
        assert(all[i as int] == items@[i as int]@);
        let t = text::trim(items[i].as_str());
        if !t.as_str().is_empty() {
            let ghost before = r@;
            r.push(t);
            assert(text::views(r@) =~= text::views(before).push(t@));
        }
        i = i + 1;
    }
    assert(all.take(i as int) =~= all);
    r
}

/// A list with its entries trimmed and in lower case, and the blank ones dropped.
pub fn lowercase_list(items: &Vec<String>) -> (r: Vec<String>)
    ensures
        text::views(r@) == lowered_all(cleaned(text::views(items@))),
{
    let clean = clean_list(items);
    let ghost all = text::views(clean@);
    let mut r: Vec<String> = Vec::new();
    let mut i: usize = 0;
    assert(text::views(r@) =~= lowered_all(all.take(0)));
    while i < clean.len()
        invariant
            i <= clean@.len(),
            all == text::views(clean@),
            text::views(r@) == lowered_all(all.take(i as int)),
        decreases clean@.len() - i,
    {
        let ghost before = r@;
        let t = text::lowercase(clean[i].as_str());
        r.push(t);
        assert(text::views(r@) =~= text::views(before).push(text::lowered(all[i as int])));
        assert(lowered_all(all.take(i + 1)) =~= lowered_all(all.take(i as int)).push(
            text::lowered(all[i as int]),
        ));
        i = i + 1;
    }
    assert(all.take(i as int) =~= all);
    r
}

/// A comma-separated environment list, blank entries dropped.
pub fn env_list(env: &Env, key: &str) -> (r: Option<Vec<String>>)
    ensures
        match r {
            Some(v) => env_value(env_view(env@), key@) is Some && text::views(v@) == cleaned(
                text::pieces(env_value(env_view(env@), key@)->0, ','),
            ),
            None => env_value(env_view(env@), key@) is None,
        },
{
    match env_str(env, key) {
        Some(v) => Some(clean_list(&text::split(v.as_str(), ','))),
        None => None,
    }
}

// ---------------------------------------------------------------------------
// Paths
// ---------------------------------------------------------------------------

/// The home directory, given the variable that names it.
pub open spec fn home_dir(home: Option<Seq<char>>) -> Seq<char> {
    match home {
        Some(h) => h,
        None => "/tmp"@,
    }
}

fn home_of(home: Option<&str>) -> (r: String)
    ensures
        r@ == home_dir(text::opt_str(home)),
{
    match home {
        Some(h) => h.to_owned(),
        None => "/tmp".to_owned(),
    }
}

/// Where the file is: `$INDEXD_CONFIG`, else `~/.config/indexd/config.toml`.
pub fn default_config_path(env: &Env, home: Option<&str>) -> (r: String)
    ensures
        r@ == match env_value(env_view(env@), "INDEXD_CONFIG"@) {
            Some(p) => p,
            None => paths::below(home_dir(text::opt_str(home)), ".config/indexd/config.toml"@),
        },
{
    match env_str(env, "INDEXD_CONFIG") {
        Some(p) => p,
        None => paths::join(home_of(home).as_str(), ".config/indexd/config.toml"),
    }
}

/// `~/.local/share/indexd`.
pub fn default_data_dir(home: Option<&str>) -> (r: String)
    ensures
        r@ == paths::below(home_dir(text::opt_str(home)), ".local/share/indexd"@),
{
    paths::join(home_of(home).as_str(), ".local/share/indexd")
}

/// The directory the window is created in: the home directory.
pub fn default_cwd(home: Option<&str>) -> (r: String)
    ensures
        r@ == home_dir(text::opt_str(home)),
{
    proof {
        reveal_strlit("");
    }
    if DEFAULT_CWD_SUFFIX.is_empty() {
        home_of(home)
    } else {
        paths::join(home_of(home).as_str(), DEFAULT_CWD_SUFFIX)
    }
}

/// A team domain as a bare host in lower case.
pub open spec fn team_host(raw: Seq<char>) -> Seq<char> {
    text::without_end(
        text::without_start(
            text::without_start(text::lowered(text::trimmed(raw)), "https://"@),
            "http://"@,
        ),
        '/',
    )
}

/// Strip a scheme and any trailing slash, so that a team domain is a bare host
/// whichever way it was written. Lower case first, so that `HTTPS://` is a scheme
/// too.
pub fn normalize_team_domain(raw: &str) -> (r: String)
    ensures
        r@ == team_host(raw@),
{
    proof {
        reveal_strlit("https://");
        reveal_strlit("http://");
    }
    let t = text::lowercase(text::trim(raw).as_str());
    let t = text::trim_start_text(t.as_str(), "https://");
    let t = text::trim_start_text(t.as_str(), "http://");
    text::trim_end_char(t.as_str(), '/')
}

// ---------------------------------------------------------------------------
// The configuration
// ---------------------------------------------------------------------------

/// Everything the daemon needs, already resolved. No `Option` survives here
/// except `access_aud`, whose absence is itself the meaningful state: a missing
/// audience fails closed.
#[derive(Clone)]
pub struct Config {
    pub port: u16,
    /// The loopback port of `internd`'s callbacks. Never the same as `port`.
    pub callback_port: u16,
    pub data_dir: String,
    pub static_dir: String,
    /// tmux window name, compared exactly after the first colon.
    pub window: String,
    /// Working directory for the window when it has to be created.
    pub cwd: String,
    /// Full `Authorization` header values accepted at `/hook`. Empty means reject
    /// everything.
    pub tokens: Vec<String>,
    /// Full `Authorization` header values accepted on the callback listener.
    pub callback_tokens: Vec<String>,
    pub access_aud: Option<String>,
    /// Lowercased and trimmed.
    pub allowed_emails: Vec<String>,
    /// Argv launched in a window this daemon creates.
    pub agent_command: Vec<String>,
    /// What the agent's TUI prints while a turn is in flight.
    pub streaming_marker: String,
    /// A first-run confirmation to dismiss with Tab. Empty disables it.
    pub dismiss_marker: String,
    /// Bare host, no scheme, no trailing slash.
    pub team_domain: String,
    /// Lowercased and trimmed.
    pub allowed_hosts: Vec<String>,
    /// `internd`'s machine API, without a slash at its end.
    pub intern_url: String,
    /// Presented to `internd`. Empty means that every submission is refused.
    pub intern_token: String,
    pub primary_timeout_secs: u64,
    pub extended_timeout_secs: u64,
    pub poll_interval_ms: u64,
    pub intern_timeout_secs: u64,
    pub sweep_interval_secs: u64,
    pub submit_timeout_secs: u64,
    pub stale_after_secs: u64,
}

/// A configuration, over the views of its texts.
pub struct ConfigView {
    pub port: u16,
    pub callback_port: u16,
    pub data_dir: Seq<char>,
    pub static_dir: Seq<char>,
    pub window: Seq<char>,
    pub cwd: Seq<char>,
    pub tokens: Seq<Seq<char>>,
    pub callback_tokens: Seq<Seq<char>>,
    pub access_aud: Option<Seq<char>>,
    pub allowed_emails: Seq<Seq<char>>,
    pub agent_command: Seq<Seq<char>>,
    pub streaming_marker: Seq<char>,
    pub dismiss_marker: Seq<char>,
    pub team_domain: Seq<char>,
    pub allowed_hosts: Seq<Seq<char>>,
    pub intern_url: Seq<char>,
    pub intern_token: Seq<char>,
    pub primary_timeout_secs: u64,
    pub extended_timeout_secs: u64,
    pub poll_interval_ms: u64,
    pub intern_timeout_secs: u64,
    pub sweep_interval_secs: u64,
    pub submit_timeout_secs: u64,
    pub stale_after_secs: u64,
}

impl View for Config {
    type V = ConfigView;

    open spec fn view(&self) -> ConfigView {
        ConfigView {
            port: self.port,
            callback_port: self.callback_port,
            data_dir: self.data_dir@,
            static_dir: self.static_dir@,
            window: self.window@,
            cwd: self.cwd@,
            tokens: text::views(self.tokens@),
            callback_tokens: text::views(self.callback_tokens@),
            access_aud: text::opt_view(self.access_aud),
            allowed_emails: text::views(self.allowed_emails@),
            agent_command: text::views(self.agent_command@),
            streaming_marker: self.streaming_marker@,
            dismiss_marker: self.dismiss_marker@,
            team_domain: self.team_domain@,
            allowed_hosts: text::views(self.allowed_hosts@),
            intern_url: self.intern_url@,
            intern_token: self.intern_token@,
            primary_timeout_secs: self.primary_timeout_secs,
            extended_timeout_secs: self.extended_timeout_secs,
            poll_interval_ms: self.poll_interval_ms,
            intern_timeout_secs: self.intern_timeout_secs,
            sweep_interval_secs: self.sweep_interval_secs,
            submit_timeout_secs: self.submit_timeout_secs,
            stale_after_secs: self.stale_after_secs,
        }
    }
}

/// The views of a list that may be absent.
pub open spec fn opt_views(o: Option<Vec<String>>) -> Option<Seq<Seq<char>>> {
    match o {
        Some(v) => Some(text::views(v@)),
        None => None,
    }
}

/// The environment, where it speaks, wins over the file.
pub open spec fn picked(
    env: Seq<(Seq<char>, Seq<char>)>,
    key: Seq<char>,
    from_file: Option<Seq<char>>,
) -> Option<Seq<char>> {
    match env_value(env, key) {
        Some(v) => Some(v),
        None => from_file,
    }
}

/// The first of two that is there, or the value behind them.
pub open spec fn or_else<T>(a: Option<T>, b: T) -> T {
    match a {
        Some(v) => v,
        None => b,
    }
}

/// A list from the environment, or else from the file, without blank entries.
pub open spec fn picked_list(
    env: Seq<(Seq<char>, Seq<char>)>,
    key: Seq<char>,
    from_file: Option<Seq<Seq<char>>>,
) -> Option<Seq<Seq<char>>> {
    match env_value(env, key) {
        Some(v) => Some(cleaned(text::pieces(v, ','))),
        None => match from_file {
            Some(v) => Some(cleaned(v)),
            None => None,
        },
    }
}

/// Why there is no configuration.
#[derive(Debug, Clone)]
pub struct ConfigError {
    /// What is wrong.
    pub doing: String,
    /// What it comes from, if from something else.
    pub cause: Option<String>,
}

/// The error, over the views of its texts.
pub struct FaultView {
    pub doing: Seq<char>,
    pub cause: Option<Seq<char>>,
}

impl View for ConfigError {
    type V = FaultView;

    open spec fn view(&self) -> FaultView {
        FaultView { doing: self.doing@, cause: text::opt_view(self.cause) }
    }
}

impl ConfigError {
    /// What is wrong, without what it comes from.
    pub fn message(&self) -> (r: String)
        ensures
            r@ == self@.doing,
    {
        self.doing.clone()
    }

    /// What is wrong, and what it comes from.
    pub fn detail(&self) -> (r: String)
        ensures
            r@ == match self@.cause {
                Some(c) => self@.doing + ": "@ + c,
                None => self@.doing,
            },
    {
        match &self.cause {
            Some(c) => text::cat3(self.doing.as_str(), ": ", c.as_str()),
            None => self.doing.clone(),
        }
    }
}

/// What came of resolving a configuration, over the views of its texts.
pub open spec fn config_view(r: Result<Config, ConfigError>) -> Result<ConfigView, FaultView> {
    match r {
        Ok(c) => Ok(c@),
        Err(e) => Err(e@),
    }
}

/// A port from the environment, or else from the file, or else the default; or
/// what is wrong with the one in the environment.
pub open spec fn picked_port(
    env: Seq<(Seq<char>, Seq<char>)>,
    key: Seq<char>,
    from_file: Option<u16>,
    default: u16,
) -> Result<u16, FaultView> {
    match env_value(env, key) {
        Some(v) => match text::u16_value(v) {
            Some(p) => Ok(p),
            None => Err(
                FaultView {
                    doing: key + "="@ + v + " is not a port number"@,
                    cause: text::u16_fault_of(v),
                },
            ),
        },
        None => Ok(or_else(from_file, default)),
    }
}

/// The agent's command: words in the environment, or else the file's list.
pub open spec fn picked_command(
    env: Seq<(Seq<char>, Seq<char>)>,
    from_file: Option<Seq<Seq<char>>>,
) -> Seq<Seq<char>> {
    match variable(env, "INDEXD_AGENT_COMMAND"@, 0) {
        Some(v) => if text::words_of(v).len() > 0 {
            text::words_of(v)
        } else {
            or_else(from_file, Seq::empty())
        },
        None => or_else(from_file, Seq::empty()),
    }
}

/// The configuration that a file, an environment and a home directory give, with
/// those two ports.
pub open spec fn resolved_with(
    file: FileConfig,
    env: Seq<(Seq<char>, Seq<char>)>,
    home: Option<Seq<char>>,
    port: u16,
    callback_port: u16,
) -> ConfigView {
    ConfigView {
        port,
        callback_port,
        data_dir: or_else(
            picked(env, "INDEXD_DATA_DIR"@, text::opt_view(file.data_dir)),
            paths::below(home_dir(home), ".local/share/indexd"@),
        ),
        static_dir: or_else(
            picked(env, "INDEXD_STATIC"@, text::opt_view(file.static_dir)),
            "static"@,
        ),
        window: or_else(
            picked(env, "INDEXD_WINDOW"@, text::opt_view(file.window)),
            DEFAULT_WINDOW@,
        ),
        cwd: or_else(picked(env, "INDEXD_CWD"@, text::opt_view(file.cwd)), home_dir(home)),
        tokens: cleaned(
            or_else(opt_views(file.auth.tokens), or_else(opt_views(file.tokens), Seq::empty())),
        ),
        callback_tokens: cleaned(or_else(opt_views(file.auth.callback_tokens), Seq::empty())),
        access_aud: picked(env, "INDEXD_ACCESS_AUD"@, text::opt_view(file.auth.access_aud)),
        allowed_emails: lowered_all(
            cleaned(
                or_else(
                    picked_list(
                        env,
                        "INDEXD_ALLOWED_EMAILS"@,
                        opt_views(file.auth.allowed_emails),
                    ),
                    Seq::empty(),
                ),
            ),
        ),
        agent_command: picked_command(env, opt_views(file.agent_command)),
        streaming_marker: or_else(
            picked(env, "INDEXD_STREAMING_MARKER"@, text::opt_view(file.streaming_marker)),
            STREAMING_MARKER@,
        ),
        dismiss_marker: or_else(
            picked(env, "INDEXD_DISMISS_MARKER"@, text::opt_view(file.dismiss_marker)),
            DEFAULT_DISMISS_MARKER@,
        ),
        team_domain: team_host(
            or_else(
                picked(env, "INDEXD_TEAM_DOMAIN"@, text::opt_view(file.auth.team_domain)),
                DEFAULT_TEAM_DOMAIN@,
            ),
        ),
        allowed_hosts: lowered_all(
            cleaned(
                or_else(
                    picked_list(
                        env,
                        "INDEXD_ALLOWED_HOSTS"@,
                        opt_views(file.auth.allowed_hosts),
                    ),
                    seq!["localhost"@, "127.0.0.1"@],
                ),
            ),
        ),
        intern_url: text::without_end(
            or_else(
                picked(env, "INDEXD_INTERN_URL"@, text::opt_view(file.intern.url)),
                DEFAULT_INTERN_URL@,
            ),
            '/',
        ),
        intern_token: text::trimmed(or_else(text::opt_view(file.intern.token), Seq::empty())),
        primary_timeout_secs: or_else(file.timeouts.primary_secs, DEFAULT_PRIMARY_TIMEOUT_SECS),
        extended_timeout_secs: or_else(file.timeouts.extended_secs, DEFAULT_EXTENDED_TIMEOUT_SECS),
        poll_interval_ms: or_else(file.timeouts.poll_interval_ms, DEFAULT_POLL_INTERVAL_MS),
        intern_timeout_secs: or_else(file.timeouts.intern_secs, DEFAULT_INTERN_TIMEOUT_SECS),
        sweep_interval_secs: or_else(
            file.timeouts.sweep_interval_secs,
            DEFAULT_SWEEP_INTERVAL_SECS,
        ),
        submit_timeout_secs: or_else(
            file.timeouts.submit_timeout_secs,
            DEFAULT_SUBMIT_TIMEOUT_SECS,
        ),
        stale_after_secs: or_else(file.timeouts.stale_after_secs, DEFAULT_STALE_AFTER_SECS),
    }
}

/// The configuration that a file, an environment and a home directory give, or
/// what is wrong with them.
pub open spec fn resolved(
    file: FileConfig,
    env: Seq<(Seq<char>, Seq<char>)>,
    home: Option<Seq<char>>,
) -> Result<ConfigView, FaultView> {
    match picked_port(env, "INDEXD_PORT"@, file.port, DEFAULT_PORT) {
        Err(e) => Err(e),
        Ok(port) => match picked_port(
            env,
            "INDEXD_CALLBACK_PORT"@,
            file.callback_port,
            DEFAULT_CALLBACK_PORT,
        ) {
            Err(e) => Err(e),
            Ok(callback_port) => if port == callback_port {
                Err(
                    FaultView {
                        doing: "callback_port must differ from port: both are "@ + text::decimal(
                            port as nat,
                        ),
                        cause: None,
                    },
                )
            } else {
                Ok(resolved_with(file, env, home, port, callback_port))
            },
        },
    }
}

fn pick_str(env: &Env, key: &str, from_file: Option<String>) -> (r: Option<String>)
    ensures
        text::opt_view(r) == picked(env_view(env@), key@, text::opt_view(from_file)),
{
    match env_str(env, key) {
        Some(v) => Some(v),
        None => from_file,
    }
}

fn pick_list(env: &Env, key: &str, from_file: Option<Vec<String>>) -> (r: Option<Vec<String>>)
    ensures
        opt_views(r) == picked_list(env_view(env@), key@, opt_views(from_file)),
{
    match env_list(env, key) {
        Some(v) => Some(v),
        None => match from_file {
            Some(v) => Some(clean_list(&v)),
            None => None,
        },
    }
}

fn pick_port(env: &Env, key: &str, from_file: Option<u16>, default: u16) -> (r: Result<
    u16,
    ConfigError,
>)
    ensures
        picked_port(env_view(env@), key@, from_file, default) == match r {
            Ok(p) => Ok::<u16, FaultView>(p),
            Err(e) => Err(e@),
        },
{
    match env_str(env, key) {
        Some(v) => match text::parse_u16(v.as_str()) {
            Some(p) => Ok(p),
            None => {
                let mut doing = text::cat3(key, "=", v.as_str());
                doing.append(" is not a port number");
                Err(ConfigError { doing, cause: text::u16_fault(v.as_str()) })
            },
        },
        None => match from_file {
            Some(p) => Ok(p),
            None => Ok(default),
        },
    }
}

fn pick_command(env: &Env, from_file: Option<Vec<String>>) -> (r: Vec<String>)
    ensures
        text::views(r@) == picked_command(env_view(env@), opt_views(from_file)),
{
    match env_raw(env, "INDEXD_AGENT_COMMAND") {
        Some(v) => {
            let words = text::words(v.as_str());
            assert(text::views(words@).len() == words@.len());
            if words.len() > 0 {
                return words;
            }
        },
        None => {},
    }
    match from_file {
        Some(v) => v,
        None => {
            let r: Vec<String> = Vec::new();
            assert(text::views(r@) =~= Seq::<Seq<char>>::empty());
            r
        },
    }
}

fn list_or_empty(o: Option<Vec<String>>) -> (r: Vec<String>)
    ensures
        text::views(r@) == or_else(opt_views(o), Seq::empty()),
{
    match o {
        Some(v) => v,
        None => {
            let r: Vec<String> = Vec::new();
            assert(text::views(r@) =~= Seq::<Seq<char>>::empty());
            r
        },
    }
}

fn text_or(o: Option<String>, default: &str) -> (r: String)
    ensures
        r@ == or_else(text::opt_view(o), default@),
{
    match o {
        Some(s) => s,
        None => default.to_owned(),
    }
}

fn number_or(o: Option<u64>, default: u64) -> (r: u64)
    ensures
        r == or_else(o, default),
{
    match o {
        Some(n) => n,
        None => default,
    }
}

/// What came of reading the configuration file.
pub enum FileRead {
    /// There is none.
    Missing,
    /// It is there and could not be read.
    Unreadable(String),
    /// It was read and is no configuration.
    Malformed(String),
    /// What it says.
    Parsed(FileConfig),
}

/// The file that says nothing.
pub open spec fn silence() -> FileConfig {
    FileConfig {
        port: None,
        callback_port: None,
        data_dir: None,
        static_dir: None,
        window: None,
        cwd: None,
        tokens: None,
        agent_command: None,
        streaming_marker: None,
        dismiss_marker: None,
        auth: AuthSection {
            tokens: None,
            callback_tokens: None,
            access_aud: None,
            allowed_emails: None,
            team_domain: None,
            allowed_hosts: None,
        },
        intern: InternSection { url: None, token: None },
        timeouts: TimeoutSection {
            primary_secs: None,
            extended_secs: None,
            poll_interval_ms: None,
            intern_secs: None,
            sweep_interval_secs: None,
            submit_timeout_secs: None,
            stale_after_secs: None,
        },
    }
}

/// The configuration that a read of the file at a path gives, or the error.
pub open spec fn loaded(
    path: Seq<char>,
    read: FileRead,
    env: Seq<(Seq<char>, Seq<char>)>,
    home: Option<Seq<char>>,
) -> Result<ConfigView, FaultView> {
    match read {
        FileRead::Missing => resolved(silence(), env, home),
        FileRead::Unreadable(e) => Err(FaultView { doing: "reading "@ + path, cause: Some(e@) }),
        FileRead::Malformed(e) => Err(
            FaultView { doing: path + " is not valid TOML"@, cause: Some(e@) },
        ),
        FileRead::Parsed(file) => resolved(file, env, home),
    }
}

impl Config {
    /// Defaults, then what was read of the file at `path`, then the environment.
    ///
    /// A missing file is not an error. An unreadable or malformed one is, and the
    /// error names it: the file is where the `/hook` tokens live, and starting with a
    /// silently empty token list because of a typo would take the endpoint down with
    /// no signal but a 401.
    pub fn load(path: &str, read: FileRead, env: &Env, home: Option<&str>) -> (r: Result<
        Config,
        ConfigError,
    >)
        ensures
            config_view(r) == loaded(path@, read, env_view(env@), text::opt_str(home)),
    {
        match read {
            FileRead::Missing => Config::from_file_config(FileConfig::default(), env, home),
            FileRead::Unreadable(e) => Err(
                ConfigError { doing: text::cat("reading ", path), cause: Some(e) },
            ),
            FileRead::Malformed(e) => Err(
                ConfigError { doing: text::cat(path, " is not valid TOML"), cause: Some(e) },
            ),
            FileRead::Parsed(file) => Config::from_file_config(file, env, home),
        }
    }

    /// Resolve a file, which may say nothing, an environment, which may be empty,
    /// and a home directory.
    ///
    /// The two token lists and `internd`'s token have no environment override:
    /// secrets stay in the file. `[auth] tokens` wins over a top-level `tokens`;
    /// both are read, so that a list written in either place still gates the
    /// endpoint.
    pub fn from_file_config(file: FileConfig, env: &Env, home: Option<&str>) -> (r: Result<
        Config,
        ConfigError,
    >)
        ensures
            config_view(r) == resolved(file, env_view(env@), text::opt_str(home)),
    {
        let port: u16 = match pick_port(env, "INDEXD_PORT", file.port, DEFAULT_PORT) {
            Ok(p) => p,
            Err(e) => return Err(e),
        };
        let callback_port: u16 = match pick_port(
            env,
            "INDEXD_CALLBACK_PORT",
            file.callback_port,
            DEFAULT_CALLBACK_PORT,
        ) {
            Ok(p) => p,
            Err(e) => return Err(e),
        };
        if port == callback_port {
            return Err(
                ConfigError {
                    doing: text::cat(
                        "callback_port must differ from port: both are ",
                        text::dec(port as u64).as_str(),
                    ),
                    cause: None,
                },
            );
        }
        let data_dir = text_or(
            pick_str(env, "INDEXD_DATA_DIR", file.data_dir),
            default_data_dir(home).as_str(),
        );
        let static_dir = text_or(pick_str(env, "INDEXD_STATIC", file.static_dir), "static");
        let window = text_or(pick_str(env, "INDEXD_WINDOW", file.window), DEFAULT_WINDOW);
        let cwd = text_or(pick_str(env, "INDEXD_CWD", file.cwd), default_cwd(home).as_str());
        let given = match file.auth.tokens {
            Some(v) => v,
            None => list_or_empty(file.tokens),
        };
        let tokens = clean_list(&given);
        let callback_tokens = clean_list(&list_or_empty(file.auth.callback_tokens));
        let access_aud = pick_str(env, "INDEXD_ACCESS_AUD", file.auth.access_aud);
        let allowed_emails = lowercase_list(
            &list_or_empty(pick_list(env, "INDEXD_ALLOWED_EMAILS", file.auth.allowed_emails)),
        );
        let team_domain = normalize_team_domain(
            text_or(
                pick_str(env, "INDEXD_TEAM_DOMAIN", file.auth.team_domain),
                DEFAULT_TEAM_DOMAIN,
            ).as_str(),
        );
        let hosts = match pick_list(env, "INDEXD_ALLOWED_HOSTS", file.auth.allowed_hosts) {
            Some(v) => v,
            None => {
                let v = vec!["localhost".to_owned(), "127.0.0.1".to_owned()];
                assert(text::views(v@) =~= seq!["localhost"@, "127.0.0.1"@]);
                v
            },
        };
        let allowed_hosts = lowercase_list(&hosts);
        let intern_url = text::trim_end_char(
            text_or(pick_str(env, "INDEXD_INTERN_URL", file.intern.url), DEFAULT_INTERN_URL).as_str(),
            '/',
        );
        let intern_token = match file.intern.token {
            Some(t) => text::trim(t.as_str()),
            None => text::trim(String::new().as_str()),
        };
        Ok(
            Config {
                port,
                callback_port,
                data_dir,
                static_dir,
                window,
                cwd,
                tokens,
                callback_tokens,
                access_aud,
                allowed_emails,
                agent_command: pick_command(env, file.agent_command),
                streaming_marker: text_or(
                    pick_str(env, "INDEXD_STREAMING_MARKER", file.streaming_marker),
                    STREAMING_MARKER,
                ),
                dismiss_marker: text_or(
                    pick_str(env, "INDEXD_DISMISS_MARKER", file.dismiss_marker),
                    DEFAULT_DISMISS_MARKER,
                ),
                team_domain,
                allowed_hosts,
                intern_url,
                intern_token,
                primary_timeout_secs: number_or(
                    file.timeouts.primary_secs,
                    DEFAULT_PRIMARY_TIMEOUT_SECS,
                ),
                extended_timeout_secs: number_or(
                    file.timeouts.extended_secs,
                    DEFAULT_EXTENDED_TIMEOUT_SECS,
                ),
                poll_interval_ms: number_or(
                    file.timeouts.poll_interval_ms,
                    DEFAULT_POLL_INTERVAL_MS,
                ),
                intern_timeout_secs: number_or(
                    file.timeouts.intern_secs,
                    DEFAULT_INTERN_TIMEOUT_SECS,
                ),
                sweep_interval_secs: number_or(
                    file.timeouts.sweep_interval_secs,
                    DEFAULT_SWEEP_INTERVAL_SECS,
                ),
                submit_timeout_secs: number_or(
                    file.timeouts.submit_timeout_secs,
                    DEFAULT_SUBMIT_TIMEOUT_SECS,
                ),
                stale_after_secs: number_or(
                    file.timeouts.stale_after_secs,
                    DEFAULT_STALE_AFTER_SECS,
                ),
            },
        )
    }

    /// `data_dir/indexd.db`.
    pub fn db_path(&self) -> (r: String)
        ensures
            r@ == paths::below(self@.data_dir, DB_FILENAME@),
    {
        paths::join(self.data_dir.as_str(), DB_FILENAME)
    }

    /// Is there anything at all in the `/hook` token list? If not, the daemon
    /// still starts, and `/hook` rejects every request.
    pub fn tokens_configured(&self) -> (r: bool)
        ensures
            r == (self@.tokens.len() > 0),
    {
        self.tokens.len() > 0
    }

    /// Is there a token to present to `internd`?
    pub fn intern_configured(&self) -> (r: bool)
        ensures
            r == (self@.intern_token.len() > 0),
    {
        !self.intern_token.as_str().is_empty()
    }

    /// Expected `iss` on an Access assertion, and the origin of its keys.
    pub fn issuer(&self) -> (r: String)
        ensures
            r@ == "https://"@ + self@.team_domain,
    {
        text::cat("https://", self.team_domain.as_str())
    }

    /// Where Cloudflare publishes the Access signing keys for this team.
    pub fn jwks_url(&self) -> (r: String)
        ensures
            r@ == "https://"@ + self@.team_domain + "/cdn-cgi/access/certs"@,
    {
        text::cat(self.issuer().as_str(), "/cdn-cgi/access/certs")
    }

    /// How the sweeper goes about its work.
    pub fn sweep_config(&self) -> (r: SweepConfig)
        ensures
            r.interval_secs == self@.sweep_interval_secs,
            r.submit_timeout_secs == self@.submit_timeout_secs,
            r.stale_after_secs == self@.stale_after_secs,
    {
        SweepConfig {
            interval_secs: self.sweep_interval_secs,
            submit_timeout_secs: self.submit_timeout_secs,
            stale_after_secs: self.stale_after_secs,
        }
    }

    /// The configuration as text, for the startup log. Every field prints in full
    /// but the tokens, of which only the count does.
    pub fn debug(&self) -> (r: String)
        ensures
            r@ == debug_text(self@),
    {
        let fields = vec![
            text::cat("port: ", text::dec(self.port as u64).as_str()),
            text::cat("callback_port: ", text::dec(self.callback_port as u64).as_str()),
            text::cat("data_dir: ", text::quote(self.data_dir.as_str()).as_str()),
            text::cat("static_dir: ", text::quote(self.static_dir.as_str()).as_str()),
            text::cat("window: ", text::quote(self.window.as_str()).as_str()),
            text::cat("cwd: ", text::quote(self.cwd.as_str()).as_str()),
            text::cat("tokens: ", redact(self.tokens.len()).as_str()),
            text::cat("callback_tokens: ", redact(self.callback_tokens.len()).as_str()),
            text::cat("access_aud: ", quote_option(&self.access_aud).as_str()),
            text::cat("allowed_emails: ", quote_list(&self.allowed_emails).as_str()),
            text::cat("agent_command: ", quote_list(&self.agent_command).as_str()),
            text::cat("streaming_marker: ", text::quote(self.streaming_marker.as_str()).as_str()),
            text::cat("dismiss_marker: ", text::quote(self.dismiss_marker.as_str()).as_str()),
            text::cat("team_domain: ", text::quote(self.team_domain.as_str()).as_str()),
            text::cat("allowed_hosts: ", quote_list(&self.allowed_hosts).as_str()),
            text::cat("intern_url: ", text::quote(self.intern_url.as_str()).as_str()),
            text::cat(
                "intern_token: ",
                redact(
                    if self.intern_token.as_str().is_empty() {
                        0
                    } else {
                        1
                    },
                ).as_str(),
            ),
            text::cat("primary_timeout_secs: ", text::dec(self.primary_timeout_secs).as_str()),
            text::cat("extended_timeout_secs: ", text::dec(self.extended_timeout_secs).as_str()),
            text::cat("poll_interval_ms: ", text::dec(self.poll_interval_ms).as_str()),
            text::cat("intern_timeout_secs: ", text::dec(self.intern_timeout_secs).as_str()),
            text::cat("sweep_interval_secs: ", text::dec(self.sweep_interval_secs).as_str()),
            text::cat("submit_timeout_secs: ", text::dec(self.submit_timeout_secs).as_str()),
            text::cat("stale_after_secs: ", text::dec(self.stale_after_secs).as_str()),
        ];
        assert(text::views(fields@) =~= shown(self@));
        text::cat3("Config { ", text::join(&fields, ", ").as_str(), " }")
    }
}

/// What is printed in place of that many secrets.
pub open spec fn redacted(n: nat) -> Seq<char> {
    "<"@ + text::decimal(n) + " redacted>"@
}

fn redact(n: usize) -> (r: String)
    ensures
        r@ == redacted(n as nat),
{
    text::cat3("<", text::dec(n as u64).as_str(), " redacted>")
}

/// The entries of a list, each as `Debug` prints it.
pub open spec fn quoted_all(items: Seq<Seq<char>>) -> Seq<Seq<char>> {
    items.map_values(|s: Seq<char>| text::quoted(s))
}

/// A list, as `Debug` prints it.
pub open spec fn quoted_list(items: Seq<Seq<char>>) -> Seq<char> {
    "["@ + text::joined(quoted_all(items), ", "@) + "]"@
}

fn quote_list(items: &Vec<String>) -> (r: String)
    ensures
        r@ == quoted_list(text::views(items@)),
{
    let ghost all = text::views(items@);
    let mut parts: Vec<String> = Vec::new();
    let mut i: usize = 0;
    assert(text::views(parts@) =~= quoted_all(all.take(0)));
    while i < items.len()
        invariant
            i <= items@.len(),
            all == text::views(items@),
            text::views(parts@) == quoted_all(all.take(i as int)),
        decreases items@.len() - i,
    {
        let ghost before = parts@;
        parts.push(text::quote(items[i].as_str()));
        assert(text::views(parts@) =~= text::views(before).push(text::quoted(all[i as int])));
        assert(quoted_all(all.take(i + 1)) =~= quoted_all(all.take(i as int)).push(
            text::quoted(all[i as int]),
        ));
        i = i + 1;
    }
    assert(all.take(i as int) =~= all);
    text::cat3("[", text::join(&parts, ", ").as_str(), "]")
}

/// A text that may be absent, as `Debug` prints it.
pub open spec fn quoted_option(o: Option<Seq<char>>) -> Seq<char> {
    match o {
        Some(s) => "Some("@ + text::quoted(s) + ")"@,
        None => "None"@,
    }
}

fn quote_option(o: &Option<String>) -> (r: String)
    ensures
        r@ == quoted_option(text::opt_view(*o)),
{
    match o {
        Some(s) => text::cat3("Some(", text::quote(s.as_str()).as_str(), ")"),
        None => "None".to_owned(),
    }
}

/// What is shown of a configuration: each field under its name, the tokens as counts.
pub open spec fn shown(c: ConfigView) -> Seq<Seq<char>> {
    seq![
        "port: "@ + text::decimal(c.port as nat),
        "callback_port: "@ + text::decimal(c.callback_port as nat),
        "data_dir: "@ + text::quoted(c.data_dir),
        "static_dir: "@ + text::quoted(c.static_dir),
        "window: "@ + text::quoted(c.window),
        "cwd: "@ + text::quoted(c.cwd),
        "tokens: "@ + redacted(c.tokens.len()),
        "callback_tokens: "@ + redacted(c.callback_tokens.len()),
        "access_aud: "@ + quoted_option(c.access_aud),
        "allowed_emails: "@ + quoted_list(c.allowed_emails),
        "agent_command: "@ + quoted_list(c.agent_command),
        "streaming_marker: "@ + text::quoted(c.streaming_marker),
        "dismiss_marker: "@ + text::quoted(c.dismiss_marker),
        "team_domain: "@ + text::quoted(c.team_domain),
        "allowed_hosts: "@ + quoted_list(c.allowed_hosts),
        "intern_url: "@ + text::quoted(c.intern_url),
        "intern_token: "@ + redacted(
            if c.intern_token.len() == 0 {
                0
            } else {
                1
            },
        ),
        "primary_timeout_secs: "@ + text::decimal(c.primary_timeout_secs as nat),
        "extended_timeout_secs: "@ + text::decimal(c.extended_timeout_secs as nat),
        "poll_interval_ms: "@ + text::decimal(c.poll_interval_ms as nat),
        "intern_timeout_secs: "@ + text::decimal(c.intern_timeout_secs as nat),
        "sweep_interval_secs: "@ + text::decimal(c.sweep_interval_secs as nat),
        "submit_timeout_secs: "@ + text::decimal(c.submit_timeout_secs as nat),
        "stale_after_secs: "@ + text::decimal(c.stale_after_secs as nat),
    ]
}

/// The text of a configuration.
pub open spec fn debug_text(c: ConfigView) -> Seq<char> {
    "Config { "@ + text::joined(shown(c), ", "@) + " }"@
}

// ---------------------------------------------------------------------------
// Laws
// ---------------------------------------------------------------------------

/// With no file and no environment every setting has its default: no tokens, no
/// audience, no identity, loopback only.
pub proof fn law_defaults(file: FileConfig, home: Option<Seq<char>>)
    requires
        silent(file),
    ensures
        resolved(file, Seq::empty(), home) matches Ok(c) && {
            &&& c.port == 7490
            &&& c.callback_port == 7491
            &&& c.data_dir == paths::below(home_dir(home), ".local/share/indexd"@)
            &&& c.static_dir == "static"@
            &&& c.window == "index MASTER"@
            &&& c.cwd == home_dir(home)
            &&& c.tokens.len() == 0
            &&& c.callback_tokens.len() == 0
            &&& c.access_aud is None
            &&& c.allowed_emails.len() == 0
            &&& c.agent_command.len() == 0
            &&& c.streaming_marker == "esc to interrupt"@
            &&& c.dismiss_marker == "bypass permissions"@
            &&& c.team_domain.len() == 0
            &&& c.allowed_hosts == seq!["localhost"@, "127.0.0.1"@]
            &&& c.intern_url == "http://127.0.0.1:7472"@
            &&& c.intern_token.len() == 0
            &&& c.primary_timeout_secs == 90
            &&& c.extended_timeout_secs == 600
            &&& c.poll_interval_ms == 200
            &&& c.intern_timeout_secs == 15
            &&& c.sweep_interval_secs == 60
            &&& c.submit_timeout_secs == 60
            &&& c.stale_after_secs == 3600
        },
{
    let c = resolved_with(file, Seq::empty(), home, DEFAULT_PORT, DEFAULT_CALLBACK_PORT);
    reveal_strlit("");
    assert(""@ =~= Seq::<char>::empty());
    assert(text::trimmed(Seq::<char>::empty()).len() == 0);
    assert(text::lowered(Seq::<char>::empty()) =~= Seq::<char>::empty());
    reveal_strlit("https://");
    reveal_strlit("http://");
    assert(c.team_domain.len() == 0) by {
        let e = Seq::<char>::empty();
        assert(text::trimmed(""@) == e);
        assert(text::lowered(text::trimmed(""@)) == e);
        assert(text::without_start(e, "https://"@) == e);
        assert(text::without_start(e, "http://"@) == e);
    }
    assert(c.allowed_hosts == seq!["localhost"@, "127.0.0.1"@]) by {
        reveal_strlit("localhost");
        reveal_strlit("127.0.0.1");
        let hosts = seq!["localhost"@, "127.0.0.1"@];
        assert(text::trimmed("localhost"@) == "localhost"@);
        assert(text::trimmed("127.0.0.1"@) == "127.0.0.1"@);
        assert(text::lowered("localhost"@) =~= "localhost"@);
        assert(text::lowered("127.0.0.1"@) =~= "127.0.0.1"@);
        assert(hosts.drop_last() =~= seq!["localhost"@]);
        assert(hosts.drop_last().drop_last() =~= Seq::<Seq<char>>::empty());
        assert(cleaned(hosts.drop_last()) =~= hosts.drop_last());
        assert(cleaned(hosts) =~= hosts);
        assert(lowered_all(hosts) =~= hosts);
    }
    reveal_strlit("http://127.0.0.1:7472");
}

/// A missing file is no error, and means what a file means that says nothing; one
/// that cannot be read, or is malformed, always is one, and the error names the file,
/// so that no configuration comes of it whatever the environment holds.
pub proof fn law_only_a_missing_file_is_forgiven(
    path: Seq<char>,
    read: FileRead,
    env: Seq<(Seq<char>, Seq<char>)>,
    home: Option<Seq<char>>,
)
    ensures
        read is Missing ==> loaded(path, read, env, home) == loaded(
            path,
            FileRead::Parsed(silence()),
            env,
            home,
        ),
        read is Missing ==> loaded(path, read, Seq::empty(), home) is Ok,
        read is Unreadable || read is Malformed ==> (loaded(path, read, env, home) matches Err(
            e,
        ) && text::has(e.doing, path)),
{
    match read {
        FileRead::Missing => {
            law_defaults(silence(), home);
        },
        FileRead::Unreadable(e) => {
            let whole = "reading "@ + path;
            let at = "reading "@.len() as int;
            assert(whole.subrange(at, at + path.len()) =~= path);
            assert(text::occurs_at(whole, path, at));
        },
        FileRead::Malformed(e) => {
            let whole = path + " is not valid TOML"@;
            assert(whole.subrange(0, path.len() as int) =~= path);
            assert(text::occurs_at(whole, path, 0));
        },
        FileRead::Parsed(_) => {},
    }
}

/// A variable that is set wins over the file, one that is blank counts as unset,
/// and where the environment is silent the file decides.
pub proof fn law_environment_beats_file(
    env: Seq<(Seq<char>, Seq<char>)>,
    key: Seq<char>,
    from_file: Option<Seq<char>>,
)
    ensures
        match variable(env, key, 0) {
            Some(v) => if text::trimmed(v).len() > 0 {
                picked(env, key, from_file) == Some(text::trimmed(v))
            } else {
                picked(env, key, from_file) == from_file
            },
            None => picked(env, key, from_file) == from_file,
        },
{
}

/// No environment gives or takes a token: the two lists and `internd`'s token are
/// the file's alone.
pub proof fn law_secrets_come_from_the_file_alone(
    file: FileConfig,
    env: Seq<(Seq<char>, Seq<char>)>,
    other: Seq<(Seq<char>, Seq<char>)>,
    home: Option<Seq<char>>,
)
    requires
        resolved(file, env, home) is Ok,
        resolved(file, other, home) is Ok,
    ensures
        resolved(file, env, home)->Ok_0.tokens == resolved(file, other, home)->Ok_0.tokens,
        resolved(file, env, home)->Ok_0.callback_tokens == resolved(
            file,
            other,
            home,
        )->Ok_0.callback_tokens,
        resolved(file, env, home)->Ok_0.intern_token == resolved(
            file,
            other,
            home,
        )->Ok_0.intern_token,
{
}

/// The callback listener never has the port that the tunnel fronts.
pub proof fn law_the_ports_differ(
    file: FileConfig,
    env: Seq<(Seq<char>, Seq<char>)>,
    home: Option<Seq<char>>,
)
    ensures
        resolved(file, env, home) matches Ok(c) ==> c.port != c.callback_port,
{
}

/// The text of a configuration tells how many tokens there are and nothing of what
/// they are.
pub proof fn law_debug_hides_the_tokens(c: ConfigView, d: ConfigView)
    requires
        d.tokens.len() == c.tokens.len(),
        d.callback_tokens.len() == c.callback_tokens.len(),
        (d.intern_token.len() == 0) == (c.intern_token.len() == 0),
        d == (ConfigView {
            tokens: d.tokens,
            callback_tokens: d.callback_tokens,
            intern_token: d.intern_token,
            ..c
        }),
    ensures
        debug_text(c) == debug_text(d),
{
}

/// The text of a configuration shows every field: each stands in it under its name,
/// in full but for the tokens.
pub proof fn law_debug_shows_every_field(c: ConfigView)
    ensures
        shown(c).len() == 24,
        forall|i: int| 0 <= i < shown(c).len() ==> text::has(debug_text(c), #[trigger] shown(c)[i]),
{
    let all = text::joined(shown(c), ", "@);
    assert forall|i: int| 0 <= i < shown(c).len() implies text::has(
        debug_text(c),
        #[trigger] shown(c)[i],
    ) by {
        let k = text::lemma_joined_has(shown(c), ", "@, i);
        let p = shown(c)[i];
        let at = "Config { "@.len() + k;
        assert(debug_text(c).subrange(at, at + p.len()) =~= all.subrange(k, k + p.len()));
        assert(text::occurs_at(debug_text(c), p, at));
    }
}

/// A clean list has no entry that is blank or has space around it, and cleaning it
/// again changes nothing.
pub proof fn law_cleaned_lists_are_clean(items: Seq<Seq<char>>)
    ensures
        forall|i: int|
            0 <= i < cleaned(items).len() ==> (#[trigger] cleaned(items)[i]).len() > 0
                && text::trimmed(cleaned(items)[i]) == cleaned(items)[i],
        cleaned(cleaned(items)) == cleaned(items),
    decreases items.len(),
{
    if items.len() > 0 {
        law_cleaned_lists_are_clean(items.drop_last());
        text::lemma_trimmed_idempotent(items.last());
        let rest = cleaned(items.drop_last());
        let t = text::trimmed(items.last());
        if t.len() > 0 {
            let all = rest.push(t);
            assert(all == cleaned(items));
            assert forall|i: int| 0 <= i < all.len() implies (#[trigger] all[i]).len() > 0
                && text::trimmed(all[i]) == all[i] by {
                if i < rest.len() {
                    assert(all[i] == rest[i]);
                }
            }
            assert(all.drop_last() =~= rest);
        }
    }
}

/// Whether a text has no scheme and no slash at its end.
pub open spec fn is_host(host: Seq<char>) -> bool {
    &&& host.len() > 0
    &&& !text::white(host[0])
    &&& !text::white(host.last())
    &&& host.last() != '/'
    &&& !text::occurs_at(host, "https://"@, 0)
    &&& !text::occurs_at(host, "http://"@, 0)
    &&& text::lowered(host) == host
}

/// A host in lower case is kept, and written with a scheme, a trailing slash,
/// capitals or all of them it means the same.
pub proof fn law_all_spellings_of_a_team_domain(host: Seq<char>, written: Seq<char>)
    requires
        is_host(host),
        ({
            let t = text::lowered(text::trimmed(written));
            ||| t == host
            ||| t == "https://"@ + host
            ||| t == "https://"@ + host + "/"@
            ||| t == "http://"@ + host
            ||| t == "http://"@ + host + "/"@
        }),
    ensures
        team_host(written) == host,
{
    reveal_strlit("https://");
    reveal_strlit("http://");
    reveal_strlit("/");
    let https = "https://"@;
    let http = "http://"@;
    let slash = "/"@;
    let slashed = host + slash;
    text::lemma_scheme_then_slash(host, https);
    text::lemma_scheme_then_slash(host, http);
    assert(slashed.drop_last() =~= host);
    assert(text::without_end(slashed, '/') == host) by {
        assert(text::without_end(slashed.drop_last(), '/') == host);
    }
    text::lemma_without_start_once(https, host);
    text::lemma_without_start_once(https, slashed);
    text::lemma_without_start_once(http, host);
    text::lemma_without_start_once(http, slashed);
    assert(https + host + slash =~= https + slashed);
    assert(http + host + slash =~= http + slashed);
    assert(!text::occurs_at(http + slashed, https, 0)) by {
        assert((http + slashed).subrange(0, 8)[4] == ':');
        assert(https[4] == 's');
    }
    assert(!text::occurs_at(http + host, https, 0)) by {
        assert((http + host).subrange(0, 8)[4] == ':');
        assert(https[4] == 's');
    }
}

proof fn lemma_variable_is(env: Seq<(Seq<char>, Seq<char>)>, k: int, i: int)
    requires
        0 <= k <= i < env.len(),
        forall|j: int| k <= j < i ==> (#[trigger] env[j]).0 != env[i].0,
    ensures
        variable(env, env[i].0, k) == Some(env[i].1),
    decreases i - k,
{
    if k < i {
        assert(env[k].0 != env[i].0);
        lemma_variable_is(env, k + 1, i);
    }
}

proof fn lemma_blank_variable(env: Seq<(Seq<char>, Seq<char>)>, key: Seq<char>, k: int)
    requires
        0 <= k <= env.len(),
        forall|j: int|
            0 <= j < env.len() && (#[trigger] env[j]).0 == key ==> text::trimmed(env[j].1).len()
                == 0 && text::words_of(env[j].1).len() == 0,
    ensures
        variable(env, key, k) matches Some(v) ==> text::trimmed(v).len() == 0 && text::words_of(
            v,
        ).len() == 0,
    decreases env.len() - k,
{
    if k < env.len() && env[k].0 != key {
        lemma_blank_variable(env, key, k + 1);
    }
}

proof fn lemma_blank(v: Seq<char>)
    requires
        forall|i: int| 0 <= i < v.len() ==> text::white(#[trigger] v[i]),
    ensures
        text::trimmed(v).len() == 0,
        text::words_of(v).len() == 0,
{
    let e = Seq::<char>::empty();
    text::law_words(v, seq!['x'], e);
    text::law_trimmed_is_what_stands_between(v, e, e);
    assert(v + e + e =~= v);
}

proof fn lemma_without_end(s: Seq<char>, c: char)
    ensures
        ({
            let t = text::without_end(s, c);
            &&& t.len() <= s.len()
            &&& t == s.take(t.len() as int)
            &&& t.len() > 0 ==> t.last() != c
            &&& forall|i: int| t.len() <= i < s.len() ==> #[trigger] s[i] == c
        }),
    decreases s.len(),
{
    if s.len() > 0 && s.last() == c {
        lemma_without_end(s.drop_last(), c);
        let t = text::without_end(s, c);
        assert(t =~= s.take(t.len() as int));
        assert forall|i: int| t.len() <= i < s.len() implies #[trigger] s[i] == c by {
            if i < s.len() - 1 {
                assert(s.drop_last()[i] == s[i]);
            }
        }
    } else {
        assert(s =~= s.take(s.len() as int));
    }
}

/// A variable that is set to more than white space decides its setting, whatever the
/// file says: the setting is the value without the white space round it. The URL of
/// `internd` loses the slashes at its end, a team domain its scheme and the slash at
/// its end; a list is parted at its commas, and the agent's command into its words; a
/// port is the number that is written.
pub proof fn law_each_variable_decides_its_setting(
    file: FileConfig,
    env: Seq<(Seq<char>, Seq<char>)>,
    home: Option<Seq<char>>,
    i: int,
    a: Seq<char>,
    m: Seq<char>,
    b: Seq<char>,
)
    requires
        resolved(file, env, home) is Ok,
        0 <= i < env.len(),
        forall|j: int| 0 <= j < i ==> (#[trigger] env[j]).0 != env[i].0,
        env[i].1 == a + m + b,
        forall|k: int| 0 <= k < a.len() ==> text::white(#[trigger] a[k]),
        forall|k: int| 0 <= k < b.len() ==> text::white(#[trigger] b[k]),
        m.len() > 0 && !text::white(m[0]) && !text::white(m.last()),
    ensures
        ({
            let c = resolved(file, env, home)->Ok_0;
            let key = env[i].0;
            &&& key == "INDEXD_DATA_DIR"@ ==> c.data_dir == m
            &&& key == "INDEXD_STATIC"@ ==> c.static_dir == m
            &&& key == "INDEXD_WINDOW"@ ==> c.window == m
            &&& key == "INDEXD_CWD"@ ==> c.cwd == m
            &&& key == "INDEXD_STREAMING_MARKER"@ ==> c.streaming_marker == m
            &&& key == "INDEXD_DISMISS_MARKER"@ ==> c.dismiss_marker == m
            &&& key == "INDEXD_ACCESS_AUD"@ ==> c.access_aud == Some(m)
            &&& key == "INDEXD_INTERN_URL"@ ==> {
                &&& c.intern_url.len() <= m.len()
                &&& c.intern_url == m.take(c.intern_url.len() as int)
                &&& c.intern_url.len() > 0 ==> c.intern_url.last() != '/'
                &&& forall|k: int| c.intern_url.len() <= k < m.len() ==> #[trigger] m[k] == '/'
            }
            &&& key == "INDEXD_TEAM_DOMAIN"@ ==> c.team_domain == team_host(m) && forall|
                host: Seq<char>,
            | #[trigger]
                is_host(host) && ({
                    let t = text::lowered(m);
                    ||| t == host
                    ||| t == "https://"@ + host
                    ||| t == "https://"@ + host + "/"@
                    ||| t == "http://"@ + host
                    ||| t == "http://"@ + host + "/"@
                }) ==> c.team_domain == host
            &&& key == "INDEXD_ALLOWED_EMAILS"@ ==> c.allowed_emails == lowered_all(
                cleaned(text::pieces(m, ',')),
            )
            &&& key == "INDEXD_ALLOWED_HOSTS"@ ==> c.allowed_hosts == lowered_all(
                cleaned(text::pieces(m, ',')),
            )
            &&& key == "INDEXD_AGENT_COMMAND"@ ==> c.agent_command == text::words_of(a + m + b)
                && c.agent_command.len() > 0
            &&& key == "INDEXD_PORT"@ ==> text::u16_value(m) == Some(c.port)
            &&& key == "INDEXD_CALLBACK_PORT"@ ==> text::u16_value(m) == Some(c.callback_port)
        }),
{
    let c = resolved(file, env, home)->Ok_0;
    let key = env[i].0;
    lemma_variable_is(env, 0, i);
    text::law_trimmed_is_what_stands_between(a, m, b);
    assert(env_value(env, key) == Some(m));
    lemma_without_end(m, '/');
    law_cleaned_lists_are_clean(text::pieces(m, ','));
    let e = Seq::<char>::empty();
    text::law_trimmed_is_what_stands_between(e, m, e);
    assert(e + m + e =~= m);
    assert(text::words_of(a + m + b).len() > 0);
    if key == "INDEXD_TEAM_DOMAIN"@ {
        assert forall|host: Seq<char>| #[trigger] is_host(host) && ({
            let t = text::lowered(m);
            ||| t == host
            ||| t == "https://"@ + host
            ||| t == "https://"@ + host + "/"@
            ||| t == "http://"@ + host
            ||| t == "http://"@ + host + "/"@
        }) implies c.team_domain == host by {
            law_all_spellings_of_a_team_domain(host, m);
        }
    }
}

/// Where a variable is not set, or set to white space, its setting is what the file
/// says, and the default where the file says nothing.
pub proof fn law_the_file_decides_where_the_environment_is_silent(
    file: FileConfig,
    env: Seq<(Seq<char>, Seq<char>)>,
    home: Option<Seq<char>>,
    key: Seq<char>,
)
    requires
        resolved(file, env, home) is Ok,
        forall|j: int, k: int|
            #![trigger env[j].1[k]]
            0 <= j < env.len() && env[j].0 == key && 0 <= k < env[j].1.len() ==> text::white(
                env[j].1[k],
            ),
    ensures
        ({
            let c = resolved(file, env, home)->Ok_0;
            &&& key == "INDEXD_DATA_DIR"@ ==> c.data_dir == (match file.data_dir {
                Some(s) => s@,
                None => paths::below(home_dir(home), ".local/share/indexd"@),
            })
            &&& key == "INDEXD_STATIC"@ ==> c.static_dir == (match file.static_dir {
                Some(s) => s@,
                None => "static"@,
            })
            &&& key == "INDEXD_WINDOW"@ ==> c.window == (match file.window {
                Some(s) => s@,
                None => "index MASTER"@,
            })
            &&& key == "INDEXD_CWD"@ ==> c.cwd == (match file.cwd {
                Some(s) => s@,
                None => home_dir(home),
            })
            &&& key == "INDEXD_STREAMING_MARKER"@ ==> c.streaming_marker == (match file.streaming_marker {
                Some(s) => s@,
                None => "esc to interrupt"@,
            })
            &&& key == "INDEXD_DISMISS_MARKER"@ ==> c.dismiss_marker == (match file.dismiss_marker {
                Some(s) => s@,
                None => "bypass permissions"@,
            })
            &&& key == "INDEXD_ACCESS_AUD"@ ==> c.access_aud == (match file.auth.access_aud {
                Some(s) => Some(s@),
                None => None,
            })
            &&& key == "INDEXD_INTERN_URL"@ ==> (match file.intern.url {
                Some(s) => {
                    &&& c.intern_url.len() <= s@.len()
                    &&& c.intern_url == s@.take(c.intern_url.len() as int)
                    &&& c.intern_url.len() > 0 ==> c.intern_url.last() != '/'
                    &&& forall|k: int| c.intern_url.len() <= k < s@.len() ==> #[trigger] s@[k] == '/'
                },
                None => c.intern_url == "http://127.0.0.1:7472"@,
            })
            &&& key == "INDEXD_TEAM_DOMAIN"@ ==> (match file.auth.team_domain {
                Some(s) => c.team_domain == team_host(s@) && forall|host: Seq<char>| #[trigger]
                    is_host(host) && ({
                        let t = text::lowered(text::trimmed(s@));
                        ||| t == host
                        ||| t == "https://"@ + host
                        ||| t == "https://"@ + host + "/"@
                        ||| t == "http://"@ + host
                        ||| t == "http://"@ + host + "/"@
                    }) ==> c.team_domain == host,
                None => c.team_domain.len() == 0,
            })
            &&& key == "INDEXD_ALLOWED_EMAILS"@ ==> c.allowed_emails == (
            match file.auth.allowed_emails {
                Some(v) => lowered_all(cleaned(text::views(v@))),
                None => Seq::empty(),
            })
            &&& key == "INDEXD_ALLOWED_HOSTS"@ ==> c.allowed_hosts == (
            match file.auth.allowed_hosts {
                Some(v) => lowered_all(cleaned(text::views(v@))),
                None => seq!["localhost"@, "127.0.0.1"@],
            })
            &&& key == "INDEXD_AGENT_COMMAND"@ ==> c.agent_command == (match file.agent_command {
                Some(v) => text::views(v@),
                None => Seq::empty(),
            })
            &&& key == "INDEXD_PORT"@ ==> c.port == (match file.port {
                Some(p) => p,
                None => 7490,
            })
            &&& key == "INDEXD_CALLBACK_PORT"@ ==> c.callback_port == (match file.callback_port {
                Some(p) => p,
                None => 7491,
            })
        }),
{
    let c = resolved(file, env, home)->Ok_0;
    assert forall|j: int| 0 <= j < env.len() && (#[trigger] env[j]).0 == key implies text::trimmed(
        env[j].1,
    ).len() == 0 && text::words_of(env[j].1).len() == 0 by {
        let v = env[j].1;
        assert forall|k: int| 0 <= k < v.len() implies text::white(#[trigger] v[k]) by {
            assert(text::white(env[j].1[k]));
        }
        lemma_blank(v);
    }
    lemma_blank_variable(env, key, 0);
    assert(env_value(env, key) is None);
    law_defaults(silence(), home);
    let d = resolved(silence(), Seq::empty(), home)->Ok_0;
    match file.auth.allowed_emails {
        Some(v) => law_cleaned_lists_are_clean(text::views(v@)),
        None => {},
    }
    match file.auth.allowed_hosts {
        Some(v) => law_cleaned_lists_are_clean(text::views(v@)),
        None => {},
    }
    match file.intern.url {
        Some(s) => lemma_without_end(s@, '/'),
        None => {},
    }
    if key == "INDEXD_AGENT_COMMAND"@ {
        assert(variable(env, key, 0) matches Some(v) ==> text::words_of(v).len() == 0);
    }
    if key == "INDEXD_ALLOWED_EMAILS"@ {
        assert(lowered_all(cleaned(Seq::empty())) =~= Seq::<Seq<char>>::empty());
    }
    if key == "INDEXD_ALLOWED_HOSTS"@ && file.auth.allowed_hosts is None {
        assert(c.allowed_hosts == d.allowed_hosts);
    }
    if key == "INDEXD_TEAM_DOMAIN"@ {
        match file.auth.team_domain {
            Some(s) => {
                assert forall|host: Seq<char>| #[trigger] is_host(host) && ({
                    let t = text::lowered(text::trimmed(s@));
                    ||| t == host
                    ||| t == "https://"@ + host
                    ||| t == "https://"@ + host + "/"@
                    ||| t == "http://"@ + host
                    ||| t == "http://"@ + host + "/"@
                }) implies c.team_domain == host by {
                    law_all_spellings_of_a_team_domain(host, s@);
                }
            },
            None => {
                assert(c.team_domain == d.team_domain);
            },
        }
    }
    if key == "INDEXD_INTERN_URL"@ && file.intern.url is None {
        assert(c.intern_url == d.intern_url);
    }
}

/// The tokens, of the webhook, of the callbacks and for `internd`, and every time limit
/// are the file's: the tokens as written, without white space round them and without
/// blank ones, those under `auth` before those at the top level.
pub proof fn law_tokens_and_limits_are_the_files(
    file: FileConfig,
    env: Seq<(Seq<char>, Seq<char>)>,
    home: Option<Seq<char>>,
)
    requires
        resolved(file, env, home) is Ok,
    ensures
        ({
            let c = resolved(file, env, home)->Ok_0;
            &&& file.auth.tokens matches Some(v) ==> c.tokens == cleaned(text::views(v@))
            &&& file.auth.tokens is None ==> (file.tokens matches Some(v) ==> c.tokens == cleaned(
                text::views(v@),
            ))
            &&& file.auth.tokens is None && file.tokens is None ==> c.tokens.len() == 0
            &&& c.callback_tokens == (match file.auth.callback_tokens {
                Some(v) => cleaned(text::views(v@)),
                None => Seq::empty(),
            })
            &&& c.intern_token == (match file.intern.token {
                Some(s) => text::trimmed(s@),
                None => Seq::empty(),
            })

            &&& c.primary_timeout_secs == (match file.timeouts.primary_secs {
                Some(n) => n,
                None => 90,
            })
            &&& c.extended_timeout_secs == (match file.timeouts.extended_secs {
                Some(n) => n,
                None => 600,
            })
            &&& c.poll_interval_ms == (match file.timeouts.poll_interval_ms {
                Some(n) => n,
                None => 200,
            })
            &&& c.intern_timeout_secs == (match file.timeouts.intern_secs {
                Some(n) => n,
                None => 15,
            })
            &&& c.sweep_interval_secs == (match file.timeouts.sweep_interval_secs {
                Some(n) => n,
                None => 60,
            })
            &&& c.submit_timeout_secs == (match file.timeouts.submit_timeout_secs {
                Some(n) => n,
                None => 60,
            })
            &&& c.stale_after_secs == (match file.timeouts.stale_after_secs {
                Some(n) => n,
                None => 3600,
            })
        }),
{
    assert(cleaned(Seq::empty()) =~= Seq::<Seq<char>>::empty());
}

/// Cleaning a list takes its entries in their order: one that is blank is passed over,
/// and any other goes to the end without the white space round it. In lower case each
/// stays where it is.
pub proof fn law_cleaned_takes_entries_in_order(
    items: Seq<Seq<char>>,
    a: Seq<char>,
    m: Seq<char>,
    b: Seq<char>,
    i: int,
)
    requires
        forall|k: int| 0 <= k < a.len() ==> text::white(#[trigger] a[k]),
        forall|k: int| 0 <= k < b.len() ==> text::white(#[trigger] b[k]),
        m.len() > 0 ==> !text::white(m[0]) && !text::white(m.last()),
        0 <= i < items.len(),
    ensures
        cleaned(Seq::empty()) == Seq::<Seq<char>>::empty(),
        m.len() == 0 ==> cleaned(items.push(a + m + b)) == cleaned(items),
        m.len() > 0 ==> cleaned(items.push(a + m + b)) == cleaned(items).push(m),
        lowered_all(items).len() == items.len(),
        lowered_all(items)[i] == text::lowered(items[i]),
{
    text::law_trimmed_is_what_stands_between(a, m, b);
    assert(items.push(a + m + b).drop_last() =~= items);
}

/// A port in the environment that is no port number is an error that names the
/// variable and its value, and so are two ports that are the same, with the number.
pub proof fn law_a_port_that_is_none_is_an_error(
    file: FileConfig,
    env: Seq<(Seq<char>, Seq<char>)>,
    home: Option<Seq<char>>,
    i: int,
    a: Seq<char>,
    m: Seq<char>,
    b: Seq<char>,
)
    requires
        0 <= i < env.len(),
        forall|j: int| 0 <= j < i ==> (#[trigger] env[j]).0 != env[i].0,
        env[i].1 == a + m + b,
        forall|k: int| 0 <= k < a.len() ==> text::white(#[trigger] a[k]),
        forall|k: int| 0 <= k < b.len() ==> text::white(#[trigger] b[k]),
        m.len() > 0 && !text::white(m[0]) && !text::white(m.last()),
        text::u16_value(m) is None,
    ensures
        env[i].0 == "INDEXD_PORT"@ ==> (resolved(file, env, home) matches Err(e) && e.doing
            == "INDEXD_PORT="@ + m + " is not a port number"@),
        env[i].0 == "INDEXD_CALLBACK_PORT"@ ==> resolved(file, env, home) is Err,
{
    lemma_variable_is(env, 0, i);
    text::law_trimmed_is_what_stands_between(a, m, b);
    reveal_strlit("INDEXD_PORT=");
    reveal_strlit("INDEXD_PORT");
    reveal_strlit("=");
    assert("INDEXD_PORT"@ + "="@ =~= "INDEXD_PORT="@);
}

/// With no port in the environment there is a configuration exactly where the two ports
/// of the file, or the defaults for them, differ; otherwise the error names the port.
pub proof fn law_two_ports_are_needed(file: FileConfig, home: Option<Seq<char>>)
    ensures
        ({
            let port: u16 = match file.port {
                Some(p) => p,
                None => 7490,
            };
            let callback: u16 = match file.callback_port {
                Some(p) => p,
                None => 7491,
            };
            let r = resolved(file, Seq::empty(), home);
            &&& r is Ok == (port != callback)
            &&& r matches Err(e) ==> e.cause is None && e.doing
                == "callback_port must differ from port: both are "@ + text::decimal(port as nat)
        }),
{
}

/// A file that was read is what is resolved; one that could not be read, or is no
/// configuration, is reported with its path and the reason.
pub proof fn law_a_file_is_taken_as_read(
    path: Seq<char>,
    file: FileConfig,
    reason: String,
    env: Seq<(Seq<char>, Seq<char>)>,
    home: Option<Seq<char>>,
)
    ensures
        loaded(path, FileRead::Parsed(file), env, home) == resolved(file, env, home),
        loaded(path, FileRead::Unreadable(reason), env, home) == Err::<ConfigView, FaultView>(
            FaultView { doing: "reading "@ + path, cause: Some(reason@) },
        ),
        loaded(path, FileRead::Malformed(reason), env, home) == Err::<ConfigView, FaultView>(
            FaultView { doing: path + " is not valid TOML"@, cause: Some(reason@) },
        ),
        silent(silence()),
{
}

/// The home directory is the one that is named, or else `/tmp`.
pub proof fn law_home(h: Seq<char>)
    ensures
        home_dir(Some(h)) == h,
        home_dir(None) == "/tmp"@,
{
}

/// Each field stands in the text of a configuration under its name: a number as its
/// digits, a text quoted, a list in brackets with commas, and of the tokens how many
/// there are.
pub proof fn law_debug_shows_each_field_under_its_name(c: ConfigView)
    ensures
        ({
            let t = debug_text(c);
            &&& t == "Config { "@ + text::joined(shown(c), ", "@) + " }"@
            &&& text::has(t, "port: "@ + text::decimal(c.port as nat))
            &&& text::has(t, "callback_port: "@ + text::decimal(c.callback_port as nat))
            &&& text::has(t, "data_dir: "@ + text::quoted(c.data_dir))
            &&& text::has(t, "static_dir: "@ + text::quoted(c.static_dir))
            &&& text::has(t, "window: "@ + text::quoted(c.window))
            &&& text::has(t, "cwd: "@ + text::quoted(c.cwd))
            &&& text::has(t, "tokens: "@ + ("<"@ + text::decimal(c.tokens.len()) + " redacted>"@))
            &&& text::has(t, "callback_tokens: "@ + ("<"@ + text::decimal(c.callback_tokens.len()) + " redacted>"@))
            &&& text::has(t, "allowed_emails: "@ + ("["@ + text::joined(quoted_all(c.allowed_emails), ", "@) + "]"@))
            &&& text::has(t, "agent_command: "@ + ("["@ + text::joined(quoted_all(c.agent_command), ", "@) + "]"@))
            &&& text::has(t, "streaming_marker: "@ + text::quoted(c.streaming_marker))
            &&& text::has(t, "dismiss_marker: "@ + text::quoted(c.dismiss_marker))
            &&& text::has(t, "team_domain: "@ + text::quoted(c.team_domain))
            &&& text::has(t, "allowed_hosts: "@ + ("["@ + text::joined(quoted_all(c.allowed_hosts), ", "@) + "]"@))
            &&& text::has(t, "intern_url: "@ + text::quoted(c.intern_url))
            &&& text::has(t, "primary_timeout_secs: "@ + text::decimal(c.primary_timeout_secs as nat))
            &&& text::has(t, "extended_timeout_secs: "@ + text::decimal(c.extended_timeout_secs as nat))
            &&& text::has(t, "poll_interval_ms: "@ + text::decimal(c.poll_interval_ms as nat))
            &&& text::has(t, "intern_timeout_secs: "@ + text::decimal(c.intern_timeout_secs as nat))
            &&& text::has(t, "sweep_interval_secs: "@ + text::decimal(c.sweep_interval_secs as nat))
            &&& text::has(t, "submit_timeout_secs: "@ + text::decimal(c.submit_timeout_secs as nat))
            &&& text::has(t, "stale_after_secs: "@ + text::decimal(c.stale_after_secs as nat))
            &&& c.access_aud is None ==> text::has(t, "access_aud: "@ + "None"@)
            &&& c.access_aud matches Some(s) ==> text::has(
                t,
                "access_aud: "@ + ("Some("@ + text::quoted(s) + ")"@),
            )
            &&& text::has(
                t,
                "intern_token: "@ + ("<"@ + text::decimal(
                    if c.intern_token.len() == 0 {
                        0
                    } else {
                        1
                    },
                ) + " redacted>"@),
            )
        }),
        forall|i: int, v: Seq<Seq<char>>|
            0 <= i < v.len() ==> #[trigger] quoted_all(v)[i] == text::quoted(v[i]),
        forall|v: Seq<Seq<char>>| (#[trigger] quoted_all(v)).len() == v.len(),
{
    law_debug_shows_every_field(c);
    assert(shown(c)[0] == "port: "@ + text::decimal(c.port as nat));
    assert(shown(c)[1] == "callback_port: "@ + text::decimal(c.callback_port as nat));
    assert(shown(c)[2] == "data_dir: "@ + text::quoted(c.data_dir));
    assert(shown(c)[3] == "static_dir: "@ + text::quoted(c.static_dir));
    assert(shown(c)[4] == "window: "@ + text::quoted(c.window));
    assert(shown(c)[5] == "cwd: "@ + text::quoted(c.cwd));
    assert(shown(c)[6] == "tokens: "@ + ("<"@ + text::decimal(c.tokens.len()) + " redacted>"@));
    assert(shown(c)[7] == "callback_tokens: "@ + ("<"@ + text::decimal(c.callback_tokens.len()) + " redacted>"@));
    assert(shown(c)[9] == "allowed_emails: "@ + ("["@ + text::joined(quoted_all(c.allowed_emails), ", "@) + "]"@));
    assert(shown(c)[10] == "agent_command: "@ + ("["@ + text::joined(quoted_all(c.agent_command), ", "@) + "]"@));
    assert(shown(c)[11] == "streaming_marker: "@ + text::quoted(c.streaming_marker));
    assert(shown(c)[12] == "dismiss_marker: "@ + text::quoted(c.dismiss_marker));
    assert(shown(c)[13] == "team_domain: "@ + text::quoted(c.team_domain));
    assert(shown(c)[14] == "allowed_hosts: "@ + ("["@ + text::joined(quoted_all(c.allowed_hosts), ", "@) + "]"@));
    assert(shown(c)[15] == "intern_url: "@ + text::quoted(c.intern_url));
    assert(shown(c)[17] == "primary_timeout_secs: "@ + text::decimal(c.primary_timeout_secs as nat));
    assert(shown(c)[18] == "extended_timeout_secs: "@ + text::decimal(c.extended_timeout_secs as nat));
    assert(shown(c)[19] == "poll_interval_ms: "@ + text::decimal(c.poll_interval_ms as nat));
    assert(shown(c)[20] == "intern_timeout_secs: "@ + text::decimal(c.intern_timeout_secs as nat));
    assert(shown(c)[21] == "sweep_interval_secs: "@ + text::decimal(c.sweep_interval_secs as nat));
    assert(shown(c)[22] == "submit_timeout_secs: "@ + text::decimal(c.submit_timeout_secs as nat));
    assert(shown(c)[23] == "stale_after_secs: "@ + text::decimal(c.stale_after_secs as nat));
    assert(shown(c)[8] == "access_aud: "@ + quoted_option(c.access_aud));
    assert(shown(c)[16] == "intern_token: "@ + redacted(
        if c.intern_token.len() == 0 {
            0
        } else {
            1
        },
    ));
}

/// The configuration as it is used: for each variable that is set to more than white
/// space, the setting of its name, whatever the file says.
pub proof fn law_a_configuration_follows_the_environment(
    file: FileConfig,
    env: Env,
    home: Option<&str>,
    c: Config,
    i: int,
    a: Seq<char>,
    m: Seq<char>,
    b: Seq<char>,
    url: Seq<char>,
    slashes: nat,
    n: nat,
)
    requires
        call_ensures(Config::from_file_config, (file, &env, home), Ok(c)),
        0 <= i < env@.len(),
        forall|j: int| 0 <= j < i ==> (#[trigger] env@[j]).0@ != env@[i].0@,
        env@[i].1@ == a + m + b,
        forall|k: int| 0 <= k < a.len() ==> text::white(#[trigger] a[k]),
        forall|k: int| 0 <= k < b.len() ==> text::white(#[trigger] b[k]),
        m.len() > 0 && !text::white(m[0]) && !text::white(m.last()),
    ensures
        ({
            let key = env@[i].0@;
            &&& key == "INDEXD_DATA_DIR"@ ==> c.data_dir@ == m
            &&& key == "INDEXD_STATIC"@ ==> c.static_dir@ == m
            &&& key == "INDEXD_WINDOW"@ ==> c.window@ == m
            &&& key == "INDEXD_CWD"@ ==> c.cwd@ == m
            &&& key == "INDEXD_STREAMING_MARKER"@ ==> c.streaming_marker@ == m
            &&& key == "INDEXD_DISMISS_MARKER"@ ==> c.dismiss_marker@ == m
            &&& key == "INDEXD_ACCESS_AUD"@ ==> (c.access_aud matches Some(aud) && aud@ == m)
            &&& key == "INDEXD_INTERN_URL"@ && url.len() > 0 && url.last() != '/' && m == url
                + Seq::new(slashes, |k: int| '/') ==> c.intern_url@ == url
            &&& key == "INDEXD_PORT"@ && m == text::decimal(n) && n <= 65535 ==> c.port == n
            &&& key == "INDEXD_CALLBACK_PORT"@ && m == text::decimal(n) && n <= 65535
                ==> c.callback_port == n
        }),
{
    let vars = env_view(env@);
    assert(vars[i] == (env@[i].0@, env@[i].1@));
    assert forall|j: int| 0 <= j < i implies (#[trigger] vars[j]).0 != vars[i].0 by {
        assert(env@[j].0@ != env@[i].0@);
    }
    law_each_variable_decides_its_setting(file, vars, text::opt_str(home), i, a, m, b);
    text::law_numbers_are_read_back(n);
    let shown = c.intern_url@;
    if env@[i].0@ == "INDEXD_INTERN_URL"@ && url.len() > 0 && url.last() != '/' && m == url
        + Seq::new(slashes, |k: int| '/') {
        let u = url.len() as int;
        if shown.len() < u {
            assert(m[u - 1] == '/');
        }
        if shown.len() > u {
            assert(m[shown.len() - 1] == '/');
        }
        assert(shown =~= url);
    }
}

/// What follows from a configuration: the database below the data directory, the issuer
/// and the keys of the team, the limits of the sweeper, and whether there are tokens.
pub proof fn law_what_follows_from_a_configuration(
    c: &Config,
    path: String,
    issuer: String,
    keys: String,
    sweep: SweepConfig,
    hook: bool,
    intern: bool,
)
    ensures
        call_ensures(Config::db_path, (c,), path) && c.data_dir@.len() > 0 && c.data_dir@.last()
            != '/' ==> path@ == c.data_dir@ + "/"@ + "indexd.db"@,
        call_ensures(Config::issuer, (c,), issuer) ==> issuer@ == "https://"@ + c.team_domain@,
        call_ensures(Config::jwks_url, (c,), keys) ==> keys@ == "https://"@ + c.team_domain@
            + "/cdn-cgi/access/certs"@,
        call_ensures(Config::sweep_config, (c,), sweep) ==> sweep.interval_secs
            == c.sweep_interval_secs && sweep.submit_timeout_secs == c.submit_timeout_secs
            && sweep.stale_after_secs == c.stale_after_secs,
        call_ensures(Config::tokens_configured, (c,), hook) ==> hook == (c.tokens@.len() > 0),
        call_ensures(Config::intern_configured, (c,), intern) ==> intern == (c.intern_token@.len()
            > 0),
{
    reveal_strlit("indexd.db");
    if c.data_dir@.len() > 0 && c.data_dir@.last() != '/' {
        paths::law_below(c.data_dir@, "indexd.db"@);
    }
}

/// Where the file is: where the variable says, or else below the home directory; and the
/// data below the home directory too.
pub proof fn law_where_the_file_is(
    env: Env,
    home: &str,
    i: int,
    a: Seq<char>,
    m: Seq<char>,
    b: Seq<char>,
    path: String,
    data: String,
)
    requires
        home@.len() > 0 && home@.last() != '/',
        call_ensures(default_config_path, (&env, Some(home)), path),
        call_ensures(default_data_dir, (Some(home),), data),
    ensures
        data@ == home@ + "/"@ + ".local/share/indexd"@,
        (forall|j: int| 0 <= j < env@.len() ==> (#[trigger] env@[j]).0@ != "INDEXD_CONFIG"@)
            ==> path@ == home@ + "/"@ + ".config/indexd/config.toml"@,
        0 <= i < env@.len() && env@[i].0@ == "INDEXD_CONFIG"@ && (forall|j: int|
            0 <= j < i ==> (#[trigger] env@[j]).0@ != "INDEXD_CONFIG"@) && env@[i].1@ == a + m + b
            && (forall|k: int| 0 <= k < a.len() ==> text::white(#[trigger] a[k])) && (forall|k: int|
            0 <= k < b.len() ==> text::white(#[trigger] b[k])) && m.len() > 0 && !text::white(m[0])
            && !text::white(m.last()) ==> path@ == m,
{
    reveal_strlit(".local/share/indexd");
    reveal_strlit(".config/indexd/config.toml");
    paths::law_below(home@, ".local/share/indexd"@);
    paths::law_below(home@, ".config/indexd/config.toml"@);
    let vars = env_view(env@);
    assert forall|j: int| 0 <= j < vars.len() implies (#[trigger] vars[j]).0 == env@[j].0@ by {}
    if forall|j: int| 0 <= j < env@.len() ==> (#[trigger] env@[j]).0@ != "INDEXD_CONFIG"@ {
        assert forall|j: int| 0 <= j < vars.len() && (#[trigger] vars[j]).0
            == "INDEXD_CONFIG"@ implies text::trimmed(vars[j].1).len() == 0 && text::words_of(
            vars[j].1,
        ).len() == 0 by {
            assert(env@[j].0@ != "INDEXD_CONFIG"@);
        }
        lemma_blank_variable(vars, "INDEXD_CONFIG"@, 0);
    }
    if 0 <= i < env@.len() && env@[i].0@ == "INDEXD_CONFIG"@ && (forall|j: int|
        0 <= j < i ==> (#[trigger] env@[j]).0@ != "INDEXD_CONFIG"@) && env@[i].1@ == a + m + b && (
    forall|k: int| 0 <= k < a.len() ==> text::white(#[trigger] a[k])) && (forall|k: int|
        0 <= k < b.len() ==> text::white(#[trigger] b[k])) && m.len() > 0 && !text::white(m[0])
        && !text::white(m.last()) {
        assert forall|j: int| 0 <= j < i implies (#[trigger] vars[j]).0 != vars[i].0 by {
            assert(env@[j].0@ != "INDEXD_CONFIG"@);
        }
        lemma_variable_is(vars, 0, i);
        text::law_trimmed_is_what_stands_between(a, m, b);
    }
}

/// Loading is resolving what the file says; a file that could not be read, or is no
/// configuration, is reported with its path and the reason.
pub proof fn law_loading_is_resolving(
    path: &str,
    file: FileConfig,
    reason: String,
    env: Env,
    home: Option<&str>,
    r: Result<Config, ConfigError>,
)
    ensures
        call_ensures(Config::load, (path, FileRead::Parsed(file), &env, home), r) ==> config_view(r)
            == resolved(file, env_view(env@), text::opt_str(home)),
        call_ensures(Config::from_file_config, (file, &env, home), r) ==> config_view(r) == resolved(
            file,
            env_view(env@),
            text::opt_str(home),
        ),
        call_ensures(Config::load, (path, FileRead::Unreadable(reason), &env, home), r) ==> (
        r matches Err(e) && e.doing@ == "reading "@ + path@ && (e.cause matches Some(c) && c@
            == reason@)),
        call_ensures(Config::load, (path, FileRead::Malformed(reason), &env, home), r) ==> (
        r matches Err(e) && e.doing@ == path@ + " is not valid TOML"@ && (e.cause matches Some(c)
            && c@ == reason@)),
{
}

/// The text of a configuration is the same whatever its tokens are, as long as there are
/// as many of them.
pub proof fn law_no_token_shows(c: &Config, d: &Config, shown_c: String, shown_d: String)
    requires
        call_ensures(Config::debug, (c,), shown_c),
        call_ensures(Config::debug, (d,), shown_d),
        d@ == (ConfigView {
            tokens: d@.tokens,
            callback_tokens: d@.callback_tokens,
            intern_token: d@.intern_token,
            ..c@
        }),
        d@.tokens.len() == c@.tokens.len(),
        d@.callback_tokens.len() == c@.callback_tokens.len(),
        (d@.intern_token.len() == 0) == (c@.intern_token.len() == 0),
    ensures
        shown_c@ == shown_d@,
        text::has(shown_c@, "window: "@ + text::quoted(c.window@)),
{
    law_debug_hides_the_tokens(c@, d@);
    law_debug_shows_each_field_under_its_name(c@);
}

/// A scheme before a team domain, however often it is written, and slashes behind it,
/// however many, make no difference, and neither do capitals.
pub proof fn law_schemes_and_slashes_make_no_difference(u: Seq<char>)
    requires
        u.len() > 0 && !text::white(u[0]) && !text::white(u.last()),
    ensures
        team_host("https://"@ + u) == team_host(u),
        !text::occurs_at(text::lowered(u), "https://"@, 0) ==> team_host("http://"@ + u)
            == team_host(u),
        !text::occurs_at(text::lowered(u) + "/"@, "https://"@, 0) && !text::occurs_at(
            text::lowered(u) + "/"@,
            "http://"@,
            0,
        ) && !text::occurs_at(text::lowered(u), "https://"@, 0) && !text::occurs_at(
            text::lowered(u),
            "http://"@,
            0,
        ) ==> team_host(u + "/"@) == team_host(u) && (text::lowered(u).last() != '/' ==> team_host(u)
            == text::lowered(u)),
        team_host(text::lowered(u)) == team_host(u),
{
    reveal_strlit("https://");
    reveal_strlit("http://");
    reveal_strlit("/");
    let https = "https://"@;
    let http = "http://"@;
    let slash = "/"@;
    let low = text::lowered(u);
    let none = Seq::<char>::empty();
    text::law_trimmed_is_what_stands_between(none, u, none);
    assert(none + u + none =~= u);
    text::law_trimmed_is_what_stands_between(none, https + u, none);
    assert(none + (https + u) + none =~= https + u);
    text::law_trimmed_is_what_stands_between(none, http + u, none);
    assert(none + (http + u) + none =~= http + u);
    text::law_trimmed_is_what_stands_between(none, u + slash, none);
    assert(none + (u + slash) + none =~= u + slash);
    assert(text::lowered(https + u) =~= https + low);
    assert(text::lowered(http + u) =~= http + low);
    assert(text::lowered(u + slash) =~= low + slash);
    text::law_without_start(https, low);
    text::law_without_start(http, low);
    text::law_without_start(https, http + low);
    text::law_without_start(https, low + slash);
    text::law_without_start(http, low + slash);
    assert(!text::occurs_at(http + low, https, 0)) by {
        if text::occurs_at(http + low, https, 0) {
            assert((http + low).subrange(0, 8)[4] == ':');
            assert(https[4] == 's');
        }
    }
    assert((low + slash).drop_last() =~= low);
    text::lemma_lowered_idempotent(u);
    text::lemma_lowered_trimmed(u);
    assert(text::trimmed(low) == low);
}

/// Without a file the environment and the defaults are the configuration.
pub proof fn law_without_a_file(
    path: &str,
    env: Env,
    home: Option<&str>,
    r: Result<Config, ConfigError>,
)
    requires
        call_ensures(Config::load, (path, FileRead::Missing, &env, home), r),
    ensures
        config_view(r) == resolved(silence(), env_view(env@), text::opt_str(home)),
        env@.len() == 0 ==> r is Ok,
{
    if env@.len() == 0 {
        assert(env_view(env@) =~= Seq::<(Seq<char>, Seq<char>)>::empty());
        law_defaults(silence(), text::opt_str(home));
    }
}

} // verus!
