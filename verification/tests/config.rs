//! Precedence, defaults and the shape of the configuration.

use indexd::config::{
    clean_list, default_config_path, default_cwd, default_data_dir, env_list, env_str,
    lowercase_list, normalize_team_domain, AuthSection, Config, ConfigError, FileConfig,
    FileRead, InternSection, TimeoutSection, DEFAULT_PORT, DEFAULT_WINDOW,
};

const HOME: &str = "/home/someone";

fn text(t: &toml::Table, key: &str) -> Option<String> {
    t.get(key).map(|v| v.as_str().unwrap().to_string())
}

fn texts(t: &toml::Table, key: &str) -> Option<Vec<String>> {
    t.get(key).map(|v| {
        v.as_array().unwrap().iter().map(|s| s.as_str().unwrap().to_string()).collect()
    })
}

fn number(t: &toml::Table, key: &str) -> Option<u64> {
    t.get(key).map(|v| v.as_integer().unwrap() as u64)
}

fn section(t: &toml::Table, key: &str) -> toml::Table {
    t.get(key).map(|v| v.as_table().unwrap().clone()).unwrap_or_default()
}

/// The file's shape out of a TOML document.
fn file(doc: &str) -> FileConfig {
    let t: toml::Table = toml::from_str(doc).unwrap();
    let auth = section(&t, "auth");
    let intern = section(&t, "intern");
    let times = section(&t, "timeouts");
    FileConfig {
        port: number(&t, "port").map(|p| p as u16),
        callback_port: number(&t, "callback_port").map(|p| p as u16),
        data_dir: text(&t, "data_dir"),
        static_dir: text(&t, "static_dir"),
        window: text(&t, "window"),
        cwd: text(&t, "cwd"),
        tokens: texts(&t, "tokens"),
        agent_command: texts(&t, "agent_command"),
        streaming_marker: text(&t, "streaming_marker"),
        dismiss_marker: text(&t, "dismiss_marker"),
        auth: AuthSection {
            tokens: texts(&auth, "tokens"),
            callback_tokens: texts(&auth, "callback_tokens"),
            access_aud: text(&auth, "access_aud"),
            allowed_emails: texts(&auth, "allowed_emails"),
            team_domain: text(&auth, "team_domain"),
            allowed_hosts: texts(&auth, "allowed_hosts"),
        },
        intern: InternSection { url: text(&intern, "url"), token: text(&intern, "token") },
        timeouts: TimeoutSection {
            primary_secs: number(&times, "primary_secs"),
            extended_secs: number(&times, "extended_secs"),
            poll_interval_ms: number(&times, "poll_interval_ms"),
            intern_secs: number(&times, "intern_secs"),
            sweep_interval_secs: number(&times, "sweep_interval_secs"),
            submit_timeout_secs: number(&times, "submit_timeout_secs"),
            stale_after_secs: number(&times, "stale_after_secs"),
        },
    }
}

fn env(vars: &[(&str, &str)]) -> Vec<(String, String)> {
    vars.iter().map(|(k, v)| (k.to_string(), v.to_string())).collect()
}

fn load(doc: &str, vars: &[(&str, &str)]) -> Result<Config, ConfigError> {
    Config::from_file_config(file(doc), &env(vars), Some(HOME))
}

fn from_toml_str(doc: &str) -> Result<Config, ConfigError> {
    load(doc, &[])
}

fn strings(list: &[&str]) -> Vec<String> {
    list.iter().map(|s| s.to_string()).collect()
}

#[test]
fn defaults_apply_with_no_file_and_no_environment() {
    // A missing file is the empty document.
    let c = load("", &[]).expect("a missing config file is normal, not an error");

    assert_eq!(c.port, 7490);
    assert_eq!(c.data_dir, format!("{HOME}/.local/share/indexd"));
    assert_eq!(c.static_dir, "static");
    assert_eq!(c.window, "index MASTER");
    assert_eq!(c.cwd, HOME, "no default beyond $HOME — anything else guesses at someone's layout");
    assert!(c.tokens.is_empty(), "no tokens is loadable, just closed");
    assert!(!c.tokens_configured());
    assert_eq!(c.access_aud, None, "a missing AUD must stay visible so auth fails closed");
    assert!(c.allowed_emails.is_empty(), "no default identity; the console fails closed until configured");
    assert_eq!(c.team_domain, "", "deployment-specific; no default");
    assert_eq!(c.allowed_hosts, vec!["localhost", "127.0.0.1"], "loopback only until a public host is named");
    assert_eq!(c.primary_timeout_secs, 90);
    assert_eq!(c.extended_timeout_secs, 600);
    assert_eq!(c.poll_interval_ms, 200);
}

#[test]
fn an_empty_document_is_all_defaults() {
    let c = from_toml_str("").unwrap();
    assert_eq!(c.port, DEFAULT_PORT);
    assert_eq!(c.window, DEFAULT_WINDOW);
    assert!(c.allowed_emails.is_empty(), "no default identity; the console fails closed until configured");
    assert!(c.tokens.is_empty());
}

#[test]
fn a_partial_file_changes_only_what_it_names() {
    let c = from_toml_str("port = 9001\nwindow = \"other MASTER\"\n").unwrap();
    assert_eq!(c.port, 9001);
    assert_eq!(c.window, "other MASTER");
    // Everything unmentioned still holds its default.
    assert_eq!(c.static_dir, "static");
    assert_eq!(c.cwd, HOME, "no default beyond $HOME — anything else guesses at someone's layout");
    assert_eq!(c.allowed_hosts, vec!["localhost", "127.0.0.1"], "loopback only until a public host is named");
    assert_eq!(c.extended_timeout_secs, 600);
}

#[test]
fn a_full_file_is_read_section_by_section() {
    let c = from_toml_str(
        r#"
port = 7777
data_dir = "/var/lib/indexd"
static_dir = "/srv/indexd/static"
window = "index TEST"
cwd = "/srv/agent"

[auth]
tokens = ["Bearer primary", "Bearer spare"]
access_aud = "deadbeef"
allowed_emails = ["Someone@Example.COM ", " ", "other@example.com"]
team_domain = "https://example.cloudflareaccess.com/"
allowed_hosts = ["Console.Example.COM", "localhost"]

[timeouts]
primary_secs = 30
extended_secs = 120
poll_interval_ms = 50
"#,
    )
    .unwrap();

    assert_eq!(c.port, 7777);
    assert_eq!(c.data_dir, "/var/lib/indexd");
    assert_eq!(c.static_dir, "/srv/indexd/static");
    assert_eq!(c.window, "index TEST");
    assert_eq!(c.cwd, "/srv/agent");
    assert_eq!(c.tokens, vec!["Bearer primary", "Bearer spare"]);
    assert!(c.tokens_configured());
    assert_eq!(c.access_aud.as_deref(), Some("deadbeef"));
    // Lowercased, trimmed, blanks dropped — so a mixed-case entry still
    // matches the normalized email out of the Access assertion.
    assert_eq!(c.allowed_emails, vec!["someone@example.com", "other@example.com"]);
    // Scheme and trailing slash stripped: the file may say it any of the
    // three ways and `issuer` still builds one URL.
    assert_eq!(c.team_domain, "example.cloudflareaccess.com");
    assert_eq!(c.issuer(), "https://example.cloudflareaccess.com");
    assert_eq!(c.jwks_url(), "https://example.cloudflareaccess.com/cdn-cgi/access/certs");
    assert_eq!(c.allowed_hosts, vec!["console.example.com", "localhost"]);
    assert_eq!(c.primary_timeout_secs, 30);
    assert_eq!(c.extended_timeout_secs, 120);
    assert_eq!(c.poll_interval_ms, 50);
}

/// The token list is written under `[auth]`; a top-level `tokens` is
/// the obvious mistake and must not be silently ignored, because an
/// ignored list is an empty list and an empty list closes `/hook`.
#[test]
fn tokens_are_read_from_either_place_with_the_auth_section_winning() {
    let top = from_toml_str(r#"tokens = ["Bearer top"]"#).unwrap();
    assert_eq!(top.tokens, vec!["Bearer top"]);

    let both = from_toml_str(
        "tokens = [\"Bearer top\"]\n\n[auth]\ntokens = [\"Bearer explicit\"]\n",
    )
    .unwrap();
    assert_eq!(both.tokens, vec!["Bearer explicit"]);
}

/// A token compared against the raw `Authorization` header can never have
/// surrounding whitespace, and a blank entry would be a hole in it.
#[test]
fn token_entries_are_trimmed_and_blanks_dropped() {
    let c = from_toml_str(
        "[auth]\ntokens = [\"  Bearer padded  \", \"\", \"   \", \"Bearer two\"]\n",
    )
    .unwrap();
    assert_eq!(c.tokens, vec!["Bearer padded", "Bearer two"]);
}

#[test]
fn an_explicitly_empty_token_list_still_loads_but_reports_itself_unconfigured() {
    let c = from_toml_str("[auth]\ntokens = []\n").unwrap();
    assert!(c.tokens.is_empty());
    assert!(!c.tokens_configured(), "a warning is in order; it must not be a load failure");
}

#[test]
fn from_toml_str_ignores_the_environment() {
    let named = [("INDEXD_PORT", "8123"), ("INDEXD_WINDOW", "from env MASTER")];
    assert_eq!(load("port = 9001", &named).unwrap().port, 8123);
    let c = from_toml_str("port = 9001").unwrap();
    assert_eq!(c.port, 9001, "from_toml_str is the file's meaning alone");
    assert_eq!(c.window, DEFAULT_WINDOW);
}

#[test]
fn the_environment_beats_the_file() {
    let file = r#"
port = 9001
data_dir = "/from/file/data"
static_dir = "/from/file/static"
window = "file MASTER"
cwd = "/from/file/cwd"

[auth]
tokens = ["Bearer from-file"]
access_aud = "file-aud"
allowed_emails = ["file@example.com"]
team_domain = "file.cloudflareaccess.com"
allowed_hosts = ["file.example.com"]
"#;
    let env = [
        ("INDEXD_PORT", "8123"),
        ("INDEXD_DATA_DIR", "/from/env/data"),
        ("INDEXD_STATIC", "/from/env/static"),
        ("INDEXD_WINDOW", "env MASTER"),
        ("INDEXD_CWD", "/from/env/cwd"),
        ("INDEXD_ALLOWED_EMAILS", " Env@Example.com , second@example.com ,"),
        ("INDEXD_ACCESS_AUD", "env-aud"),
        ("INDEXD_TEAM_DOMAIN", "env.cloudflareaccess.com"),
        ("INDEXD_ALLOWED_HOSTS", "env.example.com,127.0.0.1"),
    ];
    let c = load(file, &env).unwrap();

    assert_eq!(c.port, 8123);
    assert_eq!(c.data_dir, "/from/env/data");
    assert_eq!(c.static_dir, "/from/env/static");
    assert_eq!(c.window, "env MASTER");
    assert_eq!(c.cwd, "/from/env/cwd");
    assert_eq!(c.access_aud.as_deref(), Some("env-aud"));
    assert_eq!(c.allowed_emails, vec!["env@example.com", "second@example.com"]);
    assert_eq!(c.team_domain, "env.cloudflareaccess.com");
    assert_eq!(c.allowed_hosts, vec!["env.example.com", "127.0.0.1"]);
    // There is no environment override for the tokens — secrets stay in
    // the file, out of `systemctl show` and the process environment.
    assert_eq!(c.tokens, vec!["Bearer from-file"]);
}

#[test]
fn the_file_still_supplies_what_the_environment_does_not() {
    let file = "port = 9001\nwindow = \"file MASTER\"\n";
    let c = load(file, &[("INDEXD_PORT", "8123")]).unwrap();
    assert_eq!(c.port, 8123, "env wins where it speaks");
    assert_eq!(c.window, "file MASTER", "and the file where it does not");
}

/// `Environment=INDEXD_ACCESS_AUD=` in a half-filled unit file must land
/// on "unset", not on "the AUD is the empty string".
#[test]
fn a_blank_environment_variable_reads_as_unset() {
    let c = load("", &[("INDEXD_ACCESS_AUD", "   "), ("INDEXD_WINDOW", "")]).unwrap();
    assert_eq!(c.access_aud, None);
    assert_eq!(c.window, DEFAULT_WINDOW);
}

#[test]
fn a_bad_port_in_the_environment_names_itself() {
    let e = load("", &[("INDEXD_PORT", "not-a-port")]).err().unwrap().message();
    assert!(e.contains("INDEXD_PORT"), "{e}");
}

/// `main` logging the startup posture must not put the bearer tokens in
/// the journal.
#[test]
fn debug_redacts_the_auth_tokens_but_shows_everything_else() {
    let c = from_toml_str(
        "[auth]\ntokens = [\"Bearer s3cr3t\", \"Bearer spare\"]\naccess_aud = \"deadbeef\"\n",
    )
    .unwrap();
    let printed = c.debug();
    assert!(!printed.contains("s3cr3t"), "{printed}");
    assert!(!printed.contains("spare"), "{printed}");
    assert!(printed.contains("<2 redacted>"), "{printed}");
    assert!(printed.contains("deadbeef"), "the AUD is not a secret: {printed}");
    assert!(printed.contains("index MASTER"), "{printed}");
}

#[test]
fn db_path_hangs_off_the_data_dir() {
    let c = from_toml_str("data_dir = \"/var/lib/indexd\"").unwrap();
    assert_eq!(c.db_path(), "/var/lib/indexd/indexd.db");
}

#[test]
fn the_default_db_path_is_under_the_users_share_directory_not_the_project() {
    let c = load("", &[]).unwrap();
    assert_eq!(c.db_path(), format!("{HOME}/.local/share/indexd/indexd.db"));
}

#[test]
fn the_team_domain_normalizes_however_it_was_written() {
    for written in [
        "yourteam.cloudflareaccess.com",
        "https://yourteam.cloudflareaccess.com",
        "https://yourteam.cloudflareaccess.com/",
        "  HTTP://YourTeam.CloudflareAccess.com/  ",
    ] {
        let c =
            from_toml_str(&format!("[auth]\nteam_domain = \"{written}\"\n")).unwrap();
        assert_eq!(c.team_domain, "yourteam.cloudflareaccess.com", "from {written:?}");
        assert_eq!(c.issuer(), "https://yourteam.cloudflareaccess.com");
    }
}

#[test]
fn the_callback_port_and_internd_are_configured_in_their_own_sections() {
    let c = from_toml_str(
        "callback_port = 9100\n[auth]\ncallback_tokens = [\" Bearer back \", \"\"]\n\
         [intern]\nurl = \"http://10.0.0.1:1/\"\ntoken = \"Bearer out\"\n\
         [timeouts]\nintern_secs = 1\nsweep_interval_secs = 2\nsubmit_timeout_secs = 3\n\
         stale_after_secs = 4\n",
    )
    .unwrap();
    assert_eq!(c.callback_port, 9100);
    assert_eq!(c.callback_tokens, vec!["Bearer back"]);
    assert_eq!(c.intern_url, "http://10.0.0.1:1");
    assert_eq!(c.intern_token, "Bearer out");
    assert!(c.intern_configured());
    assert_eq!(c.intern_timeout_secs, 1);
    let s = c.sweep_config();
    assert_eq!((s.interval_secs, s.submit_timeout_secs, s.stale_after_secs), (2, 3, 4));

    let d = from_toml_str("").unwrap();
    assert_eq!(d.callback_port, 7491);
    assert_eq!(d.intern_url, "http://127.0.0.1:7472");
    assert!(!d.intern_configured());
    assert!(d.callback_tokens.is_empty());
    let s = d.sweep_config();
    assert_eq!((s.interval_secs, s.submit_timeout_secs, s.stale_after_secs), (60, 60, 3600));
    assert_eq!(d.intern_timeout_secs, 15);
}

#[test]
fn the_two_listeners_cannot_share_a_port() {
    assert!(from_toml_str("port = 8000\ncallback_port = 8000\n").is_err());
    assert!(load("", &[("INDEXD_PORT", "7491")]).is_err());
    assert!(from_toml_str("port = 8000\ncallback_port = 8001\n").is_ok());
}

#[test]
fn an_agent_command_and_the_markers_come_from_the_file() {
    let c = from_toml_str(
        "agent_command = [\"agent\", \"--flag\"]\nstreaming_marker = \"busy\"\ndismiss_marker = \"\"\n",
    )
    .unwrap();
    assert_eq!(c.agent_command, vec!["agent", "--flag"]);
    assert_eq!(c.streaming_marker, "busy");
    assert_eq!(c.dismiss_marker, "");
}

#[test]
fn a_variable_is_trimmed_and_a_blank_one_is_unset() {
    let e = env(&[("A", "  x "), ("B", " "), ("L", " a ,, b ,")]);
    assert_eq!(env_str(&e, "A").as_deref(), Some("x"));
    assert_eq!(env_str(&e, "B"), None);
    assert_eq!(env_str(&e, "C"), None);
    assert_eq!(env_list(&e, "L"), Some(strings(&["a", "b"])));
    assert_eq!(env_list(&e, "B"), None);
}

#[test]
fn lists_are_cleaned_and_lowercased() {
    let raw = strings(&[" A ", "", "\t", "b"]);
    assert_eq!(clean_list(&raw), vec!["A", "b"]);
    assert_eq!(lowercase_list(&raw), vec!["a", "b"]);
    // Cleaning twice is cleaning once.
    assert_eq!(clean_list(&clean_list(&raw)), clean_list(&raw));
    assert_eq!(lowercase_list(&lowercase_list(&raw)), lowercase_list(&raw));
}

#[test]
fn defaults_hang_off_the_home_directory() {
    assert_eq!(default_data_dir(Some("/h")), "/h/.local/share/indexd");
    assert_eq!(default_cwd(Some("/h")), "/h");
    assert_eq!(default_config_path(&vec![], Some("/h")), "/h/.config/indexd/config.toml");
    assert_eq!(
        default_config_path(&env(&[("INDEXD_CONFIG", "/etc/indexd.toml")]), Some("/h")),
        "/etc/indexd.toml"
    );
    assert_eq!(normalize_team_domain(" HTTPS://A.b/ "), "a.b");
}

#[test]
fn the_startup_text_is_exact() {
    let c = from_toml_str("window = \"a \\\"b\\\" c\"\n[auth]\ntokens = [\"t\"]\n[intern]\ntoken = \"hush\"\n").unwrap();
    assert_eq!(
        c.debug(),
        "Config { port: 7490, callback_port: 7491, \
         data_dir: \"/home/someone/.local/share/indexd\", static_dir: \"static\", \
         window: \"a \\\"b\\\" c\", cwd: \"/home/someone\", tokens: <1 redacted>, \
         callback_tokens: <0 redacted>, access_aud: None, allowed_emails: [], \
         agent_command: [], streaming_marker: \"esc to interrupt\", \
         dismiss_marker: \"bypass permissions\", team_domain: \"\", \
         allowed_hosts: [\"localhost\", \"127.0.0.1\"], \
         intern_url: \"http://127.0.0.1:7472\", intern_token: <1 redacted>, \
         primary_timeout_secs: 90, extended_timeout_secs: 600, poll_interval_ms: 200, \
         intern_timeout_secs: 15, sweep_interval_secs: 60, submit_timeout_secs: 60, \
         stale_after_secs: 3600 }"
    );
}

#[test]
fn the_startup_text_shows_every_field_but_the_tokens() {
    let plain = from_toml_str("").unwrap().debug();
    for (doc, shown) in [
        ("streaming_marker = \"working\"", "streaming_marker: \"working\""),
        ("dismiss_marker = \"trust?\"", "dismiss_marker: \"trust?\""),
        ("[timeouts]\nintern_secs = 7", "intern_timeout_secs: 7,"),
        ("[timeouts]\nsweep_interval_secs = 8", "sweep_interval_secs: 8,"),
        ("[timeouts]\nsubmit_timeout_secs = 9", "submit_timeout_secs: 9,"),
        ("[timeouts]\nstale_after_secs = 10", "stale_after_secs: 10 }"),
    ] {
        let printed = from_toml_str(doc).unwrap().debug();
        assert!(printed.contains(shown), "{printed}");
        assert_ne!(printed, plain);
    }
    let one = from_toml_str("[auth]\ntokens = [\"a\"]").unwrap().debug();
    let other = from_toml_str("[auth]\ntokens = [\"b\"]").unwrap().debug();
    assert_eq!(one, other);
}

/// What reading a file gives: its text, if it could be had.
fn read_of(doc: Result<&str, &str>) -> FileRead {
    match doc {
        Err(e) => FileRead::Unreadable(e.to_string()),
        Ok(s) => match toml::from_str::<toml::Table>(s) {
            Err(e) => FileRead::Malformed(e.to_string()),
            Ok(t) => match t.get("port") {
                Some(v) if !v.is_integer() => FileRead::Malformed("port is no number".to_string()),
                _ => FileRead::Parsed(file(s)),
            },
        },
    }
}

#[test]
fn malformed_toml_is_an_error_that_names_the_file() {
    let path = "/etc/indexd/config.toml";
    let read = read_of(Ok("port = \"not a number\"\n"));
    assert!(matches!(read, FileRead::Malformed(_)));
    let e = Config::load(path, read, &env(&[]), Some(HOME)).err().unwrap();
    assert!(e.message().contains("config.toml"), "{e:?}");
    assert_eq!(e.message(), "/etc/indexd/config.toml is not valid TOML");
    assert_eq!(e.detail(), "/etc/indexd/config.toml is not valid TOML: port is no number");
    let e = Config::load(path, read_of(Ok("port = ")), &env(&[]), Some(HOME)).err().unwrap();
    assert_eq!(e.message(), "/etc/indexd/config.toml is not valid TOML");
    assert!(e.cause.is_some());
}

#[test]
fn an_unreadable_file_is_an_error_and_a_missing_one_is_not() {
    let path = "/etc/indexd/config.toml";
    let vars = env(&[("INDEXD_PORT", "8123")]);
    let e = Config::load(path, read_of(Err("permission denied")), &vars, Some(HOME)).err().unwrap();
    assert_eq!(e.message(), "reading /etc/indexd/config.toml");
    assert_eq!(e.detail(), "reading /etc/indexd/config.toml: permission denied");

    let c = Config::load(path, FileRead::Missing, &vars, Some(HOME)).unwrap();
    assert_eq!(c.port, 8123);
    assert_eq!(c.debug(), load("", &[("INDEXD_PORT", "8123")]).unwrap().debug());

    let c = Config::load(path, read_of(Ok("window = \"mine\"")), &env(&[]), Some(HOME)).unwrap();
    assert_eq!(c.window, "mine");
}

#[test]
fn no_variable_gives_or_takes_a_token() {
    let doc = "[auth]\ntokens = [\"a\"]\ncallback_tokens = [\"b\"]\n[intern]\ntoken = \" c \"\n";
    let vars = [
        ("INDEXD_TOKENS", "x"),
        ("INDEXD_CALLBACK_TOKENS", "y"),
        ("INDEXD_INTERN_TOKEN", "z"),
        ("INDEXD_CALLBACK_PORT", "9000"),
    ];
    let c = load(doc, &vars).unwrap();
    assert_eq!(c.tokens, vec!["a"]);
    assert_eq!(c.callback_tokens, vec!["b"]);
    assert_eq!(c.intern_token, "c");
    assert_eq!(c.callback_port, 9000);
}

#[test]
fn the_agent_command_is_words_in_the_environment() {
    let doc = "agent_command = [\"from file\"]\n";
    let c = load(doc, &[("INDEXD_AGENT_COMMAND", " agent  --now ")]).unwrap();
    assert_eq!(c.agent_command, vec!["agent", "--now"]);
    let c = load(doc, &[("INDEXD_AGENT_COMMAND", "  ")]).unwrap();
    assert_eq!(c.agent_command, vec!["from file"]);
}

#[test]
fn the_messages_of_a_refused_configuration_are_exact() {
    let e = load("", &[("INDEXD_PORT", "70000")]).err().unwrap();
    assert_eq!(e.message(), "INDEXD_PORT=70000 is not a port number");
    assert_eq!(e.cause.as_deref(), Some("number too large to fit in target type"));

    let e = load("", &[("INDEXD_CALLBACK_PORT", "-1")]).err().unwrap();
    assert_eq!(e.message(), "INDEXD_CALLBACK_PORT=-1 is not a port number");
    assert_eq!(
        e.detail(),
        "INDEXD_CALLBACK_PORT=-1 is not a port number: invalid digit found in string"
    );

    let e = load("callback_port = 7490", &[]).err().unwrap();
    assert_eq!(e.message(), "callback_port must differ from port: both are 7490");
    assert_eq!(e.detail(), e.message());
}
