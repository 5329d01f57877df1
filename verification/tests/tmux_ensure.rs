//! Creating the window, only when it is absent.

use indexd::tmux::ensure::{
    ensure_window, list_sessions_args, new_window_args, pick_session, session_of, wait_ready,
    window_exists, EnsureConfig, EnsureStep, ReadyStep,
};

#[test]
fn session_of_matches_the_window_name_exactly() {
    // `index` sits next to `index MASTER`.
    let listing = "0:study\n0:index\n0:index MASTER\nwork:index MASTER\n";
    assert_eq!(session_of(listing, "index MASTER"), Some("0".to_string()));
    assert_eq!(session_of(listing, "index"), Some("0".to_string()));
    assert_eq!(session_of(listing, "index MAST"), None);
    assert_eq!(session_of(listing, "MASTER"), None);
    assert_eq!(session_of("", "index MASTER"), None);
}

#[test]
fn pick_session_prefers_main_then_the_first_listed() {
    assert_eq!(pick_session("0\nwork\nmain\n"), Some("main".to_string()));
    assert_eq!(pick_session("0\nwork\n"), Some("0".to_string()));
    assert_eq!(pick_session("\n"), None);
    assert_eq!(pick_session(""), None);
}

/// The trailing colon is load-bearing for a session named `0`.
#[test]
fn new_window_args_carry_the_trailing_colon_and_the_configured_command() {
    let cfg = EnsureConfig {
        window: "index MASTER".to_string(),
        cwd: "/tmp/agent".to_string(),
        agent_command: vec!["my-agent".into(), "--no-prompt".into()],
    };
    let args = new_window_args("0", &cfg);
    let t = args.windows(2).find(|w| w[0] == "-t").expect("-t flag");
    assert_eq!(t[1], "0:", "-t must name the SESSION, not window index 0");
    let n = args.windows(2).find(|w| w[0] == "-n").expect("-n flag");
    assert_eq!(n[1], "index MASTER");
    let c = args.windows(2).find(|w| w[0] == "-c").expect("-c flag");
    assert_eq!(c[1], "/tmp/agent");
    assert!(args.contains(&"-d".to_string()), "must create detached");
    assert!(args.contains(&"my-agent".to_string()), "the configured command must be launched");
    assert!(
        args.contains(&"--no-prompt".to_string()),
        "extra args must reach the launched process verbatim"
    );
    // Nothing here kills or replaces an existing window.
    assert!(!args.iter().any(|a| a.contains("kill")));
}

#[test]
fn new_window_args_use_the_configured_window_name() {
    let cfg = EnsureConfig {
        window: "scratch".to_string(),
        cwd: "/tmp".to_string(),
        agent_command: vec!["my-agent".into(), "--no-prompt".into()],
    };
    let args = new_window_args("main", &cfg);
    assert_eq!(args.windows(2).find(|w| w[0] == "-t").unwrap()[1], "main:");
    assert_eq!(args.windows(2).find(|w| w[0] == "-n").unwrap()[1], "scratch");
}

#[test]
fn default_ensure_config_matches_the_spec() {
    let cfg = EnsureConfig::for_home(Some("/home/me"));
    assert_eq!(cfg.window, "index MASTER");
    assert!(!cfg.cwd.is_empty(), "a created window needs a cwd: {:?}", cfg.cwd);
    assert_eq!(cfg.cwd, "/home/me/m");
    assert_eq!(EnsureConfig::for_home(None).cwd, "m");
}

fn launching(command: Vec<String>) -> EnsureConfig {
    EnsureConfig {
        window: "index MASTER".to_string(),
        cwd: "/tmp".to_string(),
        agent_command: command,
    }
}

#[test]
fn an_existing_window_is_left_alone_whatever_else_is_said() {
    let cfg = launching(vec!["agent".into()]);
    let step = ensure_window(&cfg, Ok("work:index MASTER\n".into()), Some(Ok("main\n".into())));
    assert!(matches!(step, EnsureStep::LeaveAlone(s) if s == "work"));
}

#[test]
fn a_missing_window_is_created_in_the_session_that_is_picked() {
    let cfg = launching(vec!["agent".into()]);
    assert!(matches!(ensure_window(&cfg, Ok(String::new()), None), EnsureStep::ListSessions));
    match ensure_window(&cfg, Ok("0:index\n".into()), Some(Ok("0\nmain\n".into()))) {
        EnsureStep::Create(args) => assert_eq!(
            args,
            vec!["new-window", "-d", "-t", "main:", "-n", "index MASTER", "-c", "/tmp", "agent"]
        ),
        _ => panic!("expected a new window"),
    }
}

#[test]
fn every_way_of_failing_to_create_a_window_says_why() {
    let cfg = launching(vec![]);
    match ensure_window(&cfg, Err("no server".into()), None) {
        EnsureStep::Fail(e) => assert_eq!(e, "no server"),
        _ => panic!("expected a failure"),
    }
    match ensure_window(&cfg, Ok(String::new()), Some(Err("gone".into()))) {
        EnsureStep::Fail(e) => assert_eq!(e, "gone"),
        _ => panic!("expected a failure"),
    }
    match ensure_window(&cfg, Ok(String::new()), Some(Ok(" \n".into()))) {
        EnsureStep::Fail(e) => assert_eq!(
            e,
            "no tmux sessions exist — start one first (tmux new -d -s main)"
        ),
        _ => panic!("expected a failure"),
    }
    // The window's name is quoted as a debugger would print it.
    let odd = EnsureConfig { window: "a\t\"b\"".to_string(), cwd: "/tmp".into(), agent_command: vec![] };
    match ensure_window(&odd, Ok(String::new()), Some(Ok("main\n".into()))) {
        EnsureStep::Fail(e) => {
            assert!(e.starts_with("no window named \"a\\t\\\"b\\\"\" exists"), "{e}");
            assert!(e.ends_with("or set agent_command / INDEXD_AGENT_COMMAND."), "{e}");
        }
        _ => panic!("expected a failure"),
    }
}

#[test]
fn the_answer_of_a_listing_is_passed_on() {
    assert_eq!(window_exists(Ok("0:w\n".into()), "w").unwrap(), Some("0".to_string()));
    assert_eq!(window_exists(Ok("0:w\n".into()), "x").unwrap(), None);
    assert_eq!(window_exists(Err("e".into()), "w").unwrap_err(), "e");
    assert_eq!(list_sessions_args(), vec!["list-sessions", "-F", "#{session_name}"]);
}

#[test]
fn a_new_window_is_waited_for_until_it_is_ready_or_late() {
    assert_eq!(wait_ready(0, None), ReadyStep::Look);
    assert_eq!(wait_ready(19_999, None), ReadyStep::Look);
    assert_eq!(wait_ready(20_000, None), ReadyStep::GiveUp);
    assert_eq!(wait_ready(0, Some(None)), ReadyStep::Sleep(250));
    assert_eq!(wait_ready(0, Some(Some("$ ".into()))), ReadyStep::Sleep(250));
    assert_eq!(wait_ready(0, Some(Some("Welcome to \u{1b}[1mthe agent".into()))), ReadyStep::Ready);
    for ready in ["2. bypass permissions", "(esc to interrupt)", "❯ "] {
        assert_eq!(wait_ready(0, Some(Some(ready.into()))), ReadyStep::Ready);
    }
}
