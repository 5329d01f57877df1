//! Finding the window, the tmux command lines, and the scripted pane.

use indexd::tmux::pane::{
    capture_args, exit_mode_args, find_target, key_args, list_windows_args, literal_args,
    mode_answer, mode_args, pick_target, tmux_failed, tmux_not_run, FakePane, Pane, TmuxPane,
};

/// A window literally named `index` can sit next to `index MASTER`. A substring
/// match would drive the wrong session.
#[test]
fn pick_target_matches_the_window_name_exactly() {
    let listing = "0:study\n0:index\n0:sink MASTER\n0:index MASTER\n0:index MASTERX\n";
    assert_eq!(
        pick_target(listing, "index MASTER"),
        Some("0:index MASTER".to_string())
    );
    // ...and the bare `index` window still resolves to itself, not to MASTER.
    assert_eq!(pick_target(listing, "index"), Some("0:index".to_string()));
    assert_eq!(pick_target(listing, "nope"), None);
}

#[test]
fn pick_target_prefers_nothing_on_a_partial_name() {
    // Neither a prefix nor a suffix of a real window may match.
    let listing = "0:index MASTER\n";
    assert_eq!(pick_target(listing, "index"), None);
    assert_eq!(pick_target(listing, "MASTER"), None);
    assert_eq!(pick_target(listing, "index MAST"), None);
}

#[test]
fn window_names_containing_colons_still_resolve() {
    let listing = "main:a:b\n";
    assert_eq!(pick_target(listing, "a:b"), Some("main:a:b".to_string()));
}

/// `-J` is load-bearing; see `capture_args`.
#[test]
fn capture_args_join_wrapped_lines_and_widen_scrollback() {
    let args = capture_args("0:index MASTER");
    assert!(args.contains(&"-J".to_string()), "capture must pass -J: {args:?}");
    assert!(args.contains(&"-p".to_string()));
    let s = args.windows(2).find(|w| w[0] == "-S").expect("-S flag");
    assert_eq!(s[1], "-1000");
    let t = args.windows(2).find(|w| w[0] == "-t").expect("-t flag");
    assert_eq!(t[1], "0:index MASTER");
}

#[test]
fn fake_pane_replays_frames_then_repeats_the_last() {
    let mut p = FakePane::new(vec!["one".into(), "two".into()]);
    assert_eq!(p.capture().unwrap(), "one");
    assert_eq!(p.capture().unwrap(), "two");
    assert_eq!(p.capture().unwrap(), "two");
    assert_eq!(p.captures(), 3);
}

#[test]
fn fake_pane_records_every_write_in_order() {
    let mut p = FakePane::new(vec![]);
    p.send_key("Enter").unwrap();
    p.send_literal("hello").unwrap();
    p.send_key("Tab").unwrap();
    assert_eq!(p.writes(), vec!["key:Enter", "literal:hello", "key:Tab"]);
}

#[test]
fn fake_pane_tracks_mode_exit() {
    let mut p = FakePane::in_mode(vec![]);
    assert!(p.pane_in_mode().unwrap());
    p.exit_mode().unwrap();
    assert!(!p.pane_in_mode().unwrap());
    assert_eq!(p.exits(), 1);
}

#[test]
fn broken_fake_pane_errors_on_everything() {
    let mut p = FakePane::broken();
    assert!(p.capture().is_err());
    assert!(p.send_key("Enter").is_err());
    assert!(p.send_literal("x").is_err());
    assert!(p.pane_in_mode().is_err());
    assert!(p.exit_mode().is_err());
    assert_eq!(p.captures(), 0);
    assert!(p.writes().is_empty());
}

#[test]
fn a_frame_pushed_later_is_handed_out_after_those_before_it() {
    let mut p = FakePane::new(vec!["one".into()]);
    p.push_frame("two");
    assert_eq!(p.capture().unwrap(), "one");
    assert_eq!(p.capture().unwrap(), "two");
    assert_eq!(p.capture().unwrap(), "two");
}

#[test]
fn a_missing_window_is_named_in_the_error() {
    assert_eq!(
        find_target("0:index\n", "index MASTER").unwrap_err(),
        "No tmux window named 'index MASTER' found"
    );
    assert_eq!(find_target("0:index MASTER\n", "index MASTER").unwrap(), "0:index MASTER");
}

#[test]
fn the_command_lines_are_those_of_tmux() {
    assert_eq!(literal_args("0:w", "hi"), vec!["send-keys", "-t", "0:w", "-l", "hi"]);
    assert_eq!(key_args("0:w", "Enter"), vec!["send-keys", "-t", "0:w", "Enter"]);
    assert_eq!(
        mode_args("0:w"),
        vec!["display-message", "-p", "-t", "0:w", "#{pane_in_mode}"]
    );
    assert_eq!(exit_mode_args("0:w"), vec!["copy-mode", "-q", "-t", "0:w"]);
    assert_eq!(
        list_windows_args(),
        vec!["list-windows", "-a", "-F", "#{session_name}:#{window_name}"]
    );
    assert!(mode_answer("1\n"));
    assert!(!mode_answer("0\n"));
    assert!(!mode_answer(""));
}

#[test]
fn a_failing_tmux_is_reported_with_its_arguments() {
    let args = key_args("0:w", "Enter");
    assert_eq!(
        tmux_failed(&args, " no server running \n"),
        "tmux send-keys -t 0:w Enter failed: no server running"
    );
    assert_eq!(
        tmux_not_run(&args, "not found"),
        "failed to run tmux send-keys -t 0:w Enter: not found"
    );
}

#[test]
fn a_tmux_pane_knows_its_window() {
    assert_eq!(TmuxPane::new("index MASTER").window(), "index MASTER");
}
