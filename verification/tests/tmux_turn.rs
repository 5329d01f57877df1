//! A turn against a scripted pane, on a clock that only sleeping moves.

use std::time::Duration;

use indexd::tmux::extract::{DEFAULT_DISMISS_MARKER, STREAMING_MARKER};
use indexd::tmux::pane::FakePane;
use indexd::tmux::{
    new_id, perform, EngineConfig, Turn, TurnAction, TurnEvent, TurnOutcome,
};

const ID: &str = "a1b2";

/// One step of a turn: the time after it, or the outcome.
fn step(turn: &mut Turn, pane: &mut FakePane, now: u64) -> Result<u64, TurnOutcome> {
    let action = turn.action();
    match action {
        TurnAction::Finish(outcome) => Err(outcome),
        TurnAction::Sleep(ms) => {
            turn.advance(TurnEvent::Slept, now + ms);
            Ok(now + ms)
        }
        other => {
            let event = perform(pane, &other).expect("every other action has an event");
            turn.advance(event, now);
            Ok(now)
        }
    }
}

fn run_turn(pane: &mut FakePane, cfg: &EngineConfig, id: &str, text: &str) -> TurnOutcome {
    let mut turn = Turn::new(cfg, id, text);
    let mut now = 0;
    loop {
        match step(&mut turn, pane, now) {
            Ok(later) => now = later,
            Err(outcome) => return outcome,
        }
    }
}

/// Short waits, so that a turn that cannot end does so soon.
fn cfg() -> EngineConfig {
    EngineConfig {
        window: "index MASTER".to_string(),
        cwd: "/tmp".to_string(),
        primary_timeout_ms: 30,
        extended_timeout_ms: 120,
        poll_interval_ms: 5,
        agent_command: Vec::new(),
        streaming_marker: STREAMING_MARKER.to_string(),
        dismiss_marker: DEFAULT_DISMISS_MARKER.to_string(),
    }
}

fn streaming() -> String {
    "● [REPLY-a1b2]partial…\n✻ Crunching… (12s · esc to interrupt)".to_string()
}

fn opener_only() -> String {
    "> [CMD-a1b2][source=index]hi[/CMD-a1b2]\n● [REPLY-a1b2]It is 4pm.\n❯ ".to_string()
}

fn both_tags() -> String {
    "> [CMD-a1b2][source=index]hi[/CMD-a1b2]\n● [REPLY-a1b2]It is 4pm.\n[/REPLY-a1b2]\n❯ "
        .to_string()
}

#[test]
fn sends_the_full_priming_and_submit_sequence() {
    // Frame 0 is consumed by the permission-menu check, then polling starts.
    let mut p = FakePane::new(vec![String::new(), both_tags()]);
    let out = run_turn(&mut p, &cfg(), ID, "hi");
    assert_eq!(out, TurnOutcome::Done("It is 4pm.".to_string()));
    assert_eq!(
        p.writes(),
        vec![
            "key:Enter",
            "key:Enter",
            "key:Enter",
            "literal:[CMD-a1b2][source=index]hi[/CMD-a1b2]",
            "key:Enter",
            "key:Enter",
            "key:Enter",
        ]
    );
    assert_eq!(p.exits(), 0, "a pane not in a mode must not be disturbed");
}

#[test]
fn dismisses_the_permission_menu_with_tab() {
    let menu = "╭─ Do you want to proceed?\n│ 2. Yes, and bypass permissions\n╰─";
    let mut p = FakePane::new(vec![menu.to_string(), both_tags()]);
    let out = run_turn(&mut p, &cfg(), ID, "hi");
    assert!(matches!(out, TurnOutcome::Done(_)));
    let w = p.writes();
    assert_eq!(w[3], "key:Tab", "Tab must come before the injection: {w:?}");
    assert_eq!(w[4], "literal:[CMD-a1b2][source=index]hi[/CMD-a1b2]");
}

#[test]
fn cancels_a_stranded_pane_mode_before_typing() {
    let mut p = FakePane::in_mode(vec![String::new(), both_tags()]);
    let out = run_turn(&mut p, &cfg(), ID, "hi");
    assert!(matches!(out, TurnOutcome::Done(_)));
    assert_eq!(p.exits(), 1, "copy-mode must be cancelled or keys are swallowed");
}

#[test]
fn accepts_only_after_three_consecutive_idle_polls() {
    // frame 0: menu check. frames 1..=3: opener present, no closer, idle.
    let mut p = FakePane::new(vec![
        String::new(),
        opener_only(),
        opener_only(),
        opener_only(),
    ]);
    let out = run_turn(&mut p, &cfg(), ID, "hi");
    assert_eq!(out, TurnOutcome::Done("It is 4pm.".to_string()));
    assert_eq!(
        p.captures(),
        4,
        "one menu check + exactly three idle polls before accepting"
    );
}

/// any non-idle poll resets the counter to zero.
#[test]
fn one_idle_poll_then_streaming_again_restarts_the_count() {
    let mut p = FakePane::new(vec![
        String::new(),    // menu check
        opener_only(),    // idle #1
        streaming(),      // still streaming — reset to 0
        opener_only(),    // idle #1 again
        opener_only(),    // idle #2
        opener_only(),    // idle #3 -> accept here
    ]);
    let out = run_turn(&mut p, &cfg(), ID, "hi");
    assert_eq!(out, TurnOutcome::Done("It is 4pm.".to_string()));
    assert_eq!(
        p.captures(),
        6,
        "the streaming frame must reset the streak, so acceptance lands on the 6th capture"
    );
}

#[test]
fn both_tags_are_accepted_immediately_even_while_the_spinner_shows() {
    // A closer that lands in the same frame as a repainting spinner is still
    // an accept: signal 1 outranks idleness.
    let frame = format!("{}\n✻ Crunching… (esc to interrupt)", both_tags());
    let mut p = FakePane::new(vec![String::new(), frame]);
    let out = run_turn(&mut p, &cfg(), ID, "hi");
    assert_eq!(out, TurnOutcome::Done("It is 4pm.".to_string()));
    assert_eq!(p.captures(), 2, "accepted on the first poll");
}

#[test]
fn keeps_waiting_while_the_pane_is_still_streaming() {
    let mut p = FakePane::new(vec![String::new(), streaming()]);
    let out = run_turn(&mut p, &cfg(), ID, "hi");
    assert_eq!(out, TurnOutcome::TimedOut, "a streaming pane is never accepted");
}

#[test]
fn no_opener_at_all_times_out_without_panicking() {
    let mut p = FakePane::new(vec![
        String::new(),
        "> [CMD-a1b2][source=index]hi[/CMD-a1b2]\n✻ Thinking… (esc to interrupt)".to_string(),
    ]);
    assert_eq!(run_turn(&mut p, &cfg(), ID, "hi"), TurnOutcome::TimedOut);
}

/// A quiet pane with no opener is not an accept either — idleness only
/// counts once the opener is on screen.
#[test]
fn an_idle_pane_without_an_opener_times_out() {
    let mut p = FakePane::new(vec![String::new(), "❯ ".to_string()]);
    assert_eq!(run_turn(&mut p, &cfg(), ID, "hi"), TurnOutcome::TimedOut);
}

#[test]
fn an_empty_body_between_the_tags_is_done_not_an_error() {
    let frame = "> [CMD-a1b2][source=index]hi[/CMD-a1b2]\n● [REPLY-a1b2][/REPLY-a1b2]\n❯ ";
    let mut p = FakePane::new(vec![String::new(), frame.to_string()]);
    assert_eq!(
        run_turn(&mut p, &cfg(), ID, "hi"),
        TurnOutcome::Done(String::new())
    );
}

/// a stale reply carrying the same id, above
/// this turn's echoed command, must not end the turn.
#[test]
fn a_stale_reply_above_this_turns_command_does_not_end_the_turn() {
    let stale = "● [REPLY-a1b2]stale answer\n[/REPLY-a1b2]\n❯ \n\
> [CMD-a1b2][source=index]hi[/CMD-a1b2]\n✻ Crunching… (esc to interrupt)";
    let mut p = FakePane::new(vec![String::new(), stale.to_string()]);
    assert_eq!(run_turn(&mut p, &cfg(), ID, "hi"), TurnOutcome::TimedOut);
}

#[test]
fn a_tmux_failure_is_reported_as_failed() {
    let mut p = FakePane::broken();
    match run_turn(&mut p, &cfg(), ID, "hi") {
        TurnOutcome::Failed(e) => assert!(e.contains("index MASTER"), "got: {e}"),
        other => panic!("expected Failed, got {other:?}"),
    }
}

#[test]
fn ansi_in_the_pane_does_not_prevent_a_match() {
    let frame = "\u{1b}[2K> [CMD-a1b2][source=index]hi[/CMD-a1b2]\n\u{1b}[38;5;2m● [REPLY-a1b2]\u{1b}[0mIt is 4pm.\n[/REPLY-\u{1b}[1ma1b2]\u{1b}]0;t\u{7}\n❯ ";
    let mut p = FakePane::new(vec![String::new(), frame.to_string()]);
    assert_eq!(
        run_turn(&mut p, &cfg(), ID, "hi"),
        TurnOutcome::Done("It is 4pm.".to_string())
    );
}

#[test]
fn new_id_is_four_chars_and_varies() {
    let a = new_id();
    assert_eq!(a.len(), 4);
    assert!(a.chars().all(|c| c.is_ascii_hexdigit()), "id was {a}");
    assert!(
        (0..20).any(|_| new_id() != a),
        "ids must not be constant"
    );
}

#[test]
fn default_engine_config_matches_the_spec() {
    let c = EngineConfig::for_home(Some("/home/me"));
    assert_eq!(c.window, "index MASTER");
    assert!(!c.cwd.is_empty(), "a created window needs a cwd: {:?}", c.cwd);
    assert_eq!(Duration::from_millis(c.primary_timeout_ms), Duration::from_secs(90));
    assert_eq!(Duration::from_millis(c.extended_timeout_ms), Duration::from_secs(600));
    assert_eq!(Duration::from_millis(c.poll_interval_ms), Duration::from_millis(200));
    assert_eq!(c.cwd, "/home/me/m");
    assert_eq!(EngineConfig::for_home(Some("/home/me/")).cwd, "/home/me/m");
    assert_eq!(EngineConfig::for_home(None).cwd, "m");
}

#[test]
fn an_empty_dismiss_marker_dismisses_nothing() {
    let mut p = FakePane::new(vec!["bypass permissions".to_string(), both_tags()]);
    let mut c = cfg();
    c.dismiss_marker = String::new();
    assert_eq!(run_turn(&mut p, &c, ID, "hi"), TurnOutcome::Done("It is 4pm.".to_string()));
    assert!(!p.writes().contains(&"key:Tab".to_string()));
}

#[test]
fn crossing_the_first_wait_is_noted_and_not_fatal() {
    let c = cfg();
    let mut turn = Turn::new(&c, ID, "hi");
    let mut p = FakePane::new(vec![String::new(), streaming()]);
    let mut now = 0;
    while !turn.crossed_primary() {
        now = step(&mut turn, &mut p, now).expect("the first wait must come before the end");
    }
    p.push_frame(&both_tags());
    let mut outcome = None;
    while outcome.is_none() {
        match step(&mut turn, &mut p, now) {
            Ok(later) => now = later,
            Err(o) => outcome = Some(o),
        }
    }
    assert_eq!(outcome, Some(TurnOutcome::Done("It is 4pm.".to_string())));
}

/// A poll that finds the pane streaming ends the streak, with the opener on screen or
/// without.
#[test]
fn a_streaming_poll_without_the_opener_restarts_the_count() {
    let mut p = FakePane::new(vec![
        String::new(),
        opener_only(),
        opener_only(),
        "✻ Crunching… (esc to interrupt)".to_string(),
        opener_only(),
    ]);
    assert_eq!(run_turn(&mut p, &cfg(), ID, "hi"), TurnOutcome::Done("It is 4pm.".to_string()));
    assert_eq!(p.captures(), 7);
}

/// The polls that confirm a reply are consecutive: one that does not show the opener is
/// none of them.
#[test]
fn a_blank_screen_between_idle_polls_restarts_the_count() {
    let mut p = FakePane::new(vec![
        String::new(),
        opener_only(),
        opener_only(),
        String::new(),
        opener_only(),
    ]);
    assert_eq!(run_turn(&mut p, &cfg(), ID, "hi"), TurnOutcome::Done("It is 4pm.".to_string()));
    assert_eq!(p.captures(), 7);
}

#[test]
fn performing_an_action_hands_back_what_the_pane_answered() {
    let mut p = FakePane::in_mode(vec!["one".to_string()]);
    assert!(matches!(perform(&mut p, &TurnAction::AskMode), Some(TurnEvent::Mode(Ok(true)))));
    assert!(matches!(perform(&mut p, &TurnAction::LeaveMode), Some(TurnEvent::Left(Ok(())))));
    assert!(matches!(perform(&mut p, &TurnAction::AskMode), Some(TurnEvent::Mode(Ok(false)))));
    let tab = TurnAction::Key("Tab".to_string());
    assert!(matches!(perform(&mut p, &tab), Some(TurnEvent::Sent(Ok(())))));
    let hi = TurnAction::Literal("hi".to_string());
    assert!(matches!(perform(&mut p, &hi), Some(TurnEvent::Sent(Ok(())))));
    assert!(matches!(perform(&mut p, &TurnAction::Capture), Some(TurnEvent::Captured(Ok(s))) if s == "one"));
    assert!(perform(&mut p, &TurnAction::Sleep(1)).is_none());
    assert!(perform(&mut p, &TurnAction::Finish(TurnOutcome::TimedOut)).is_none());
    assert_eq!(p.writes(), vec!["key:Tab", "literal:hi"]);
    assert_eq!((p.captures(), p.exits()), (1, 1));

    let mut broken = FakePane::broken();
    let said = "No tmux window named 'index MASTER' found";
    assert!(matches!(perform(&mut broken, &tab), Some(TurnEvent::Sent(Err(e))) if e == said));
    assert!(matches!(perform(&mut broken, &TurnAction::AskMode), Some(TurnEvent::Mode(Err(e))) if e == said));
}

#[test]
fn a_failed_mode_check_does_not_stop_the_turn() {
    let mut turn = Turn::new(&cfg(), ID, "hi");
    assert!(matches!(turn.action(), TurnAction::AskMode));
    turn.advance(TurnEvent::Mode(Err("no mode".to_string())), 0);
    assert!(matches!(turn.action(), TurnAction::Key(k) if k == "Enter"));
}

#[test]
fn an_event_that_is_not_waited_for_changes_nothing() {
    let mut turn = Turn::new(&cfg(), ID, "hi");
    turn.advance(TurnEvent::Slept, 0);
    turn.advance(TurnEvent::Captured(Err("x".to_string())), 0);
    assert!(matches!(turn.action(), TurnAction::AskMode));
}
