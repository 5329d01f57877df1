//! Accepting, submitting and sweeping.

use indexd::db::{now_unix, Db, Row, Status};
use indexd::events::Event;
use indexd::ids::new_id;
use indexd::intern::{submit, turn, Reply, Submitted, TurnState};
use indexd::worker::{
    accept, accept_as, accept_first, finish, judge, load, look, not_understood, publish, submitted,
    Load, Next, Queue, Sweep, SweepConfig, SweepStep, Verdict, QUEUE_LIMIT,
};

fn sweep_cfg(submit: u64, stale: u64) -> SweepConfig {
    SweepConfig { interval_secs: 60, submit_timeout_secs: submit, stale_after_secs: stale }
}

/// What `internd` answers to every poll.
fn polls_with(status: &str, reply: Option<&str>) -> impl Fn() -> Result<Option<TurnState>, String> {
    let status = status.to_string();
    let reply = reply.map(str::to_string);
    move || {
        assert!(matches!(turn(200, "200 OK", ""), Reply::Read));
        Ok(Some(TurnState { status: status.clone(), reply_md: reply.clone(), error: None }))
    }
}

fn unreachable_internd() -> Result<Option<TurnState>, String> {
    Err("connection refused".to_string())
}

/// One whole pass, and the turns it asked about.
fn sweep_once(
    db: &mut Db,
    cfg: SweepConfig,
    internd: impl Fn() -> Result<Option<TurnState>, String>,
) -> Vec<String> {
    let mut asked = vec![];
    let mut sweep = Sweep::begin(db);
    loop {
        match sweep.step(db, now_unix(), cfg) {
            SweepStep::Over => return asked,
            SweepStep::Tell(_) => {}
            SweepStep::Ask(t) => {
                asked.push(t);
                sweep.answer(db, internd(), now_unix(), cfg);
            }
        }
    }
}

fn running_command(db: &mut Db, age_secs: i64) -> String {
    let id = new_id();
    db.insert(&id, "is the spa on", now_unix() - age_secs).unwrap();
    db.mark_submitted(&id, "proj-1", "turn-1", None, now_unix() - age_secs);
    id
}

fn answered() -> Submitted {
    Submitted {
        project_id: "proj-1".to_string(),
        turn_id: "turn-1".to_string(),
        url: Some("https://intern.example.com/s/proj-1".to_string()),
    }
}

#[test]
fn a_submitted_command_records_the_ids_internd_returned() {
    let mut db = Db::open_in_memory();
    let a = accept(&mut db, "is the spa on", now_unix(), now_unix()).unwrap();
    assert_eq!(a.status, Status::Queued);
    assert!(a.enqueue);

    assert!(matches!(load(&db, &a.id), Load::Submit(t) if t == "is the spa on"));
    assert!(matches!(submit(202, "202 Accepted", ""), Reply::Read));
    submitted(&mut db, &a.id, Ok(answered()), now_unix());

    let c = db.get(&a.id).unwrap().unwrap();
    assert_eq!(c.status, Status::Running);
    assert_eq!(c.project_id.as_deref(), Some("proj-1"));
    assert_eq!(c.turn_id.as_deref(), Some("turn-1"));
    // Stored, not rebuilt: indexd never has to know internd's hostname.
    assert_eq!(c.project_url.as_deref(), Some("https://intern.example.com/s/proj-1"));
    assert!(c.started_at.is_some());
}

/// internd's refusals are written to be read, so the message must survive all
/// the way to the console rather than being flattened into "failed".
#[test]
fn a_refused_submission_fails_the_command_with_interns_own_words() {
    let mut db = Db::open_in_memory();
    let a = accept(&mut db, "hello", now_unix(), now_unix()).unwrap();
    let body = "{\"error\": \"no agent session is configured for this identity\"}";
    let Reply::Refused(e) = submit(503, "503 Service Unavailable", body) else {
        panic!("a 503 is a refusal")
    };
    submitted(&mut db, &a.id, Err(e), now_unix());

    let c = db.get(&a.id).unwrap().unwrap();
    assert_eq!(c.status, Status::Failed);
    let err = c.error.unwrap_or_default();
    assert!(err.contains("no agent session is configured"), "{err}");
    assert!(c.turn_id.is_none(), "nothing was accepted, so there is nothing to poll");
}

#[test]
fn an_unreachable_internd_fails_the_command_rather_than_hanging() {
    let mut db = Db::open_in_memory();
    let a = accept(&mut db, "hello", now_unix(), now_unix()).unwrap();
    submitted(&mut db, &a.id, Err("connection refused".to_string()), now_unix());
    assert_eq!(db.get(&a.id).unwrap().unwrap().status, Status::Failed);
}

/// The kill switch still gates the one thing it exists to gate.
#[test]
fn a_held_command_is_never_submitted() {
    let mut db = Db::open_in_memory();
    db.set_injecting(false);

    let a = accept(&mut db, "do not send this", now_unix(), now_unix()).unwrap();
    assert_eq!(a.status, Status::Held);
    assert!(!a.enqueue, "a held command reached internd");
    assert!(db.unsettled().is_empty());

    let c = db.get(&a.id).unwrap().unwrap();
    assert_eq!(c.status, Status::Held);
    assert!(c.turn_id.is_none());

    // Not even an answer that should not be there changes it.
    submitted(&mut db, &a.id, Ok(answered()), now_unix());
    assert_eq!(db.get(&a.id).unwrap().unwrap().status, Status::Held);
}

/// The whole point of the sweeper: an outcome that was never pushed still
/// arrives.
#[test]
fn the_sweeper_settles_a_command_whose_callback_never_arrived() {
    let mut db = Db::open_in_memory();
    let id = running_command(&mut db, 5);
    let asked = sweep_once(&mut db, sweep_cfg(60, 3600), polls_with("done", Some("Yes, it's on.")));
    assert_eq!(asked, vec!["turn-1"]);
    let c = db.get(&id).unwrap().unwrap();
    assert_eq!(c.status, Status::Done);
    assert_eq!(c.reply.as_deref(), Some("Yes, it's on."));
}

/// A turn that genuinely runs for two hours is not a timeout. While internd
/// answers, its own status is believed however long it takes.
#[test]
fn a_turn_internd_still_calls_running_is_left_alone_however_old() {
    let mut db = Db::open_in_memory();
    let id = running_command(&mut db, 100_000);
    sweep_once(&mut db, sweep_cfg(60, 60), polls_with("running", None));
    assert_eq!(db.get(&id).unwrap().unwrap().status, Status::Running);
}

/// A status this build has never heard of must not be invented into an
/// outcome: that would put a wrong answer in the log permanently.
#[test]
fn an_unrecognised_status_from_internd_settles_nothing() {
    let mut db = Db::open_in_memory();
    let id = running_command(&mut db, 100_000);
    sweep_once(&mut db, sweep_cfg(60, 60), polls_with("paused_for_review", None));
    assert_eq!(db.get(&id).unwrap().unwrap().status, Status::Running);
}

#[test]
fn a_turn_internd_no_longer_has_is_failed_rather_than_waited_on() {
    let mut db = Db::open_in_memory();
    let id = running_command(&mut db, 5);
    assert!(matches!(turn(404, "404 Not Found", ""), Reply::Missing));
    sweep_once(&mut db, sweep_cfg(60, 3600), || Ok(None));
    let c = db.get(&id).unwrap().unwrap();
    assert_eq!(c.status, Status::Failed);
    assert!(c.error.unwrap_or_default().contains("deleted"), "say why, not just that");
}

#[test]
fn a_command_that_never_reached_internd_is_aged_out() {
    let mut db = Db::open_in_memory();
    // Queued, never submitted: the submitter died or its channel dropped it.
    db.insert("old1", "spoken long ago", now_unix() - 600).unwrap();
    db.insert("new1", "spoken just now", now_unix()).unwrap();

    let asked = sweep_once(&mut db, sweep_cfg(300, 3600), || panic!("there is nothing to ask about"));
    assert!(asked.is_empty());

    assert_eq!(db.get("old1").unwrap().unwrap().status, Status::Failed);
    assert_eq!(
        db.get("new1").unwrap().unwrap().status,
        Status::Queued,
        "a command still within the submit window is not given up on"
    );
}

#[test]
fn an_unreachable_internd_times_a_running_command_out_only_once_it_is_stale() {
    let mut db = Db::open_in_memory();
    let fresh = running_command(&mut db, 10);
    let old = running_command(&mut db, 10_000);

    sweep_once(&mut db, sweep_cfg(60, 3600), unreachable_internd);

    assert_eq!(
        db.get(&fresh).unwrap().unwrap().status,
        Status::Running,
        "a blip must not settle a turn that is probably still fine"
    );
    let c = db.get(&old).unwrap().unwrap();
    assert_eq!(c.status, Status::TimedOut);
    assert!(c.error.unwrap_or_default().contains("unreachable"));
}

/// Settled commands are not re-polled, so a finished turn cannot be resurrected
/// or have its reply overwritten by a later sweep.
#[test]
fn the_sweeper_ignores_commands_that_already_have_an_outcome() {
    let mut db = Db::open_in_memory();
    let id = running_command(&mut db, 5);
    finish(&mut db, &id, Status::Done, Some("the real answer"), None, now_unix());

    sweep_once(&mut db, sweep_cfg(60, 60), polls_with("failed", None));

    let c = db.get(&id).unwrap().unwrap();
    assert_eq!(c.status, Status::Done);
    assert_eq!(c.reply.as_deref(), Some("the real answer"));
}

#[test]
fn an_outcome_that_arrives_during_a_pass_is_kept() {
    let mut db = Db::open_in_memory();
    let id = running_command(&mut db, 5);
    let cfg = sweep_cfg(60, 60);
    let mut sweep = Sweep::begin(&db);
    assert!(matches!(sweep.step(&mut db, now_unix(), cfg), SweepStep::Ask(t) if t == "turn-1"));
    // The callback comes in while the turn is being asked about.
    finish(&mut db, &id, Status::Done, Some("pushed"), None, 7);
    let told = sweep.answer(&mut db, Ok(None), now_unix(), cfg);
    assert!(told.is_none(), "nothing happened, so there is nothing to tell");
    assert_eq!(db.get(&id).unwrap().unwrap().reply.as_deref(), Some("pushed"));
    assert!(matches!(sweep.step(&mut db, now_unix(), cfg), SweepStep::Over));
    assert!(sweep.answer(&mut db, Ok(None), now_unix(), cfg).is_none());
}

#[test]
fn the_messages_of_the_sweeper_are_exact() {
    let mut db = Db::open_in_memory();
    db.insert("a1b2", "x", 1_000).unwrap();
    let c = db.get("a1b2").unwrap().unwrap();
    match look(&c, 1_300, sweep_cfg(300, 3600)) {
        Verdict::Settle(s, None, Some(e)) => {
            assert_eq!(s, Status::Failed);
            assert_eq!(e, "never reached internd (still queued after 300s)");
        }
        _ => panic!("expected a settlement"),
    }
    assert!(matches!(look(&c, 1_299, sweep_cfg(300, 3600)), Verdict::Leave));
    // A command from the future is new.
    assert!(matches!(look(&c, i64::MIN, sweep_cfg(1, 1)), Verdict::Leave));
    match judge(&c, Err("no route".to_string()), 4_600, sweep_cfg(300, 3600)) {
        Verdict::Settle(s, None, Some(e)) => {
            assert_eq!(s, Status::TimedOut);
            assert_eq!(e, "internd unreachable for 3600s: no route");
        }
        _ => panic!("expected a settlement"),
    }
    match judge(&c, Ok(None), 1_000, sweep_cfg(300, 3600)) {
        Verdict::Settle(Status::Failed, None, Some(e)) => {
            assert_eq!(e, "the project was deleted in intern");
        }
        _ => panic!("expected a settlement"),
    }
}

#[test]
fn a_status_out_of_step_is_reported() {
    let state = |s: &str| TurnState { status: s.to_string(), reply_md: None, error: None };
    assert!(not_understood(&state("paused_for_review")));
    for s in ["queued", "running", "done", "cancelled"] {
        assert!(!not_understood(&state(s)), "{s}");
    }
}

#[test]
fn accepting_tells_the_console_and_draws_a_fresh_id() {
    let mut db = Db::open_in_memory();
    let a = accept(&mut db, "one", 5, 6).unwrap();
    let b = accept(&mut db, "two", 5, 6).unwrap();
    assert_ne!(a.id, b.id);
    match a.event {
        Some(Event::Command { command }) => {
            assert_eq!(command.id, a.id);
            assert_eq!(command.text, "one");
            assert_eq!(command.created_at, 5);
        }
        _ => panic!("expected the command"),
    }
    // A taken id is refused, and nothing is overwritten.
    let e = accept_as(&mut db, a.id.clone(), "three", 7, 8).err().unwrap();
    assert_eq!(e.message(), format!("queueing command {}", a.id));
    assert_eq!(db.get(&a.id).unwrap().unwrap().text, "one");
}

#[test]
fn a_vanished_and_an_unreadable_command_are_told_apart() {
    let strange = Row {
        id: "wwww".to_string(),
        text: "x".to_string(),
        status: "wat".to_string(),
        reply: None,
        error: None,
        created_at: 1,
        started_at: None,
        finished_at: None,
        project_id: None,
        turn_id: None,
        project_url: None,
    };
    let db = Db::from_rows(vec![strange], None);
    assert!(matches!(load(&db, "zzzz"), Load::Vanished));
    assert!(matches!(load(&db, "wwww"), Load::Unreadable(e) if e.message() == "reading command wwww"));
    assert!(publish(&db, "zzzz").is_none());
    assert!(publish(&db, "wwww").is_none());
}

#[test]
fn a_pass_deals_with_each_command_by_its_own_verdict() {
    let mut db = Db::open_in_memory();
    let now = now_unix();
    db.insert("lost", "never sent", now - 600).unwrap();
    db.insert("busy", "still running", now - 500).unwrap();
    db.mark_submitted("busy", "p", "turn-busy", None, now - 500);
    db.insert("over", "has its outcome", now - 400).unwrap();
    db.finish("over", Status::Done, Some("kept"), None, now - 399);
    db.insert("done", "answered", now - 300).unwrap();
    db.mark_submitted("done", "p", "turn-done", None, now - 300);
    db.insert("new1", "just now", now).unwrap();

    let cfg = sweep_cfg(300, 3600);
    let mut told = vec![];
    let mut sweep = Sweep::begin(&db);
    loop {
        let event = match sweep.step(&mut db, now, cfg) {
            SweepStep::Over => break,
            SweepStep::Tell(event) => event,
            SweepStep::Ask(t) => {
                let status = if t == "turn-done" { "done" } else { "running" };
                let state = TurnState {
                    status: status.to_string(),
                    reply_md: Some("yes".to_string()),
                    error: None,
                };
                sweep.answer(&mut db, Ok(Some(state)), now, cfg)
            }
        };
        if let Some(Event::Command { command }) = event {
            told.push(command.id);
        }
    }

    assert_eq!(told, vec!["lost", "done"]);
    let status = |id: &str| db.get(id).unwrap().unwrap().status;
    assert_eq!(status("lost"), Status::Failed);
    assert_eq!(status("busy"), Status::Running);
    assert_eq!(status("over"), Status::Done);
    assert_eq!(status("done"), Status::Done);
    assert_eq!(status("new1"), Status::Queued);
    assert_eq!(db.get("over").unwrap().unwrap().reply.as_deref(), Some("kept"));
    assert_eq!(db.get("done").unwrap().unwrap().reply.as_deref(), Some("yes"));
}

#[test]
fn a_command_is_recorded_under_the_first_free_id() {
    let mut db = Db::open_in_memory();
    db.insert("aaaa", "old", 1).unwrap();
    db.insert("bbbb", "old", 1).unwrap();
    let ids = |all: &[&str]| all.iter().map(|s| s.to_string()).collect::<Vec<String>>();

    let a = accept_first(&mut db, &ids(&["aaaa", "bbbb", "cccc", "dddd"]), "new", 5, 6).unwrap();
    assert_eq!((a.id.as_str(), a.enqueue), ("cccc", true));
    assert_eq!(db.get("cccc").unwrap().unwrap().text, "new");
    assert!(db.get("dddd").unwrap().is_none());

    let e = accept_first(&mut db, &ids(&["aaaa", "cccc"]), "newer", 5, 6).err().unwrap();
    assert_eq!(e.message(), "queueing command cccc");
    assert_eq!(db.recent(10).unwrap().len(), 3);
    assert_eq!(db.get("cccc").unwrap().unwrap().text, "new");
}

#[test]
fn how_old_a_command_is_goes_by_when_it_was_asked_about() {
    let cfg = sweep_cfg(300, 3600);
    for (asked_at, status) in [(4_599, Status::Running), (4_600, Status::TimedOut)] {
        let mut db = Db::open_in_memory();
        db.insert("aaaa", "x", 1_000).unwrap();
        db.mark_submitted("aaaa", "p", "turn-1", None, 1_001);
        let mut sweep = Sweep::begin(&db);
        assert!(matches!(sweep.step(&mut db, asked_at, cfg), SweepStep::Ask(_)));
        // The answer takes its time.
        sweep.answer(&mut db, unreachable_internd(), asked_at + 15, cfg);
        let c = db.get("aaaa").unwrap().unwrap();
        assert_eq!(c.status, status, "asked at {asked_at}");
        if status == Status::TimedOut {
            assert_eq!(c.finished_at, Some(4_615));
            assert_eq!(
                c.error.as_deref(),
                Some("internd unreachable for 3600s: connection refused")
            );
        }
    }
}

#[test]
fn commands_go_out_one_at_a_time_in_the_order_they_were_spoken() {
    let mut db = Db::open_in_memory();
    let mut queue = Queue::new();
    let mut ids = vec![];
    for words in ["first", "second", "third"] {
        let a = accept(&mut db, words, 5, 5).unwrap();
        assert!(queue.enqueue(&a.id));
        ids.push(a.id);
    }
    for (k, words) in ["first", "second", "third"].iter().enumerate() {
        match queue.next(&db) {
            Next::Submit { id, text } => assert_eq!((id.as_str(), text.as_str()), (ids[k].as_str(), *words)),
            _ => panic!("expected {words}"),
        }
        assert!(matches!(queue.next(&db), Next::Wait), "one submission at a time");
        let answer = match k {
            1 => Err("no route".to_string()),
            _ => Ok(Submitted { turn_id: format!("turn-{k}"), ..answered() }),
        };
        assert!(queue.answered(&mut db, answer, 10 + k as i64).is_some());
    }
    assert!(matches!(queue.next(&db), Next::Wait));
    assert!(queue.answered(&mut db, Ok(answered()), 99).is_none());

    let of = |k: usize| db.get(&ids[k]).unwrap().unwrap();
    assert_eq!((of(0).status, of(0).turn_id.as_deref()), (Status::Running, Some("turn-0")));
    assert_eq!((of(1).status, of(1).error.as_deref()), (Status::Failed, Some("no route")));
    assert_eq!((of(2).status, of(2).turn_id.as_deref()), (Status::Running, Some("turn-2")));
    assert_eq!(of(2).started_at, Some(12));
}

#[test]
fn a_queue_passes_over_what_it_cannot_submit_and_drops_what_it_cannot_hold() {
    let row = Row {
        id: "wwww".to_string(),
        text: "x".to_string(),
        status: "wat".to_string(),
        reply: None,
        error: None,
        created_at: 1,
        started_at: None,
        finished_at: None,
        project_id: None,
        turn_id: None,
        project_url: None,
    };
    let db = Db::from_rows(vec![row], None);
    let mut queue = Queue::new();
    assert!(queue.enqueue("gone") && queue.enqueue("wwww"));
    assert!(matches!(queue.next(&db), Next::Vanished(id) if id == "gone"));
    assert!(matches!(queue.next(&db), Next::Unreadable(id, _) if id == "wwww"));
    assert!(matches!(queue.next(&db), Next::Wait));

    for _ in 0..QUEUE_LIMIT {
        assert!(queue.enqueue("more"));
    }
    assert!(!queue.enqueue("too many"));
}
