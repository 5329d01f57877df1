//! The command log.

use indexd::db::{decode, now_unix, unix_of, Db, Row, Status, SCHEMA, STRANDED_ERROR};

fn row(id: &str, text: &str, status: &str, created_at: i64) -> Row {
    Row {
        id: id.to_string(),
        text: text.to_string(),
        status: status.to_string(),
        reply: None,
        error: None,
        created_at,
        started_at: None,
        finished_at: None,
        project_id: None,
        turn_id: None,
        project_url: None,
    }
}

fn db() -> Db {
    Db::open_in_memory()
}

/// The words are a contract shared by the database, `/api/commands`
/// and the console. `timed_out` is the one that would break silently.
#[test]
fn status_wire_strings_round_trip() {
    let all = [
        (Status::Queued, "queued"),
        (Status::Running, "running"),
        (Status::Done, "done"),
        (Status::TimedOut, "timed_out"),
        (Status::Failed, "failed"),
    ];
    for (s, want) in all {
        assert_eq!(s.as_str(), want);
        assert_eq!(Status::from_str(want), Some(s));
        assert_eq!(
            serde_json::to_string(s.as_str()).unwrap(),
            format!("\"{want}\""),
            "the JSON string is the word; the console reads the JSON"
        );
        let word: String = serde_json::from_str(&format!("\"{want}\"")).unwrap();
        assert_eq!(Status::from_str(&word), Some(s));
    }
    assert_eq!(Status::TimedOut.as_str(), "timed_out", "not `timedout`");
    assert_eq!(Status::from_str("timedout"), None);
    assert_eq!(Status::from_str("timed out"), None);
    assert_eq!(Status::from_str("TIMED_OUT"), None);
    assert_eq!(Status::from_str(""), None);
}

#[test]
fn terminal_states_are_the_three_that_a_restart_cannot_strand() {
    assert!(!Status::Queued.is_terminal());
    assert!(!Status::Running.is_terminal());
    for s in [Status::Done, Status::TimedOut, Status::Failed] {
        assert!(s.is_terminal(), "{} should be terminal", s.as_str());
    }
}

#[test]
fn insert_starts_queued_with_no_times_but_created_at() {
    let mut db = db();
    db.insert("a1b2", "remind me to email Dana", 1000).unwrap();
    let c = db.get("a1b2").unwrap().expect("the row we just wrote");
    assert_eq!(c.id, "a1b2");
    assert_eq!(c.text, "remind me to email Dana");
    assert_eq!(c.status, Status::Queued);
    assert_eq!(c.created_at, 1000);
    assert_eq!(c.reply, None);
    assert_eq!(c.error, None);
    assert_eq!(c.started_at, None, "nothing has started yet");
    assert_eq!(c.finished_at, None);
}

#[test]
fn get_of_an_unknown_id_is_none_not_an_error() {
    assert!(db().get("zzzz").unwrap().is_none());
}

#[test]
fn a_duplicate_id_is_refused_rather_than_clobbering_a_live_turn() {
    let mut db = db();
    db.insert("a1b2", "first", 1000).unwrap();
    assert!(db.insert("a1b2", "second", 1001).is_err());
    assert_eq!(db.get("a1b2").unwrap().unwrap().text, "first");
}

/// The full journey, once per terminal state.
#[test]
fn round_trip_to_each_terminal_status() {
    let cases = [
        (Status::Done, Some("Added to your reminders for 3pm today."), None),
        (Status::TimedOut, None, None),
        (Status::Failed, None, Some("no window named \"index MASTER\"")),
    ];
    for (i, (status, reply, error)) in cases.into_iter().enumerate() {
        let mut db = db();
        let id = format!("c{i}");

        db.insert(&id, "what's on my calendar tomorrow", 100).unwrap();
        assert_eq!(db.get(&id).unwrap().unwrap().status, Status::Queued);

        db.mark_running(&id, 101);
        let running = db.get(&id).unwrap().unwrap();
        assert_eq!(running.status, Status::Running);
        assert_eq!(running.started_at, Some(101));
        assert_eq!(running.finished_at, None);

        db.finish(&id, status, reply, error, 142);
        let done = db.get(&id).unwrap().unwrap();
        assert_eq!(done.status, status);
        assert_eq!(done.reply.as_deref(), reply);
        assert_eq!(done.error.as_deref(), error);
        assert_eq!(done.finished_at, Some(142));
        assert_eq!(done.started_at, Some(101), "finishing must not lose the start");
        assert_eq!(done.text, "what's on my calendar tomorrow", "the transcript survives");
    }
}

#[test]
fn finish_clears_a_stale_error_when_it_writes_a_reply() {
    let mut db = db();
    db.insert("a1b2", "x", 1).unwrap();
    db.mark_running("a1b2", 2);
    db.finish("a1b2", Status::Failed, None, Some("tmux went away"), 3);
    db.finish("a1b2", Status::Done, Some("the answer"), None, 4);
    let c = db.get("a1b2").unwrap().unwrap();
    assert_eq!(c.status, Status::Done);
    assert_eq!(c.reply.as_deref(), Some("the answer"));
    assert_eq!(c.error, None, "a good reply must not sit next to the old error");
}

/// A row that is no longer `queued` must not be dragged back into flight.
#[test]
fn mark_running_only_moves_a_queued_row() {
    let mut db = db();
    db.insert("a1b2", "x", 1).unwrap();
    db.finish("a1b2", Status::Done, Some("answered"), None, 2);
    db.mark_running("a1b2", 3);
    let c = db.get("a1b2").unwrap().unwrap();
    assert_eq!(c.status, Status::Done, "a finished command stays finished");
    assert_eq!(c.started_at, None);

    // An id that does not exist at all is a no-op, not an error.
    db.mark_running("zzzz", 4);
}

#[test]
fn recent_is_newest_first_and_honours_the_limit() {
    let mut db = db();
    for (id, at) in [("aaaa", 10), ("bbbb", 30), ("cccc", 20)] {
        db.insert(id, id, at).unwrap();
    }
    let ids: Vec<String> = db.recent(10).unwrap().into_iter().map(|c| c.id).collect();
    assert_eq!(ids, vec!["bbbb", "cccc", "aaaa"], "created_at DESC");

    let ids: Vec<String> = db.recent(2).unwrap().into_iter().map(|c| c.id).collect();
    assert_eq!(ids, vec!["bbbb", "cccc"], "the limit takes the newest, not the oldest");

    assert!(db.recent(0).unwrap().is_empty());
}

/// Two commands spoken inside the same second still render in the order
/// they were spoken.
#[test]
fn recent_breaks_same_second_ties_by_insertion_order() {
    let mut db = db();
    for id in ["aaaa", "bbbb", "cccc"] {
        db.insert(id, id, 500).unwrap();
    }
    let ids: Vec<String> = db.recent(10).unwrap().into_iter().map(|c| c.id).collect();
    assert_eq!(ids, vec!["cccc", "bbbb", "aaaa"], "newest insert first");
}

#[test]
fn recent_on_an_empty_log_is_empty() {
    assert!(db().recent(50).unwrap().is_empty());
}

#[test]
fn pending_is_queued_only_oldest_first() {
    let mut db = db();
    db.insert("aaaa", "oldest", 10).unwrap();
    db.insert("bbbb", "newest", 30).unwrap();
    db.insert("cccc", "middle", 20).unwrap();
    db.insert("dddd", "in flight", 40).unwrap();
    db.insert("eeee", "answered", 50).unwrap();
    db.mark_running("dddd", 41);
    db.finish("eeee", Status::Done, Some("yes"), None, 51);

    let ids: Vec<String> = db.pending().into_iter().map(|c| c.id).collect();
    assert_eq!(
        ids,
        vec!["aaaa", "cccc", "bbbb"],
        "FIFO, and neither the running nor the finished row"
    );
}

#[test]
fn reconcile_stranded_settles_exactly_the_in_flight_rows() {
    let mut db = db();
    db.insert("qqqq", "never started", 10).unwrap();
    db.insert("rrrr", "cut off mid-turn", 20).unwrap();
    db.mark_running("rrrr", 21);
    db.insert("dddd", "already answered", 30).unwrap();
    db.finish("dddd", Status::Done, Some("the answer"), None, 31);
    db.insert("ffff", "already failed", 40).unwrap();
    db.finish("ffff", Status::Failed, None, Some("tmux went away"), 41);
    db.insert("tttt", "already timed out", 50).unwrap();
    db.finish("tttt", Status::TimedOut, None, None, 52);

    assert_eq!(db.reconcile_stranded(900), 2, "the queued and running rows only");

    for id in ["qqqq", "rrrr"] {
        let c = db.get(id).unwrap().unwrap();
        assert_eq!(c.status, Status::Failed, "{id}");
        assert_eq!(c.error.as_deref(), Some(STRANDED_ERROR), "{id}");
        assert_eq!(c.finished_at, Some(900), "a settled row must have an end time");
        assert_eq!(c.reply, None, "{id}");
    }

    // The three already-terminal rows are untouched, errors and replies included.
    let done = db.get("dddd").unwrap().unwrap();
    assert_eq!(done.status, Status::Done);
    assert_eq!(done.reply.as_deref(), Some("the answer"));
    assert_eq!(done.error, None);
    assert_eq!(done.finished_at, Some(31));

    let failed = db.get("ffff").unwrap().unwrap();
    assert_eq!(failed.status, Status::Failed);
    assert_eq!(failed.error.as_deref(), Some("tmux went away"), "its own error survives");
    assert_eq!(failed.finished_at, Some(41));

    let timed = db.get("tttt").unwrap().unwrap();
    assert_eq!(timed.status, Status::TimedOut);
    assert_eq!(timed.finished_at, Some(52));

    // Idempotent: the next boot has nothing left to settle.
    assert_eq!(db.reconcile_stranded(901), 0);
    assert!(db.pending().is_empty(), "and the queue is empty afterwards");
}

#[test]
fn reconcile_stranded_on_an_empty_log_settles_nothing() {
    assert_eq!(db().reconcile_stranded(1), 0);
}



#[test]
fn the_schema_matches_the_spec() {
    let conn = rusqlite::Connection::open_in_memory().unwrap();
    conn.execute_batch(SCHEMA).unwrap();
    // Applying it again changes nothing.
    conn.execute_batch(SCHEMA).unwrap();
    let cols: Vec<(String, String, i64)> = conn
        .prepare("PRAGMA table_info(commands)")
        .unwrap()
        .query_map([], |r| Ok((r.get(1)?, r.get(2)?, r.get(3)?)))
        .unwrap()
        .map(|r| r.unwrap())
        .collect();
    let got: Vec<(&str, &str, bool)> =
        cols.iter().map(|(n, t, nn)| (n.as_str(), t.as_str(), *nn == 1)).collect();
    assert_eq!(
        got,
        vec![
            ("id", "TEXT", false),
            ("text", "TEXT", true),
            ("status", "TEXT", true),
            ("reply", "TEXT", false),
            ("error", "TEXT", false),
            ("created_at", "INTEGER", true),
            ("started_at", "INTEGER", false),
            ("finished_at", "INTEGER", false),
        ]
    );

    let index: i64 = conn
        .query_row(
            "SELECT COUNT(*) FROM sqlite_master
              WHERE type = 'index' AND name = 'commands_created_idx'",
            [],
            |r| r.get(0),
        )
        .unwrap();
    assert_eq!(index, 1, "the console's list is ordered by created_at DESC");
}

/// A status this binary has no variant for must surface, not be guessed at.
#[test]
fn an_unknown_status_in_the_database_is_an_error_not_a_guess() {
    let db = Db::from_rows(vec![row("a1b2", "x", "wat", 1)], None);
    let e = db.get("a1b2").unwrap_err().message();
    assert!(e.contains("a1b2"), "the context should name the row: {e}");
}


#[test]
fn now_unix_is_a_plausible_wall_clock_second() {
    // Well after this was written and well before it stops mattering.
    let n = now_unix();
    assert!(n > 1_750_000_000, "{n}");
    assert!(n < 4_000_000_000, "{n}");
}


#[test]
fn injection_defaults_to_on_when_no_row_exists() {
    let mut db = Db::open_in_memory();
    // A fresh install types. The opposite default would mean a new daemon
    // silently ignores the ring until someone finds the switch.
    assert!(db.injecting());
}

#[test]
fn injection_state_round_trips_and_survives_reopen() {
    let mut db = Db::open_in_memory();
    db.set_injecting(false);
    assert!(!db.injecting());

    // A restart reads the stored setting back: it must not quietly resume
    // typing into a live terminal.
    let mut reopened = Db::from_rows(vec![], db.stored_switch().map(str::to_string));
    assert!(!reopened.injecting(), "held must survive a restart");

    reopened.set_injecting(true);
    assert!(reopened.injecting());
    assert_eq!((db.stored_switch(), reopened.stored_switch()), (Some("0"), Some("1")));
    assert_eq!(Db::open_in_memory().stored_switch(), None);
}

#[test]
fn held_is_a_terminal_status_with_the_wire_string_held() {
    assert_eq!(Status::Held.as_str(), "held");
    assert_eq!(Status::from_str("held"), Some(Status::Held));
    assert!(
        Status::Held.is_terminal(),
        "nothing further happens to a held command; the switch does not replay them"
    );
}

#[test]
fn a_held_command_is_not_returned_as_pending_work() {
    let mut db = Db::open_in_memory();
    db.insert("held", "not typed", 100).unwrap();
    db.finish("held", Status::Held, None, None, 100);
    db.insert("live", "typed", 101).unwrap();

    let pending: Vec<String> = db.pending().into_iter().map(|c| c.id).collect();
    assert_eq!(pending, vec!["live"], "a restart must not resurrect held commands");
}

#[test]
fn reconcile_leaves_held_commands_alone() {
    let mut db = Db::open_in_memory();
    db.insert("h", "held one", 100).unwrap();
    db.finish("h", Status::Held, None, None, 100);

    db.reconcile_stranded(200);
    assert_eq!(db.get("h").unwrap().unwrap().status, Status::Held);
}

#[test]
fn the_clock_is_sane() {
    assert!(now_unix() > 1_700_000_000, "unix seconds, not millis or zero");
}

#[test]
fn a_clock_before_the_epoch_reads_zero() {
    assert_eq!(unix_of(None), 0);
    assert_eq!(unix_of(Some(1_700_000_000)), 1_700_000_000);
}

#[test]
fn cancelled_is_a_terminal_status_of_its_own() {
    assert_eq!(Status::Cancelled.as_str(), "cancelled");
    assert_eq!(Status::from_str("cancelled"), Some(Status::Cancelled));
    assert!(Status::Cancelled.is_terminal());
}

#[test]
fn a_duplicate_id_names_itself() {
    let mut db = db();
    db.insert("a1b2", "first", 1).unwrap();
    let e = db.insert("a1b2", "second", 2).unwrap_err();
    assert_eq!(e.message(), "queueing command a1b2");
    assert_eq!(e.detail(), "queueing command a1b2: UNIQUE constraint failed: commands.id");
}

#[test]
fn an_unknown_status_is_quoted_in_the_error() {
    let Err(e) = decode(&row("a1b2", "x", "w\"at", 1), "reading it") else { panic!("decoded") };
    assert_eq!(
        e.detail(),
        "reading it: commands.status = \"w\\\"at\" is not one of \
         queued|running|done|timed_out|failed|cancelled|held"
    );
}

#[test]
fn an_unknown_status_hides_the_list_but_not_the_queue() {
    let db = Db::from_rows(vec![row("a", "x", "queued", 1), row("b", "y", "wat", 2)], None);
    assert_eq!(db.recent(10).unwrap_err().message(), "reading recent commands");
    assert!(db.recent(1).is_err(), "the newest is the one that cannot be read");
    assert_eq!(db.pending().len(), 1);
    assert_eq!(db.unsettled().len(), 1);
    assert!(db.get("a").unwrap().is_some());
    // A restart leaves a word that is not known as it is.
    let mut db = db;
    assert_eq!(db.reconcile_stranded(9), 1);
    assert!(db.get("b").is_err());
}

#[test]
fn a_submission_moves_a_queued_row_and_is_found_by_its_turn() {
    let mut db = db();
    db.insert("a1b2", "x", 1).unwrap();
    assert!(db.by_turn_id("t").unwrap().is_none());
    assert!(db.mark_submitted("a1b2", "p", "t", Some("https://u"), 2));
    let c = db.by_turn_id("t").unwrap().unwrap();
    assert_eq!(c.id, "a1b2");
    assert_eq!(c.status, Status::Running);
    assert_eq!(c.started_at, Some(2));
    assert_eq!(c.project_id.as_deref(), Some("p"));
    assert_eq!(c.project_url.as_deref(), Some("https://u"));
    // Once is enough, and an id that does not exist is a no-op.
    assert!(!db.mark_submitted("a1b2", "p2", "t2", None, 3));
    assert!(!db.mark_submitted("zzzz", "p2", "t2", None, 3));
    assert!(db.by_turn_id("t2").unwrap().is_none());
}

#[test]
fn unsettled_is_everything_without_an_outcome_oldest_first() {
    let mut db = db();
    for (id, at) in [("aaaa", 30), ("bbbb", 10), ("cccc", 20), ("dddd", 10)] {
        db.insert(id, id, at).unwrap();
    }
    db.mark_running("cccc", 40);
    db.finish("dddd", Status::Failed, None, None, 41);
    let ids: Vec<String> = db.unsettled().into_iter().map(|c| c.id).collect();
    assert_eq!(ids, vec!["bbbb", "cccc", "aaaa"]);
}

#[test]
fn settling_twice_keeps_the_first_outcome() {
    let mut db = db();
    db.insert("a1b2", "x", 1).unwrap();
    assert!(db.settle("a1b2", Status::Done, Some("first"), None, 2));
    assert!(!db.settle("a1b2", Status::Failed, None, Some("second"), 3));
    let c = db.get("a1b2").unwrap().unwrap();
    assert_eq!((c.status, c.reply.as_deref(), c.finished_at), (Status::Done, Some("first"), Some(2)));
}

#[test]
fn a_setting_that_is_not_one_is_off() {
    assert!(Db::from_rows(vec![], Some("1".to_string())).injecting());
    assert!(!Db::from_rows(vec![], Some("true".to_string())).injecting());
}
