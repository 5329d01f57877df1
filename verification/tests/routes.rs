//! The hook, the callback and the console's routes.

use indexd::auth::access::AccessVerifier;
use indexd::config::{Config, FileConfig};
use indexd::db::{now_unix, Db, Row, Status};
use indexd::events::Event;
use indexd::routes::callback::{turn_done, Outcome, TurnDone};
use indexd::routes::hook::{hook, read_payload, reads_text, understand, Field, Request};
use indexd::routes::surface::{
    admit_callback, admit_public, answer, callback_handler, public_handler, Admission, Answer,
    Handler, Knock,
};
use indexd::routes::{
    callback_gate, commands, health, info, public_gate, set_injection, Gate, InjectionBody,
    RecentQuery,
};

/// A log with one command already submitted to internd.
fn state_with_running_command() -> (Db, String) {
    let mut db = Db::open_in_memory();
    db.insert("a1b2", "is the spa on", 100).unwrap();
    db.mark_submitted("a1b2", "proj-1", "turn-1", Some("https://x/s/proj-1"), 101);
    (db, "a1b2".to_string())
}

fn body(status: &str, reply: Option<&str>) -> TurnDone {
    TurnDone {
        turn_id: "turn-1".into(),
        status: status.into(),
        reply_md: reply.map(str::to_string),
        error: None,
    }
}

#[test]
fn a_done_callback_settles_the_command_with_its_reply() {
    let (mut db, id) = state_with_running_command();
    let (outcome, event) = turn_done(&mut db, &body("done", Some("Yes, it's on.")), now_unix());
    assert_eq!(outcome, Outcome::Settled);
    assert_eq!((outcome.code(), outcome.body()), (200, "ok\n"));

    let c = db.get(&id).unwrap().unwrap();
    assert_eq!(c.status, Status::Done);
    assert_eq!(c.reply.as_deref(), Some("Yes, it's on."));
    assert!(c.finished_at.is_some());
    assert!(matches!(event, Some(Event::Command { command }) if command.id == id));
}

/// internd retries a callback and the sweeper polls for the same outcome
/// independently: both firing for one turn is the design, not a bug, so the
/// second must change nothing.
#[test]
fn a_duplicate_callback_does_not_overwrite_the_first_outcome() {
    let (mut db, id) = state_with_running_command();
    turn_done(&mut db, &body("done", Some("first")), now_unix());
    let first = db.get(&id).unwrap().unwrap();

    let (outcome, event) = turn_done(&mut db, &body("failed", Some("second")), now_unix() + 9);
    assert_eq!(
        outcome,
        Outcome::AlreadySettled,
        "a duplicate is a no-op, never an error internd should retry"
    );
    assert_eq!((outcome.code(), outcome.body()), (200, "already settled\n"));
    assert!(event.is_none());

    let after = db.get(&id).unwrap().unwrap();
    assert_eq!(after.status, Status::Done, "the first outcome stands");
    assert_eq!(after.reply.as_deref(), Some("first"));
    assert_eq!(after.finished_at, first.finished_at);
}

#[test]
fn a_cancelled_turn_is_not_reported_as_failed() {
    let (mut db, id) = state_with_running_command();
    turn_done(&mut db, &body("cancelled", None), now_unix());
    assert_eq!(db.get(&id).unwrap().unwrap().status, Status::Cancelled);
}

/// A very fast turn can be announced before this daemon knows the turn id.
#[test]
fn an_unknown_turn_is_acknowledged_and_left_to_the_sweeper() {
    let (mut db, id) = state_with_running_command();
    let (outcome, _) = turn_done(
        &mut db,
        &TurnDone {
            turn_id: "turn-we-have-never-seen".into(),
            status: "done".into(),
            reply_md: Some("hello".into()),
            error: None,
        },
        now_unix(),
    );
    assert_eq!(outcome, Outcome::UnknownTurn);
    assert_eq!((outcome.code(), outcome.body()), (200, "unknown turn\n"));
    assert_eq!(db.get(&id).unwrap().unwrap().status, Status::Running);
}

/// A status internd grew that this build has never heard of must not be coerced
/// into an outcome.
#[test]
fn an_unrecognised_status_leaves_the_command_in_flight() {
    let (mut db, id) = state_with_running_command();
    for s in ["queued", "running", "paused_for_review"] {
        let outcome = turn_done(&mut db, &body(s, None), now_unix()).0;
        assert_eq!(outcome, Outcome::NotAnOutcome);
        assert_eq!((outcome.code(), outcome.body()), (200, "not an outcome\n"));
        let c = db.get(&id).unwrap().unwrap();
        assert_eq!(c.status, Status::Running, "{s} must not settle anything");
        assert!(c.finished_at.is_none());
    }
}

#[test]
fn a_command_that_cannot_be_read_is_left_alone() {
    let row = Row {
        id: "wwww".to_string(),
        text: "x".to_string(),
        status: "wat".to_string(),
        reply: None,
        error: None,
        created_at: 1,
        started_at: None,
        finished_at: None,
        project_id: None,
        turn_id: Some("turn-1".to_string()),
        project_url: None,
    };
    let mut db = Db::from_rows(vec![row], None);
    let (outcome, event) = turn_done(&mut db, &body("done", None), 1);
    assert_eq!(outcome, Outcome::LookupFailed);
    assert_eq!((outcome.code(), outcome.body()), (200, "lookup failed\n"));
    assert!(event.is_none());
}

fn cfg_with(callback_tokens: &str) -> Config {
    let mut file = FileConfig::default();
    file.auth.tokens = Some(vec!["Bearer ring".to_string()]);
    file.auth.callback_tokens = Some(vec![callback_tokens.to_string()]);
    Config::from_file_config(file, &vec![], None).unwrap()
}

/// A request that shows nothing.
fn knock(path: &str) -> Knock {
    Knock {
        path: path.to_string(),
        host: Some("localhost".to_string()),
        authorization: None,
        widget_token: None,
        assertion: None,
        cookies: vec![],
    }
}

/// What the route does, where it is reached, and the status.
fn serve(db: &mut Db, a: Answer) -> u16 {
    match a {
        Answer::Refuse(code, _) => code,
        Answer::Reach(Handler::TurnDone, _) => {
            turn_done(db, &body("done", Some("hi")), now_unix()).0.code()
        }
        Answer::Reach(Handler::Health, _) => 200,
        Answer::Reach(_, _) => 404,
    }
}

/// A post to the callback's path on the callback listener.
fn post_to(db: &mut Db, cfg: &Config, token: Option<&str>) -> u16 {
    let path = "/internal/turn-done";
    let k = Knock { authorization: token.map(str::to_string), ..knock(path) };
    let admission = admit_callback(&cfg.callback_tokens, &k);
    serve(db, answer(&admission, None, callback_handler("POST", path)))
}

/// A post to the callback's path on the listener that the tunnel fronts.
fn post_to_public(db: &mut Db, cfg: &Config, v: &AccessVerifier, k: Knock) -> u16 {
    let admission = admit_public(&cfg.allowed_hosts, &cfg.tokens, v, &k);
    let verified = match &admission {
        Admission::Verify(_) => Some(Ok("owner@example.com".to_string())),
        _ => None,
    };
    serve(db, answer(&admission, verified, public_handler("POST", &k.path)))
}

#[test]
fn the_callback_listener_requires_its_own_token() {
    let (mut db, id) = state_with_running_command();
    let cfg = cfg_with("Bearer internd");

    assert_eq!(post_to(&mut db, &cfg, None), 401);
    assert_eq!(post_to(&mut db, &cfg, Some("Bearer wrong")), 401);
    // The ring's own token is not a callback token: the two lists are separate
    // secrets held by different processes.
    assert_eq!(post_to(&mut db, &cfg, Some("Bearer ring")), 401);
    assert_eq!(
        db.get(&id).unwrap().unwrap().status,
        Status::Running,
        "no refused request may settle anything"
    );

    assert_eq!(post_to(&mut db, &cfg, Some("Bearer internd")), 200);
    assert_eq!(db.get(&id).unwrap().unwrap().status, Status::Done);
}

/// The callback route must not be reachable through the tunnel.
#[test]
fn the_callback_route_is_not_on_the_public_router() {
    let (mut db, id) = state_with_running_command();
    let cfg = cfg_with("Bearer internd");
    let closed = AccessVerifier::new(None, String::new(), vec![]);
    let path = "/internal/turn-done";

    let k = Knock { authorization: Some("Bearer internd".to_string()), ..knock(path) };
    assert_ne!(
        post_to_public(&mut db, &cfg, &closed, k),
        200,
        "the callback route reached the public router"
    );
    assert_eq!(
        db.get(&id).unwrap().unwrap().status,
        Status::Running,
        "and it must not have settled anything on the way"
    );

    // Nor does anyone who is let in reach it there.
    let open = console_verifier();
    let k = Knock { assertion: Some("a.b.c".to_string()), ..knock(path) };
    assert_eq!(post_to_public(&mut db, &cfg, &open, k), 404);
    assert_eq!(db.get(&id).unwrap().unwrap().status, Status::Running);
}

#[test]
fn the_callback_listener_answers_health_without_a_token() {
    let cfg = cfg_with("Bearer internd");
    let mut db = Db::open_in_memory();
    assert_eq!(callback_gate("/health"), Gate::Open);
    let admission = admit_callback(&cfg.callback_tokens, &knock("/health"));
    assert_eq!(serve(&mut db, answer(&admission, None, callback_handler("GET", "/health"))), 200);
    assert_eq!(health(), "ok");
    assert_eq!(callback_handler("GET", "/internal/turn-done"), Handler::NotAllowed);
    assert_eq!(callback_handler("GET", "/"), Handler::NotFound);
}

/// A verifier that can admit someone.
fn console_verifier() -> AccessVerifier {
    AccessVerifier::new(
        Some("aud".to_string()),
        "t.cloudflareaccess.com".to_string(),
        vec!["owner@example.com".to_string()],
    )
}

/// `allowed_hosts` is a real gate, not decoration.
#[test]
fn unknown_hosts_are_refused_and_known_ones_pass() {
    let mut file = FileConfig::default();
    file.auth.tokens = Some(vec!["Bearer t".to_string()]);
    file.auth.allowed_hosts =
        Some(vec!["index.example.com".to_string(), "localhost".to_string()]);
    let cfg = Config::from_file_config(file, &vec![], None).unwrap();
    let closed = AccessVerifier::new(None, String::new(), vec![]);
    let mut db = Db::open_in_memory();
    let mut ask = |host: &str| {
        let k = Knock { host: Some(host.to_string()), ..knock("/health") };
        let a = admit_public(&cfg.allowed_hosts, &cfg.tokens, &closed, &k);
        serve(&mut db, answer(&a, None, public_handler("GET", "/health")))
    };

    assert_eq!(ask("index.example.com"), 200);
    // A port on the request must not require a port in the config.
    assert_eq!(ask("index.example.com:8443"), 200);
    assert_eq!(ask("localhost"), 200);
    assert_eq!(
        ask("evil.example.net"),
        421,
        "a rebinding attempt must not reach any handler"
    );
}

#[test]
fn without_credentials_only_health_is_reached() {
    let cfg = cfg_with("Bearer internd");
    let v = console_verifier();
    for path in ["/", "/hook", "/api/info", "/app.js", "/internal/turn-done", "/Health", "/health/"] {
        let a = admit_public(&cfg.allowed_hosts, &cfg.tokens, &v, &knock(path));
        let a = answer(&a, None, public_handler("GET", path));
        assert!(matches!(a, Answer::Refuse(401, b) if b == "unauthorized"), "{path}");
    }
    let a = admit_public(&cfg.allowed_hosts, &cfg.tokens, &v, &knock("/health"));
    let a = answer(&a, None, public_handler("GET", "/health"));
    assert!(matches!(a, Answer::Reach(Handler::Health, None)));
}

#[test]
fn a_token_opens_the_hook_and_nothing_else() {
    let cfg = cfg_with("Bearer internd");
    let v = console_verifier();
    let ring = || Some("Bearer ring".to_string());
    for k in [
        Knock { authorization: ring(), ..knock("/hook") },
        Knock { widget_token: ring(), ..knock("/hook") },
    ] {
        let a = admit_public(&cfg.allowed_hosts, &cfg.tokens, &v, &k);
        assert!(matches!(
            answer(&a, None, public_handler("POST", "/hook")),
            Answer::Reach(Handler::Hook, None)
        ));
    }
    let k = Knock { authorization: ring(), ..knock("/api/commands") };
    assert!(matches!(
        admit_public(&cfg.allowed_hosts, &cfg.tokens, &v, &k),
        Admission::NoAccess(_)
    ));
    let k = Knock { assertion: ring(), ..knock("/hook") };
    assert!(matches!(
        admit_public(&cfg.allowed_hosts, &cfg.tokens, &v, &k),
        Admission::NoToken(_)
    ));
}

#[test]
fn the_console_is_reached_by_whoever_was_verified() {
    let cfg = cfg_with("Bearer internd");
    let v = console_verifier();
    let k = Knock {
        cookies: vec!["a=b; CF_Authorization=tok".to_string()],
        ..knock("/api/injection")
    };
    let a = admit_public(&cfg.allowed_hosts, &cfg.tokens, &v, &k);
    assert!(matches!(&a, Admission::Verify(t) if t == "tok"));
    let h = public_handler("POST", "/api/injection");
    let who = "owner@example.com".to_string();
    assert!(matches!(
        answer(&a, Some(Ok(who)), h),
        Answer::Reach(Handler::Injection, Some(e)) if e == "owner@example.com"
    ));
    assert!(matches!(answer(&a, Some(Err("expired".to_string())), h), Answer::Refuse(401, _)));
    assert!(matches!(answer(&a, None, h), Answer::Refuse(401, _)));
}

#[test]
fn each_path_has_its_handler() {
    for (method, path, handler) in [
        ("GET", "/health", Handler::Health),
        ("HEAD", "/health", Handler::Health),
        ("POST", "/health", Handler::NotAllowed),
        ("POST", "/hook", Handler::Hook),
        ("GET", "/hook", Handler::NotAllowed),
        ("GET", "/", Handler::Page),
        ("GET", "/api/info", Handler::Info),
        ("POST", "/api/injection", Handler::Injection),
        ("GET", "/api/injection", Handler::NotAllowed),
        ("GET", "/api/commands", Handler::Commands),
        ("GET", "/api/events", Handler::Events),
        ("GET", "/app.css", Handler::Asset),
        ("POST", "/internal/turn-done", Handler::Asset),
    ] {
        assert_eq!(public_handler(method, path), handler, "{method} {path}");
    }
}

#[test]
fn every_path_but_two_is_behind_the_console_gate() {
    assert_eq!(public_gate("/health"), Gate::Open);
    assert_eq!(public_gate("/hook"), Gate::Tokens);
    for path in ["/", "/api/info", "/api/commands", "/api/events", "/app.js", "/hook/", "/Health"] {
        assert_eq!(public_gate(path), Gate::Access, "{path}");
    }
}

/// The console renders a disabled "unknown" switch when `injecting` is absent.
#[test]
fn info_carries_the_injection_state_the_console_reads() {
    let mut db = Db::open_in_memory();
    let v = info(&db, "http://127.0.0.1:7472", "index MASTER", "/srv/agent");
    assert_eq!(v.intern_url, "http://127.0.0.1:7472");
    assert_eq!(v.window, "index MASTER");
    assert_eq!(v.cwd, "/srv/agent");
    assert!(v.injecting);

    db.set_injecting(false);
    let v = info(&db, "http://127.0.0.1:7472", "index MASTER", "/srv/agent");
    assert!(!v.injecting);
}

#[test]
fn flipping_the_switch_persists_and_broadcasts() {
    let mut db = Db::open_in_memory();
    let flipped = set_injection(&mut db, &InjectionBody { enabled: false });
    assert!(!flipped.injecting);
    assert!(!db.injecting(), "must survive a restart, so it must be written");
    // A second tab learns about it without polling.
    match flipped.event {
        Event::Injection { enabled } => assert!(!enabled),
        other => panic!("expected an Injection broadcast, got {other:?}"),
    }
}

#[test]
fn the_list_is_between_one_and_a_thousand_commands_long() {
    let mut db = Db::open_in_memory();
    for i in 0..1100 {
        db.insert(&format!("c{i}"), "x", i).unwrap();
    }
    let len = |limit| commands(&db, &RecentQuery { limit }).unwrap().len();
    assert_eq!(len(None), 100);
    assert_eq!(len(Some(0)), 1);
    assert_eq!(len(Some(7)), 7);
    assert_eq!(len(Some(5000)), 1000);
    assert_eq!(commands(&db, &RecentQuery { limit: Some(1) }).unwrap()[0].id, "c1099");
}

fn field(name: &str, text: &str) -> Field {
    Field { name: name.to_string(), text: Some(text.to_string()), bytes: 0 }
}

fn spoken(text: &str) -> Vec<Field> {
    vec![
        field("client", "ring"),
        field("recordedAt", " 1700000000123 "),
        Field { name: "audio".to_string(), text: None, bytes: 4096 },
        field("transcription", text),
        field("something else", "ignored"),
    ]
}

#[test]
fn the_payload_is_read_field_by_field() {
    let p = read_payload(&spoken("  hello  "));
    assert_eq!(p.transcription.as_deref(), Some("  hello  "));
    assert_eq!(p.recorded_at_ms, Some(1_700_000_000_123));
    assert_eq!(p.client.as_deref(), Some("ring"));
    assert_eq!(p.audio_bytes, 4096);
    assert!(!p.test);
    assert!(read_payload(&vec![field("test", " TRUE ")]).test);
    assert!(!read_payload(&vec![field("test", "yes")]).test);
    assert_eq!(read_payload(&vec![field("recordedAt", "soon")]).recorded_at_ms, None);
    assert!(reads_text("transcription") && reads_text("test"));
    assert!(!reads_text("audio") && !reads_text("other"));
}

#[test]
fn a_spoken_command_is_queued_under_the_time_of_the_ring() {
    let mut db = Db::open_in_memory();
    let r = hook(&mut db, Some("single-click-hold"), None, Ok(spoken(" email Dana \n")), 5);
    assert_eq!(r.code, 200);
    let id = r.enqueue.unwrap();
    assert_eq!(r.body, format!("queued {id}\n"));
    let c = db.get(&id).unwrap().unwrap();
    assert_eq!(c.text, "email Dana");
    assert_eq!(c.created_at, 1_700_000_000);
    assert!(matches!(r.event, Some(Event::Command { command }) if command.id == id));
}

#[test]
fn a_held_command_is_a_successful_delivery() {
    let mut db = Db::open_in_memory();
    db.set_injecting(false);
    let r = hook(&mut db, None, None, Ok(spoken("email Dana")), 5);
    assert_eq!(r.code, 200);
    assert!(r.body.starts_with("held "), "{}", r.body);
    assert!(r.enqueue.is_none());
    assert_eq!(db.recent(10).unwrap()[0].finished_at, Some(5));
}

#[test]
fn a_test_event_is_acknowledged_and_not_run() {
    let said = "test event received — endpoint and headers are good. Not run as a command.\n";
    let mut db = Db::open_in_memory();
    let mut marked = spoken("canned words");
    marked.push(field("test", "true"));
    for (trigger, header, fields) in [
        (Some("test-event"), None, spoken("canned words")),
        (None, Some("True"), spoken("canned words")),
        (None, None, marked),
    ] {
        let r = hook(&mut db, trigger, header, Ok(fields), 5);
        assert_eq!((r.code, r.body.as_str()), (200, said));
        assert!(r.enqueue.is_none() && r.event.is_none());
    }
    assert!(db.recent(10).unwrap().is_empty());
}

#[test]
fn a_payload_without_words_and_an_unreadable_one_are_refused() {
    let mut db = Db::open_in_memory();
    let r = hook(&mut db, None, None, Ok(spoken(" \n ")), 5);
    assert_eq!(r.code, 400);
    assert_eq!(
        r.body,
        "no transcription in payload. Set Send to 'Transcription only' or 'Both'.\n"
    );
    let r = hook(&mut db, None, None, Err("boundary".to_string()), 5);
    assert_eq!((r.code, r.body.as_str()), (400, "unreadable body: boundary\n"));
    assert!(db.recent(10).unwrap().is_empty());
}

#[test]
fn a_time_that_is_not_after_the_epoch_is_now() {
    for at in ["0", "999", "-5", "x"] {
        let fields = vec![field("transcription", "t"), field("recordedAt", at)];
        assert!(matches!(understand(None, None, Ok(fields), 77), Request::Run(_, 77)), "{at}");
    }
    let fields = vec![field("transcription", "t"), field("recordedAt", "1000")];
    assert!(matches!(understand(None, None, Ok(fields), 77), Request::Run(_, 1)));
}
