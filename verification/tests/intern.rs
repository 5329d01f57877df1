//! The words and decisions of `internd`'s machine API.

use indexd::db::Status;
use indexd::intern::{
    describe, describe_error, is_in_flight, map_status, submit, submit_with, turn, turn_with,
    Intern, Reply,
};

#[test]
fn interns_statuses_map_onto_this_daemons() {
    assert_eq!(map_status("done"), Some(Status::Done));
    assert_eq!(map_status("failed"), Some(Status::Failed));
    assert_eq!(map_status("timed_out"), Some(Status::TimedOut));
    // Not `failed`: a turn someone stopped on purpose did not go wrong.
    assert_eq!(map_status("cancelled"), Some(Status::Cancelled));
}

#[test]
fn in_flight_and_unknown_statuses_are_both_none_but_are_told_apart() {
    for s in ["queued", "running"] {
        assert_eq!(map_status(s), None, "{s} is not an outcome");
        assert!(is_in_flight(s), "{s} is a status we understand");
    }
    for s in ["", "paused", "something_internd_grew_later"] {
        assert_eq!(map_status(s), None);
        assert!(!is_in_flight(s), "{s:?} must be reported as unrecognised, not waited on");
    }
}

#[test]
fn a_trailing_slash_in_the_base_url_does_not_double_up() {
    let i = Intern::new("http://127.0.0.1:7472/", "Bearer t");
    assert_eq!(i.base_url(), "http://127.0.0.1:7472");
    assert_eq!(i.health_url(), "http://127.0.0.1:7472/health");
    assert_eq!(i.submit_url(), "http://127.0.0.1:7472/machine/turns");
    assert_eq!(i.turn_url("turn-1"), "http://127.0.0.1:7472/machine/turns/turn-1");
    assert_eq!(i.token(), "Bearer t");
}

#[test]
fn a_refusal_is_described_in_interns_own_words() {
    assert_eq!(
        describe("503 Service Unavailable", r#" {"error": " no session "}"#),
        "503 Service Unavailable — no session"
    );
    // No such string: the start of the body, as it is.
    assert_eq!(describe("502 Bad Gateway", "<html>"), "502 Bad Gateway — <html>");
    assert_eq!(describe("500 X", r#"{"error": 5}"#), r#"500 X — {"error": 5}"#);
    assert_eq!(describe("500 X", r#"["error"]"#), r#"500 X — ["error"]"#);
    assert_eq!(describe("401 Unauthorized", "  \n"), "401 Unauthorized");
    assert_eq!(describe("401 Unauthorized", r#"{"error": ""}"#), "401 Unauthorized");
}

#[test]
fn a_long_body_is_capped() {
    let body = "é".repeat(300);
    assert_eq!(describe_error("500", None, &body), format!("500 — {}", "é".repeat(200)));
    assert_eq!(describe_error("500", Some("why".to_string()), &body), "500 — why");
}

#[test]
fn a_code_tells_what_an_answer_is_good_for() {
    assert!(matches!(submit(202, "202 Accepted", ""), Reply::Read));
    assert!(matches!(submit(200, "200 OK", ""), Reply::Read));
    match submit(404, "404 Not Found", "gone") {
        Reply::Refused(e) => assert_eq!(e, "internd refused the command: 404 Not Found — gone"),
        _ => panic!("expected a refusal"),
    }
    assert!(matches!(turn(200, "200 OK", ""), Reply::Read));
    assert!(matches!(turn(404, "404 Not Found", ""), Reply::Missing));
    match turn(300, "300 Multiple Choices", "") {
        Reply::Refused(e) => assert_eq!(e, "internd refused the poll: 300 Multiple Choices"),
        _ => panic!("expected a refusal"),
    }
}

#[test]
fn the_error_in_a_body_is_what_a_refusal_says() {
    let why = || Some("no such identity".to_string());
    match submit_with(503, "503 Service Unavailable", why(), "{}") {
        Reply::Refused(e) => {
            assert_eq!(e, "internd refused the command: 503 Service Unavailable — no such identity")
        }
        _ => panic!("expected a refusal"),
    }
    match turn_with(500, "500", why(), "{}") {
        Reply::Refused(e) => assert_eq!(e, "internd refused the poll: 500 — no such identity"),
        _ => panic!("expected a refusal"),
    }
    assert!(matches!(submit_with(204, "204", why(), ""), Reply::Read));
    assert!(matches!(turn_with(404, "404", why(), ""), Reply::Missing));
}
