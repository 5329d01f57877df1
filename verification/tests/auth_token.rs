//! The token gate.

use indexd::auth::is_open_path;
use indexd::auth::token::{require_token, token_ok, Verdict};

fn list(entries: &[&str]) -> Vec<String> {
    entries.iter().map(|s| (*s).to_string()).collect()
}

#[test]
fn the_exact_configured_header_value_is_accepted() {
    let allowed = list(&["Bearer s3cret-primary"]);
    assert!(token_ok(Some("Bearer s3cret-primary"), &allowed));
}

#[test]
fn a_wrong_token_is_refused() {
    let allowed = list(&["Bearer s3cret-primary"]);
    assert!(!token_ok(Some("Bearer s3cret-primaru"), &allowed));
    assert!(!token_ok(Some("Bearer something-else"), &allowed));
}

/// Fail closed. An
/// unconfigured daemon refuses a *correct-looking* token rather than
/// waving traffic through while the operator is still wiring things up.
#[test]
fn an_empty_allowlist_refuses_even_a_plausible_token() {
    assert!(!token_ok(Some("Bearer s3cret-primary"), &[]));
    // And a stray blank entry is not a password everybody already knows.
    assert!(!token_ok(Some(""), &list(&[""])));
    assert!(!token_ok(Some("Bearer s3cret-primary"), &list(&["", ""])));
}

#[test]
fn a_missing_header_is_refused() {
    assert!(!token_ok(None, &list(&["Bearer s3cret-primary"])));
    assert!(!token_ok(None, &[]));
}

/// A prefix must not pass. `ct_eq` refuses a length mismatch outright, but
/// the regression is worth pinning: any implementation that compared only
/// the bytes it was given would hand an attacker a one-byte-at-a-time
/// oracle on the secret.
#[test]
fn a_prefix_of_an_allowed_token_is_refused() {
    let allowed = list(&["Bearer s3cret-primary"]);
    assert!(!token_ok(Some("Bearer s3cret-primar"), &allowed));
    assert!(!token_ok(Some("Bearer "), &allowed));
    assert!(!token_ok(Some("B"), &allowed));
    // …and neither does a superstring.
    assert!(!token_ok(Some("Bearer s3cret-primary "), &allowed));
    assert!(!token_ok(Some("Bearer s3cret-primaryX"), &allowed));
}

/// Rotation: both the live token and the spare work, so the primary can be
/// replaced without a window in which the ring is locked out.
#[test]
fn every_entry_on_the_list_works_so_a_token_can_be_rotated() {
    let allowed = list(&["Bearer primary", "Bearer spare", "Bearer third"]);
    assert!(token_ok(Some("Bearer primary"), &allowed));
    assert!(token_ok(Some("Bearer spare"), &allowed));
    assert!(token_ok(Some("Bearer third"), &allowed));
    assert!(!token_ok(Some("Bearer fourth"), &allowed));
}

/// The configured entry is the *full* header value, prefix included,
/// because that is what the Pebble app sends. A bare secret with the
/// scheme stripped is a different string and must not pass.
#[test]
fn the_scheme_prefix_is_part_of_the_compared_value() {
    let allowed = list(&["Bearer s3cret-primary"]);
    assert!(!token_ok(Some("s3cret-primary"), &allowed));
    assert!(!token_ok(Some("bearer s3cret-primary"), &allowed));
    assert!(!token_ok(Some("Token s3cret-primary"), &allowed));
}

#[test]
fn only_health_is_open() {
    assert!(is_open_path("/health"));
    assert!(!is_open_path("/"));
    assert!(!is_open_path("/health/"));
    assert!(!is_open_path("/healthz"));
    assert!(!is_open_path("/api/turns"));
    assert!(!is_open_path("/api/events"));
    assert!(!is_open_path("/hook"));
    assert!(!is_open_path("/app.js"));
}

#[test]
fn either_header_may_carry_the_token() {
    let allowed = list(&["Bearer primary", "spare"]);
    assert_eq!(require_token(Some("Bearer primary"), None, &allowed), Verdict::Pass);
    assert_eq!(require_token(None, Some("spare"), &allowed), Verdict::Pass);
    assert_eq!(require_token(Some("wrong"), Some("spare"), &allowed), Verdict::Pass);
}

#[test]
fn a_refusal_says_why_in_the_log() {
    let allowed = list(&["Bearer primary"]);
    assert_eq!(require_token(Some("Bearer primary"), None, &[]), Verdict::NoTokens);
    assert_eq!(require_token(None, None, &allowed), Verdict::NoHeader);
    assert_eq!(require_token(Some("Bearer other"), None, &allowed), Verdict::NotListed);
    assert_eq!(require_token(None, Some(""), &allowed), Verdict::NotListed);
}
