//! The console gate: in-process verification of a Cloudflare Access assertion.
//!
//! * **Cloudflare Access runs the login.** By the time an assertion arrives the
//!   open questions are only: is it authentic, is it unexpired, was it minted for
//!   this application, and does it name someone who lives here.
//! * **The email allowlist is checked here as well as at the edge.** A policy
//!   edit at the edge alone must never be able to widen who can read the console.
//! * **Fail closed.** A missing or blank audience, an empty allowlist or a key
//!   set that cannot be had all refuse. Without an audience an assertion minted
//!   for this application cannot be told from one minted for any other
//!   application of the same team.
//!
//! A verification is [`AccessVerifier::begin`], then a key set that names the
//! assertion's key ([`KeyCache`]), then [`AccessVerifier::authenticate`], which gives
//! the JSON text of the claims, then [`AccessVerifier::conclude`] on the claims that the
//! text holds.

use jsonwebtoken::errors::Error;
use jsonwebtoken::jwk::JwkSet;
use jsonwebtoken::{decode, decode_header, DecodingKey, Validation};
use serde_json::value::RawValue;
use vstd::prelude::*;
use vstd::string::*;

use crate::auth::is_open_path;
use crate::db::epoch_secs;
use crate::text;

verus! {

/// The header `cloudflared` adds to every request it forwards for an Access
/// application.
pub const ASSERTION_HEADER: &'static str = "cf-access-jwt-assertion";

/// The same assertion, as Access also sets it in the browser.
pub const ASSERTION_COOKIE: &'static str = "CF_Authorization";

/// How long a fetched key set is trusted. A set that old is fetched again before any
/// of its keys is used, so a key that the team withdrew is refused from then on at the
/// latest. A token that names a key we have never seen forces a refetch regardless,
/// once per lifetime.
pub const JWKS_TTL_SECS: u64 = 300;

/// The algorithm that assertions are signed with.
pub const SIGNING_ALGORITHM: &'static str = "RS256";

/// Clock skew tolerated on `exp`.
pub const LEEWAY_SECS: u64 = 60;

// ---------------------------------------------------------------------------
// Claims
// ---------------------------------------------------------------------------

/// The `aud` claim, which may be either a single string or an array.
#[derive(Debug, Clone)]
pub enum Audience {
    One(String),
    Many(Vec<String>),
}

/// The audience, over the views of its texts.
pub enum AudienceView {
    One(Seq<char>),
    Many(Seq<Seq<char>>),
}

impl View for Audience {
    type V = AudienceView;

    open spec fn view(&self) -> AudienceView {
        match self {
            Audience::One(a) => AudienceView::One(a@),
            Audience::Many(all) => AudienceView::Many(text::views(all@)),
        }
    }
}

/// Whether an `aud` claim names that audience.
pub open spec fn names(aud: AudienceView, want: Seq<char>) -> bool {
    match aud {
        AudienceView::One(a) => a == want,
        AudienceView::Many(all) => all.contains(want),
    }
}

impl Audience {
    /// Whether the claim names that audience.
    pub fn contains(&self, want: &str) -> (r: bool)
        ensures
            r == names(self@, want@),
    {
        match self {
            Audience::One(a) => text::same(a.as_str(), want),
            Audience::Many(all) => has_text(all, want),
        }
    }
}

/// Whether a list has that text.
fn has_text(all: &[String], want: &str) -> (r: bool)
    ensures
        r == text::views(all@).contains(want@),
{
    let ghost list = text::views(all@);
    let mut i: usize = 0;
    while i < all.len()
        invariant
            i <= all@.len(),
            list == text::views(all@),
            forall|j: int| 0 <= j < i ==> #[trigger] list[j] != want@,
        decreases all@.len() - i,
    {
        assert(list[i as int] == all@[i as int]@);
        if text::same(all[i].as_str(), want) {
            return true;
        }
        i = i + 1;
    }
    false
}

/// The claims we care about. `exp` is not optional: a text without one holds no claims.
#[derive(Debug, Clone)]
pub struct Claims {
    pub email: Option<String>,
    pub aud: Option<Audience>,
    pub iss: Option<String>,
    pub exp: u64,
}

/// The claims, over the views of their texts.
pub struct ClaimsView {
    pub email: Option<Seq<char>>,
    pub aud: Option<AudienceView>,
    pub iss: Option<Seq<char>>,
    pub exp: u64,
}

impl View for Claims {
    type V = ClaimsView;

    open spec fn view(&self) -> ClaimsView {
        ClaimsView {
            email: text::opt_view(self.email),
            aud: match self.aud {
                Some(a) => Some(a@),
                None => None,
            },
            iss: text::opt_view(self.iss),
            exp: self.exp,
        }
    }
}

/// An email in the form that everything compares.
pub open spec fn normal_email(email: Seq<char>) -> Seq<char> {
    text::lowered(text::trimmed(email))
}

/// The one place a raw email claim becomes the canonical form everything else
/// compares against.
pub fn normalize_email(email: &str) -> (r: String)
    ensures
        r@ == normal_email(email@),
{
    text::lowercase(text::trim(email).as_str())
}

/// An issuer without a slash at its end.
pub open spec fn bare_issuer(iss: Seq<char>) -> Seq<char> {
    text::without_end(text::trimmed(iss), '/')
}

/// The policy on claims: who is let in, or why nobody is.
pub open spec fn claims_verdict(
    claims: ClaimsView,
    aud: Seq<char>,
    issuer: Seq<char>,
    allowed_emails: Seq<Seq<char>>,
    now: u64,
) -> Result<Seq<char>, Seq<char>> {
    let email = normal_email(
        match claims.email {
            Some(e) => e,
            None => Seq::empty(),
        },
    );
    if claims.aud is None {
        Err("assertion carries no aud claim"@)
    } else if !names(claims.aud->0, aud) {
        Err("assertion was minted for a different application"@)
    } else if claims.iss is None {
        Err("assertion carries no iss claim"@)
    } else if bare_issuer(claims.iss->0) != issuer {
        Err(
            "assertion issued by "@ + bare_issuer(claims.iss->0) + ", not by this team ("@ + issuer
                + ")"@,
        )
    } else if claims.exp + LEEWAY_SECS < now {
        Err(
            "assertion expired at "@ + text::decimal(claims.exp as nat) + " (now "@ + text::decimal(
                now as nat,
            ) + ")"@,
        )
    } else if email.len() == 0 {
        Err("assertion carries no email claim"@)
    } else if !allowed_emails.contains(email) {
        Err("authentic assertion for a non-allowlisted identity ("@ + email + ")"@)
    } else {
        Ok(email)
    }
}

/// The claim-validation policy. Returns the normalized email on success.
pub fn validate_claims(
    claims: &Claims,
    aud: &str,
    issuer: &str,
    allowed_emails: &[String],
    now: u64,
) -> (r: Result<String, String>)
    ensures
        text::result_view(r) == claims_verdict(
            claims@,
            aud@,
            issuer@,
            text::views(allowed_emails@),
            now,
        ),
{
    match &claims.aud {
        Some(a) => if !a.contains(aud) {
            return Err("assertion was minted for a different application".to_owned());
        },
        None => return Err("assertion carries no aud claim".to_owned()),
    }
    match &claims.iss {
        Some(i) => {
            let bare = text::trim_end_char(text::trim(i.as_str()).as_str(), '/');
            if !text::same(bare.as_str(), issuer) {
                let mut e = text::cat3(
                    "assertion issued by ",
                    bare.as_str(),
                    ", not by this team (",
                );
                e.append(issuer);
                e.append(")");
                return Err(e);
            }
        },
        None => return Err("assertion carries no iss claim".to_owned()),
    }
    if claims.exp.saturating_add(LEEWAY_SECS) < now {
        let mut e = text::cat3(
            "assertion expired at ",
            text::dec(claims.exp).as_str(),
            " (now ",
        );
        e.append(text::dec(now).as_str());
        e.append(")");
        return Err(e);
    }
    let email = match &claims.email {
        Some(e) => normalize_email(e.as_str()),
        None => normalize_email(String::new().as_str()),
    };
    if email.as_str().is_empty() {
        return Err("assertion carries no email claim".to_owned());
    }
    if !has_text(allowed_emails, email.as_str()) {
        return Err(
            text::cat3(
                "authentic assertion for a non-allowlisted identity (",
                email.as_str(),
                ")",
            ),
        );
    }
    Ok(email)
}

// ---------------------------------------------------------------------------
// Tokens and keys
// ---------------------------------------------------------------------------

/// The key id that the header of a JWT names, if it names one, or why the header
/// cannot be read: what `jsonwebtoken` reads.
pub uninterp spec fn header_kid_of(jwt: Seq<char>) -> Result<Option<Seq<char>>, Seq<char>>;

/// The key id in the header of a JWT, from `jsonwebtoken::decode_header`, which
/// checks no signature. The contract names the result, and claims that a text
/// with fewer than two dots has no header that can be read.
#[verifier::external_body]
fn header_kid(jwt: &str) -> (r: Result<Option<String>, String>)
    ensures
        header_kid_of(jwt@) == match r {
            Ok(kid) => Ok::<Option<Seq<char>>, Seq<char>>(text::opt_view(kid)),
            Err(e) => Err(e@),
        },
        text::pieces(jwt@, '.').len() < 3 ==> r is Err,
{
    decode_header(jwt).map(|h| h.kid).map_err(|e| e.to_string())
}

/// Whether a key set, as JSON, has a key of that id; `None` where the text is no key
/// set: what `jsonwebtoken` reads.
pub uninterp spec fn has_key_of(jwks: Seq<char>, kid: Seq<char>) -> Option<bool>;

/// Whether a key set has a key, from `serde_json::from_str` into
/// `jsonwebtoken::jwk::JwkSet` and its `find`. The contract names the result.
#[verifier::external_body]
fn has_key(jwks: &str, kid: &str) -> (r: Option<bool>)
    ensures
        r == has_key_of(jwks@, kid@),
{
    serde_json::from_str::<JwkSet>(jwks).ok().map(|set| set.find(kid).is_some())
}

/// Why the key of that id in a key set, as JSON, cannot verify a signature; `None`
/// where it can, and where the text has no such key: what `jsonwebtoken` says.
pub uninterp spec fn key_fault_of(jwks: Seq<char>, kid: Seq<char>) -> Option<Seq<char>>;

/// What is wrong with a key of a key set, from
/// `jsonwebtoken::DecodingKey::from_jwk`. The contract names the result.
#[verifier::external_body]
fn key_fault(jwks: &str, kid: &str) -> (r: Option<String>)
    ensures
        text::opt_view(r) == key_fault_of(jwks@, kid@),
{
    let set: JwkSet = serde_json::from_str(jwks).ok()?;
    set.find(kid).and_then(|jwk| DecodingKey::from_jwk(jwk).err()).map(|e| e.to_string())
}

/// The claims, as JSON, of a JWT that is signed, with that algorithm, by the key of
/// that id in that key set, and whose `aud` and `iss`, where it has them, are these;
/// `None` of any other: what `jsonwebtoken` accepts, at a time at which it is not
/// expired.
pub uninterp spec fn signed_claims_of(
    jwt: Seq<char>,
    jwks: Seq<char>,
    kid: Seq<char>,
    algorithm: Seq<char>,
    aud: Seq<char>,
    issuer: Seq<char>,
) -> Option<Seq<char>>;

/// The claims of a JWT, as the JSON text that was signed, from `jsonwebtoken::decode`
/// with `jsonwebtoken::DecodingKey::from_jwk`, for that algorithm, that audience and
/// that issuer. Whether it succeeds also rests on the clock, which is compared with
/// `exp`, and which must not stand before the Unix epoch; so the contract claims of a
/// success only that the claims are those that the signed text carries, and of a
/// failure nothing.
#[verifier::external_body]
fn signed_claims(
    jwt: &str,
    jwks: &str,
    kid: &str,
    algorithm: &str,
    aud: &str,
    issuer: &str,
) -> (r: Result<String, String>)
    ensures
        r matches Ok(claims) ==> signed_claims_of(
            jwt@,
            jwks@,
            kid@,
            algorithm@,
            aud@,
            issuer@,
        ) == Some(claims@),
{
    let set: JwkSet = serde_json::from_str(jwks).map_err(|e| e.to_string())?;
    let jwk = set.find(kid).ok_or_else(|| "no such key".to_string())?;
    let key = DecodingKey::from_jwk(jwk).map_err(|e| e.to_string())?;
    let mut v = Validation::new(algorithm.parse().map_err(|e: Error| e.to_string())?);
    v.set_audience(&[aud]);
    v.set_issuer(&[issuer]);
    let decoded = decode::<Box<RawValue>>(jwt, &key, &v);
    decoded.map(|d| d.claims.get().to_string()).map_err(|e| e.to_string())
}

/// What to do about the key that an assertion names.
#[derive(Debug)]
pub enum KeyStep {
    /// The cached key set has it.
    UseCached,
    /// Fetch the key set, and go on with [`KeyCache::fetched`].
    Fetch,
    /// Refuse, for that reason.
    Refuse(String),
}

/// The step, over the view of its reason.
pub enum KeyStepView {
    UseCached,
    Fetch,
    Refuse(Seq<char>),
}

impl View for KeyStep {
    type V = KeyStepView;

    open spec fn view(&self) -> KeyStepView {
        match self {
            KeyStep::UseCached => KeyStepView::UseCached,
            KeyStep::Fetch => KeyStepView::Fetch,
            KeyStep::Refuse(e) => KeyStepView::Refuse(e@),
        }
    }
}

/// What is done about a key, given the cached key set, if there is one: whether it has
/// the key, its age in seconds, and whether a refetch for a key that it did not have
/// was already made in its lifetime.
pub open spec fn key_step_of(kid: Seq<char>, cache: Option<(bool, u64, bool)>) -> KeyStepView {
    match cache {
        None => KeyStepView::Fetch,
        Some((known, age, refetched)) => if age >= JWKS_TTL_SECS {
            KeyStepView::Fetch
        } else if known {
            KeyStepView::UseCached
        } else if refetched {
            KeyStepView::Refuse("no signing key for kid "@ + kid + " in the cached team JWKS"@)
        } else {
            KeyStepView::Fetch
        },
    }
}

/// What to do about a key, given the cached key set, if there is one: whether it has
/// the key, its age in seconds, and whether a refetch for a key that it did not have
/// was already made in its lifetime.
///
/// A key that is not in the cache forces a refetch, since key rotation should not
/// cost a full lifetime of refusals, but only once per lifetime of the cache:
/// otherwise a stream of forged key ids would turn into a stream of requests.
pub fn key_step(kid: &str, cache: Option<(bool, u64, bool)>) -> (r: KeyStep)
    ensures
        r@ == key_step_of(kid@, cache),
{
    match cache {
        None => KeyStep::Fetch,
        Some((known, age, refetched)) => {
            if age >= JWKS_TTL_SECS {
                KeyStep::Fetch
            } else if known {
                KeyStep::UseCached
            } else if refetched {
                KeyStep::Refuse(
                    text::cat3("no signing key for kid ", kid, " in the cached team JWKS"),
                )
            } else {
                KeyStep::Fetch
            }
        },
    }
}

/// What a fetched key set is good for.
#[derive(Debug)]
pub struct Fetched {
    /// Whether to keep it: it is a key set.
    pub keep: bool,
    /// Why the assertion is refused, if its key is not in it.
    pub refusal: Option<String>,
}

/// Whether a fetched text is good for something: whether it is a key set, and why
/// the assertion is refused, given whether it has the key.
pub open spec fn fetched_of(kid: Seq<char>, url: Seq<char>, known: Option<bool>) -> (
    bool,
    Option<Seq<char>>,
) {
    match known {
        Some(true) => (true, None),
        Some(false) => (true, Some("no signing key for kid "@ + kid + " in the team JWKS"@)),
        None => (
            false,
            Some("malformed JWKS from "@ + url + ": error decoding response body"@),
        ),
    }
}

/// Take a key set that was fetched for a key, given whether it has the key; `None`
/// where it is no key set.
pub fn fetched_with(kid: &str, url: &str, known: Option<bool>) -> (r: Fetched)
    ensures
        (r.keep, text::opt_view(r.refusal)) == fetched_of(kid@, url@, known),
{
    match known {
        Some(true) => Fetched { keep: true, refusal: None },
        Some(false) => Fetched {
            keep: true,
            refusal: Some(text::cat3("no signing key for kid ", kid, " in the team JWKS")),
        },
        None => Fetched {
            keep: false,
            refusal: Some(
                text::cat3("malformed JWKS from ", url, ": error decoding response body"),
            ),
        },
    }
}

/// The team's key set, as it was last fetched, if it was, on a clock that never goes
/// back.
#[derive(Debug)]
pub struct KeyCache {
    jwks: Option<String>,
    fetched_ms: u64,
    refetched: bool,
}

/// What a key cache holds.
pub struct KeyCacheView {
    pub jwks: Option<Seq<char>>,
    /// When it was fetched.
    pub fetched_ms: u64,
    /// Whether a key that the set did not have forced a refetch in its lifetime.
    pub refetched: bool,
}

impl View for KeyCache {
    type V = KeyCacheView;

    closed spec fn view(&self) -> KeyCacheView {
        KeyCacheView {
            jwks: text::opt_view(self.jwks),
            fetched_ms: self.fetched_ms,
            refetched: self.refetched,
        }
    }
}

/// How old the set is, in whole seconds.
pub open spec fn cache_age(c: KeyCacheView, now_ms: u64) -> u64 {
    if now_ms >= c.fetched_ms {
        ((now_ms - c.fetched_ms) / 1000) as u64
    } else {
        0
    }
}

/// Whether there is a set and it is within its lifetime.
pub open spec fn is_fresh(c: KeyCacheView, now_ms: u64) -> bool {
    c.jwks is Some && cache_age(c, now_ms) < JWKS_TTL_SECS
}

/// Whether the set has the key.
pub open spec fn is_known(c: KeyCacheView, kid: Seq<char>) -> bool {
    c.jwks matches Some(jwks) && has_key_of(jwks, kid) == Some(true)
}

/// What is done about a key.
pub open spec fn cache_step(c: KeyCacheView, kid: Seq<char>, now_ms: u64) -> KeyStepView {
    key_step_of(
        kid,
        if c.jwks is Some {
            Some((is_known(c, kid), cache_age(c, now_ms), c.refetched))
        } else {
            None
        },
    )
}

/// The cache after it was asked for a key. A fetch that is due with a set still in its
/// lifetime is the one refetch of that lifetime; any other begins a lifetime.
pub open spec fn asked(c: KeyCacheView, kid: Seq<char>, now_ms: u64) -> KeyCacheView {
    if cache_step(c, kid, now_ms) is Fetch {
        KeyCacheView { refetched: is_fresh(c, now_ms), ..c }
    } else {
        c
    }
}

/// The cache after a text was fetched: a key set is kept, anything else is not.
pub open spec fn refreshed(
    c: KeyCacheView,
    jwks: Seq<char>,
    known: Option<bool>,
    now_ms: u64,
) -> KeyCacheView {
    if known is Some {
        KeyCacheView { jwks: Some(jwks), fetched_ms: now_ms, ..c }
    } else {
        c
    }
}

impl KeyCache {
    /// A cache that holds nothing yet.
    pub fn new() -> (r: KeyCache)
        ensures
            r@ == (KeyCacheView { jwks: None, fetched_ms: 0, refetched: false }),
    {
        KeyCache { jwks: None, fetched_ms: 0, refetched: false }
    }

    /// The key set.
    pub fn jwks(&self) -> (r: Option<&str>)
        ensures
            text::opt_str(r) == self@.jwks,
    {
        match &self.jwks {
            Some(jwks) => Some(jwks.as_str()),
            None => None,
        }
    }

    /// What to do about a key. That a fetch is due is noted at once, so that one that
    /// fails counts too.
    pub fn key_for(&mut self, kid: &str, now_ms: u64) -> (r: KeyStep)
        ensures
            r@ == cache_step(old(self)@, kid@, now_ms),
            final(self)@ == asked(old(self)@, kid@, now_ms),
    {
        let age: u64 = now_ms.saturating_sub(self.fetched_ms) / 1000;
        let (cache, fresh) = match &self.jwks {
            Some(jwks) => {
                let known = match has_key(jwks.as_str(), kid) {
                    Some(b) => b,
                    None => false,
                };
                (Some((known, age, self.refetched)), age < JWKS_TTL_SECS)
            },
            None => (None, false),
        };
        let step = key_step(kid, cache);
        match step {
            KeyStep::Fetch => {
                self.refetched = fresh;
            },
            _ => {},
        }
        step
    }

    /// Take a text that was fetched for a key from an address. What comes back is why
    /// the assertion is refused, if it is: the text is no key set, or has no such key.
    pub fn fetched(&mut self, kid: &str, url: &str, jwks: &str, now_ms: u64) -> (r: Option<String>)
        ensures
            text::opt_view(r) == fetched_of(kid@, url@, has_key_of(jwks@, kid@)).1,
            final(self)@ == refreshed(old(self)@, jwks@, has_key_of(jwks@, kid@), now_ms),
    {
        let verdict = fetched_with(kid, url, has_key(jwks, kid));
        if verdict.keep {
            self.jwks = Some(jwks.to_owned());
            self.fetched_ms = now_ms;
        }
        verdict.refusal
    }
}

// ---------------------------------------------------------------------------
// The verifier
// ---------------------------------------------------------------------------

/// A configured team domain as a bare host.
pub open spec fn bare_domain(raw: Seq<char>) -> Seq<char> {
    text::without_end(
        text::without_start(text::without_start(text::trimmed(raw), "https://"@), "http://"@),
        '/',
    )
}

/// Reduce a configured team domain to a bare host, so that the issuer and the
/// certs URL are derived from one string and cannot drift apart.
pub fn normalize_team_domain(raw: &str) -> (r: String)
    ensures
        r@ == bare_domain(raw@),
{
    proof {
        reveal_strlit("https://");
        reveal_strlit("http://");
    }
    let t = text::trim(raw);
    let t = text::trim_start_text(t.as_str(), "https://");
    let t = text::trim_start_text(t.as_str(), "http://");
    text::trim_end_char(t.as_str(), '/')
}

/// The emails of an allowlist, in the form that everything compares, without the
/// blank ones.
pub open spec fn normal_emails(emails: Seq<Seq<char>>) -> Seq<Seq<char>>
    decreases emails.len(),
{
    if emails.len() == 0 {
        Seq::empty()
    } else {
        let rest = normal_emails(emails.drop_last());
        let e = normal_email(emails.last());
        if e.len() == 0 {
            rest
        } else {
            rest.push(e)
        }
    }
}

/// An audience that is not blank, trimmed.
pub open spec fn given_aud(aud: Option<Seq<char>>) -> Option<Seq<char>> {
    match aud {
        Some(a) => if text::trimmed(a).len() == 0 {
            None
        } else {
            Some(text::trimmed(a))
        },
        None => None,
    }
}

/// Verifies Cloudflare Access assertions for one application.
#[derive(Debug, Clone)]
pub struct AccessVerifier {
    aud: Option<String>,
    team_domain: String,
    issuer: String,
    certs_url: String,
    allowed_emails: Vec<String>,
}

/// What a verifier holds.
pub struct VerifierView {
    /// The audience tag of the application. `None` means that an assertion
    /// cannot be pinned to it.
    pub aud: Option<Seq<char>>,
    /// The bare team host.
    pub team_domain: Seq<char>,
    /// The issuer that an assertion has to name.
    pub issuer: Seq<char>,
    /// Where the team's signing keys are.
    pub certs_url: Seq<char>,
    /// Normalized. Empty means nobody gets in.
    pub allowed_emails: Seq<Seq<char>>,
}

/// Whether a verifier is able to admit anyone at all.
pub open spec fn enforcing(v: VerifierView) -> bool {
    v.aud is Some && v.allowed_emails.len() > 0 && v.team_domain.len() > 0
}

/// Why a verifier is not enforcing.
pub open spec fn missing_setting(v: VerifierView) -> Option<Seq<char>> {
    if v.aud is None {
        Some(
            "INDEXD_ACCESS_AUD is not set, so an Access assertion cannot be pinned to this application and one minted for any other app on the same team would otherwise verify. Failing closed: every console route returns 401 until you set it to the the console Access application's Application Audience tag (Cloudflare Zero Trust -> Access -> Applications -> your app)."@,
        )
    } else if v.allowed_emails.len() == 0 {
        Some(
            "the Access email allowlist is empty, so no identity can ever match. Failing closed: every console route returns 401 until INDEXD_ALLOWED_EMAILS names at least one address (owner@example.com)."@,
        )
    } else if v.team_domain.len() == 0 {
        Some(
            "no Cloudflare team domain is configured, so the JWKS endpoint and the expected issuer cannot be derived. Failing closed: every console route returns 401."@,
        )
    } else {
        None
    }
}

/// An assertion whose header has been read.
#[derive(Debug)]
pub struct Assertion {
    pub jwt: String,
    /// The key that it claims to be signed with.
    pub kid: String,
}

/// What is first made of an assertion: its text, trimmed, and its key id.
pub open spec fn begun(
    v: VerifierView,
    jwt: Seq<char>,
    header: Result<Option<Seq<char>>, Seq<char>>,
) -> Result<(Seq<char>, Seq<char>), Seq<char>> {
    if !enforcing(v) {
        Err(missing_setting(v)->0)
    } else if text::trimmed(jwt).len() == 0 {
        Err("empty assertion"@)
    } else {
        match header {
            Err(e) => Err("unreadable JWT header: "@ + e),
            Ok(None) => Err("JWT header names no kid"@),
            Ok(Some(kid)) => Ok((text::trimmed(jwt), kid)),
        }
    }
}

/// What is made of the claims of an authentic assertion, or of why it holds none.
pub open spec fn concluded(
    v: VerifierView,
    claims: Result<ClaimsView, Seq<char>>,
    now: u64,
) -> Result<Seq<char>, Seq<char>> {
    if !enforcing(v) {
        Err(missing_setting(v)->0)
    } else {
        match claims {
            Err(e) => Err("assertion rejected: "@ + e),
            Ok(c) => claims_verdict(c, v.aud->0, v.issuer, v.allowed_emails, now),
        }
    }
}

/// The claims that were read, over the views of their texts.
pub open spec fn claims_view(r: Result<Claims, String>) -> Result<ClaimsView, Seq<char>> {
    match r {
        Ok(c) => Ok(c@),
        Err(e) => Err(e@),
    }
}

/// What is made of a signature check: the claims, as JSON, or why the assertion is
/// rejected.
pub open spec fn checked(
    v: VerifierView,
    kid: Seq<char>,
    fault: Option<Seq<char>>,
    decoded: Result<Seq<char>, Seq<char>>,
) -> Result<Seq<char>, Seq<char>> {
    if !enforcing(v) {
        Err(missing_setting(v)->0)
    } else {
        match fault {
            Some(f) => Err("unusable JWK "@ + kid + ": "@ + f),
            None => match decoded {
                Ok(json) => Ok(json),
                Err(e) => Err("assertion rejected: "@ + e),
            },
        }
    }
}

impl View for AccessVerifier {
    type V = VerifierView;

    closed spec fn view(&self) -> VerifierView {
        VerifierView {
            aud: text::opt_view(self.aud),
            team_domain: self.team_domain@,
            issuer: self.issuer@,
            certs_url: self.certs_url@,
            allowed_emails: text::views(self.allowed_emails@),
        }
    }
}

impl AccessVerifier {
    /// Build a verifier for one Access application.
    ///
    /// `team_domain` may be written with or without a scheme and with or without
    /// a trailing slash. An absent or blank `aud`, an empty `allowed_emails` or a
    /// blank `team_domain` each yield a verifier that refuses every assertion.
    pub fn new(aud: Option<String>, team_domain: String, allowed_emails: Vec<String>) -> (r:
        AccessVerifier)
        ensures
            r@ == (VerifierView {
                aud: given_aud(text::opt_view(aud)),
                team_domain: bare_domain(team_domain@),
                issuer: "https://"@ + bare_domain(team_domain@),
                certs_url: "https://"@ + bare_domain(team_domain@) + "/cdn-cgi/access/certs"@,
                allowed_emails: normal_emails(text::views(allowed_emails@)),
            }),
    {
        let aud = match aud {
            Some(a) => {
                let t = text::trim(a.as_str());
                if t.as_str().is_empty() {
                    None
                } else {
                    Some(t)
                }
            },
            None => None,
        };
        let team_domain = normalize_team_domain(team_domain.as_str());
        let issuer = text::cat("https://", team_domain.as_str());
        let certs_url = text::cat(issuer.as_str(), "/cdn-cgi/access/certs");
        let ghost raw = text::views(allowed_emails@);
        let mut emails: Vec<String> = Vec::new();
        let mut i: usize = 0;
        assert(raw.take(0) =~= Seq::<Seq<char>>::empty());
        assert(text::views(emails@) =~= Seq::<Seq<char>>::empty());
        while i < allowed_emails.len()
            invariant
                i <= allowed_emails@.len(),
                raw == text::views(allowed_emails@),
                text::views(emails@) == normal_emails(raw.take(i as int)),
            decreases allowed_emails@.len() - i,
        {
            assert(raw.take(i + 1).drop_last() =~= raw.take(i as int));
            assert(raw[i as int] == allowed_emails@[i as int]@);
            let e = normalize_email(allowed_emails[i].as_str());
            if !e.as_str().is_empty() {
                let ghost before = emails@;
                emails.push(e);
                assert(text::views(emails@) =~= text::views(before).push(e@));
            }
            i = i + 1;
        }
        assert(raw.take(i as int) =~= raw);
        AccessVerifier { aud, team_domain, issuer, certs_url, allowed_emails: emails }
    }

    /// Is this verifier able to admit anyone at all?
    ///
    /// `false` means that it is in its fail-closed state: it still refuses every
    /// request, but the refusals are a misconfiguration rather than an attack.
    pub fn is_enforcing(&self) -> (r: bool)
        ensures
            r == enforcing(self@),
    {
        self.aud.is_some() && self.allowed_emails.len() > 0 && !self.team_domain.as_str().is_empty()
    }

    /// Why it is not enforcing, phrased for a startup log. `None` when it
    /// is enforcing.
    pub fn misconfiguration(&self) -> (r: Option<String>)
        ensures
            text::opt_view(r) == missing_setting(self@),
            r is None == enforcing(self@),
    {
        if self.aud.is_none() {
            return Some(
                "INDEXD_ACCESS_AUD is not set, so an Access assertion cannot be pinned to this application and one minted for any other app on the same team would otherwise verify. Failing closed: every console route returns 401 until you set it to the the console Access application's Application Audience tag (Cloudflare Zero Trust -> Access -> Applications -> your app).".to_owned(),
            );
        }
        if self.allowed_emails.len() == 0 {
            return Some(
                "the Access email allowlist is empty, so no identity can ever match. Failing closed: every console route returns 401 until INDEXD_ALLOWED_EMAILS names at least one address (owner@example.com).".to_owned(),
            );
        }
        if self.team_domain.as_str().is_empty() {
            return Some(
                "no Cloudflare team domain is configured, so the JWKS endpoint and the expected issuer cannot be derived. Failing closed: every console route returns 401.".to_owned(),
            );
        }
        None
    }

    /// The certs endpoint this verifier's signing keys come from.
    pub fn certs_url(&self) -> (r: &str)
        ensures
            r@ == self@.certs_url,
    {
        self.certs_url.as_str()
    }

    /// True only if `email` is on the allowlist, compared case-insensitively
    /// after trimming. A blank email is a refusal, not a pass.
    pub fn email_allowed(&self, email: &str) -> (r: bool)
        ensures
            r == (normal_email(email@).len() > 0 && self@.allowed_emails.contains(
                normal_email(email@),
            )),
    {
        let email = normalize_email(email);
        !email.as_str().is_empty() && has_text(&self.allowed_emails, email.as_str())
    }

    /// What is first made of an assertion whose header says that.
    pub fn begin_with(&self, jwt: &str, header: Result<Option<String>, String>) -> (r: Result<
        Assertion,
        String,
    >)
        ensures
            begun(
                self@,
                jwt@,
                match header {
                    Ok(kid) => Ok::<Option<Seq<char>>, Seq<char>>(text::opt_view(kid)),
                    Err(e) => Err(e@),
                },
            ) == match r {
                Ok(a) => Ok::<(Seq<char>, Seq<char>), Seq<char>>((a.jwt@, a.kid@)),
                Err(e) => Err(e@),
            },
    {
        match self.misconfiguration() {
            Some(e) => return Err(e),
            None => {},
        }
        let jwt = text::trim(jwt);
        if jwt.as_str().is_empty() {
            return Err("empty assertion".to_owned());
        }
        match header {
            Err(e) => Err(text::cat("unreadable JWT header: ", e.as_str())),
            Ok(None) => Err("JWT header names no kid".to_owned()),
            Ok(Some(kid)) => Ok(Assertion { jwt, kid }),
        }
    }

    /// Begin to verify an assertion: the verifier is configured at all, and the JWT
    /// header is readable and names a key.
    pub fn begin(&self, jwt: &str) -> (r: Result<Assertion, String>)
        ensures
            begun(self@, jwt@, header_kid_of(text::trimmed(jwt@))) == match r {
                Ok(a) => Ok::<(Seq<char>, Seq<char>), Seq<char>>((a.jwt@, a.kid@)),
                Err(e) => Err(e@),
            },
            !enforcing(self@) ==> r is Err,
            text::pieces(text::trimmed(jwt@), '.').len() < 3 ==> r is Err,
    {
        let trimmed = text::trim(jwt);
        let header = header_kid(trimmed.as_str());
        self.begin_with(jwt, header)
    }

    /// What is made of a signature check, given what is wrong with the key, if
    /// something is, and what the check gave.
    pub fn check_with(&self, kid: &str, fault: Option<String>, decoded: Result<String, String>) -> (r:
        Result<String, String>)
        ensures
            text::result_view(r) == checked(
                self@,
                kid@,
                text::opt_view(fault),
                text::result_view(decoded),
            ),
    {
        match self.misconfiguration() {
            Some(e) => return Err(e),
            None => {},
        }
        match fault {
            Some(fault) => {
                let mut e = text::cat3("unusable JWK ", kid, ": ");
                e.append(fault.as_str());
                return Err(e);
            },
            None => {},
        }
        match decoded {
            Ok(json) => Ok(json),
            Err(e) => Err(text::cat("assertion rejected: ", e.as_str())),
        }
    }

    /// Check an assertion with a key set that has its key: the key is usable, the
    /// signature holds, and the assertion is for this application, by this team and not
    /// expired. What comes back is the JSON text of the claims that were signed.
    ///
    /// Whether the signature check succeeds also rests on the clock. What comes
    /// back is what [`AccessVerifier::check_with`] makes of its result, and a
    /// success of it carries the signed claims.
    pub fn authenticate(&self, a: &Assertion, jwks: &str) -> (r: Result<String, String>)
        ensures
            exists|decoded: Result<Seq<char>, Seq<char>>|
                #![trigger checked(self@, a.kid@, key_fault_of(jwks@, a.kid@), decoded)]
                text::result_view(r) == checked(
                    self@,
                    a.kid@,
                    key_fault_of(jwks@, a.kid@),
                    decoded,
                ) && (decoded matches Ok(json) ==> self@.aud matches Some(aud) && signed_claims_of(
                    a.jwt@,
                    jwks@,
                    a.kid@,
                    SIGNING_ALGORITHM@,
                    aud,
                    self@.issuer,
                ) == Some(json)),
            !enforcing(self@) ==> (r matches Err(e) && e@ == missing_setting(self@)->0),
            enforcing(self@) ==> (key_fault_of(jwks@, a.kid@) matches Some(fault) ==> (r matches Err(
                e,
            ) && e@ == "unusable JWK "@ + a.kid@ + ": "@ + fault)),
    {
        let decoded = match &self.aud {
            Some(aud) => signed_claims(
                a.jwt.as_str(),
                jwks,
                a.kid.as_str(),
                SIGNING_ALGORITHM,
                aud.as_str(),
                self.issuer.as_str(),
            ),
            None => Err("no audience".to_owned()),
        };
        let ghost d = text::result_view(decoded);
        let fault = key_fault(jwks, a.kid.as_str());
        let r = self.check_with(a.kid.as_str(), fault, decoded);
        assert(text::result_view(r) == checked(self@, a.kid@, key_fault_of(jwks@, a.kid@), d));
        r
    }

    /// Conclude the verification of an authentic assertion with the claims that its
    /// text holds, or why it holds none: the claims are for this application and by
    /// this team, the time is right, and the email, which is returned, is on the
    /// allowlist.
    pub fn conclude(&self, claims: Result<Claims, String>, now: u64) -> (r: Result<String, String>)
        ensures
            text::result_view(r) == concluded(self@, claims_view(claims), now),
    {
        match self.misconfiguration() {
            Some(e) => return Err(e),
            None => {},
        }
        let claims = match claims {
            Ok(c) => c,
            Err(e) => return Err(text::cat("assertion rejected: ", e.as_str())),
        };
        let empty = String::new();
        let aud: &str = match &self.aud {
            Some(a) => a.as_str(),
            None => empty.as_str(),
        };
        validate_claims(&claims, aud, self.issuer.as_str(), &self.allowed_emails, now)
    }
}

// ---------------------------------------------------------------------------
// The request
// ---------------------------------------------------------------------------

/// The verified Access email. Already normalized.
#[derive(Debug, Clone)]
pub struct AuthedEmail(pub String);

/// Seconds since the Unix epoch; 0 where the clock stands before it.
pub fn now_secs() -> u64 {
    secs_of(epoch_secs())
}

/// A reading of the clock, in seconds.
pub fn secs_of(secs: Option<u64>) -> (r: u64)
    ensures
        r == match secs {
            Some(s) => s,
            None => 0u64,
        },
{
    match secs {
        Some(s) => s,
        None => 0,
    }
}

/// The value of the first assertion cookie among the pairs from `k` on, trimmed.
pub open spec fn cookie_among(pairs: Seq<Seq<char>>, k: int) -> Option<Seq<char>>
    decreases pairs.len() - k,
{
    if k < 0 || k >= pairs.len() {
        None
    } else {
        match text::split_at_first(pairs[k], '=') {
            Some((name, value)) => if text::trimmed(name) == ASSERTION_COOKIE@ {
                Some(text::trimmed(value))
            } else {
                cookie_among(pairs, k + 1)
            },
            None => cookie_among(pairs, k + 1),
        }
    }
}

/// The value of the first assertion cookie in the `Cookie` headers from `i` on.
pub open spec fn cookie_in(cookies: Seq<Seq<char>>, i: int) -> Option<Seq<char>>
    decreases cookies.len() - i,
{
    if i < 0 || i >= cookies.len() {
        None
    } else {
        match cookie_among(text::pieces(cookies[i], ';'), 0) {
            Some(v) => Some(v),
            None => cookie_in(cookies, i + 1),
        }
    }
}

/// The assertion that a request carries.
pub open spec fn assertion_of(header: Option<Seq<char>>, cookies: Seq<Seq<char>>) -> Option<
    Seq<char>,
> {
    if header matches Some(h) && text::trimmed(h).len() > 0 {
        Some(text::trimmed(header->0))
    } else {
        match cookie_in(cookies, 0) {
            Some(v) => if v.len() > 0 {
                Some(v)
            } else {
                None
            },
            None => None,
        }
    }
}

fn find_cookie(pairs: &Vec<String>) -> (r: Option<String>)
    ensures
        text::opt_view(r) == cookie_among(text::views(pairs@), 0),
{
    let ghost all = text::views(pairs@);
    let mut k: usize = 0;
    while k < pairs.len()
        invariant
            k <= pairs@.len(),
            all == text::views(pairs@),
            cookie_among(all, k as int) == cookie_among(all, 0),
        decreases pairs@.len() - k,
    {
        assert(all[k as int] == pairs@[k as int]@);
        match text::split_once(pairs[k].as_str(), '=') {
            Some((name, value)) => {
                if text::same(text::trim(name.as_str()).as_str(), ASSERTION_COOKIE) {
                    return Some(text::trim(value.as_str()));
                }
            },
            None => {},
        }
        k = k + 1;
    }
    None
}

/// Pull the assertion off the request: the header `cloudflared` injects, else the
/// cookie a browser navigation carries. Both as far as they could be read.
pub fn assertion(header: Option<&str>, cookies: &Vec<String>) -> (r: Option<String>)
    ensures
        text::opt_view(r) == assertion_of(text::opt_str(header), text::views(cookies@)),
{
    match header {
        Some(h) => {
            let h = text::trim(h);
            if !h.as_str().is_empty() {
                return Some(h);
            }
        },
        None => {},
    }
    let ghost all = text::views(cookies@);
    let mut i: usize = 0;
    while i < cookies.len()
        invariant
            i <= cookies@.len(),
            all == text::views(cookies@),
            text::opt_str(header) matches Some(h) ==> text::trimmed(h).len() == 0,
            cookie_in(all, i as int) == cookie_in(all, 0),
        decreases cookies@.len() - i,
    {
        assert(all[i as int] == cookies@[i as int]@);
        let pairs = text::split(cookies[i].as_str(), ';');
        match find_cookie(&pairs) {
            Some(v) => return if v.as_str().is_empty() {
                None
            } else {
                Some(v)
            },
            None => {},
        }
        i = i + 1;
    }
    None
}

/// What to do about a request for the console.
#[derive(Debug)]
pub enum AccessStep {
    /// The path is open.
    Pass,
    /// Answer 401. The reason is for the log only.
    Refuse(String),
    /// Verify this assertion.
    Verify(String),
}

/// The step, over the view of its text.
pub enum AccessStepView {
    Pass,
    Refuse(Seq<char>),
    Verify(Seq<char>),
}

impl View for AccessStep {
    type V = AccessStepView;

    open spec fn view(&self) -> AccessStepView {
        match self {
            AccessStep::Pass => AccessStepView::Pass,
            AccessStep::Refuse(e) => AccessStepView::Refuse(e@),
            AccessStep::Verify(a) => AccessStepView::Verify(a@),
        }
    }
}

/// What is done about a request for the console.
pub open spec fn access_step(
    v: VerifierView,
    path: Seq<char>,
    header: Option<Seq<char>>,
    cookies: Seq<Seq<char>>,
) -> AccessStepView {
    if path == "/health"@ {
        AccessStepView::Pass
    } else if !enforcing(v) {
        AccessStepView::Refuse(missing_setting(v)->0)
    } else {
        match assertion_of(header, cookies) {
            Some(a) => AccessStepView::Verify(a),
            None => AccessStepView::Refuse(
                "no cf-access-jwt-assertion header and no CF_Authorization cookie"@,
            ),
        }
    }
}

/// The console requires a verified Access assertion. Misconfiguration refuses: it
/// does not fall through to open.
pub fn require_access(
    verifier: &AccessVerifier,
    path: &str,
    header: Option<&str>,
    cookies: &Vec<String>,
) -> (r: AccessStep)
    ensures
        r@ == access_step(verifier@, path@, text::opt_str(header), text::views(cookies@)),
{
    if is_open_path(path) {
        return AccessStep::Pass;
    }
    match verifier.misconfiguration() {
        Some(e) => return AccessStep::Refuse(e),
        None => {},
    }
    match assertion(header, cookies) {
        Some(a) => AccessStep::Verify(a),
        None => AccessStep::Refuse(
            "no cf-access-jwt-assertion header and no CF_Authorization cookie".to_owned(),
        ),
    }
}

// ---------------------------------------------------------------------------
// Laws
// ---------------------------------------------------------------------------

/// No key of a set is used past the lifetime of the set, whether or not the set has
/// it: the set is fetched again first.
pub proof fn law_a_withdrawn_key_is_not_used_for_long(c: KeyCacheView, kid: Seq<char>, now_ms: u64)
    requires
        !is_fresh(c, now_ms),
    ensures
        cache_step(c, kid, now_ms) is Fetch,
{
}

/// A key that a fresh set does not have forces a refetch, so that a rotation costs no
/// lifetime of refusals.
pub proof fn law_an_unknown_key_forces_a_refetch(c: KeyCacheView, kid: Seq<char>, now_ms: u64)
    requires
        is_fresh(c, now_ms),
        !is_known(c, kid),
        !c.refetched,
    ensures
        cache_step(c, kid, now_ms) is Fetch,
        asked(c, kid, now_ms).refetched,
{
}

/// Once a key that a fresh set did not have has forced a refetch, no other does in
/// that lifetime, neither where the refetch failed nor in the lifetime of the set that
/// it brought: every unknown key is refused, and asking for it changes nothing.
pub proof fn law_one_refetch_per_lifetime(
    c: KeyCacheView,
    kid: Seq<char>,
    now_ms: u64,
    jwks: Seq<char>,
    known: Option<bool>,
    fetched_ms: u64,
    other: Seq<char>,
    later_ms: u64,
)
    requires
        is_fresh(c, now_ms),
        cache_step(c, kid, now_ms) is Fetch,
    ensures
        ({
            let d = refreshed(asked(c, kid, now_ms), jwks, known, fetched_ms);
            is_fresh(d, later_ms) && !is_known(d, other) ==> cache_step(d, other, later_ms) is Refuse
                && asked(d, other, later_ms) == d
        }),
        ({
            let d = asked(c, kid, now_ms);
            is_fresh(d, later_ms) && !is_known(d, other) ==> cache_step(d, other, later_ms) is Refuse
                && asked(d, other, later_ms) == d
        }),
{
}

/// A key that the team has withdrawn is refused once the set has been fetched anew:
/// what the old set had does not count.
pub proof fn law_a_withdrawn_key_is_refused(
    c: KeyCacheView,
    kid: Seq<char>,
    url: Seq<char>,
    jwks: Seq<char>,
    now_ms: u64,
)
    requires
        has_key_of(jwks, kid) == Some(false),
    ensures
        fetched_of(kid, url, has_key_of(jwks, kid)).1 is Some,
        !(cache_step(refreshed(c, jwks, has_key_of(jwks, kid), now_ms), kid, now_ms) is UseCached),
{
}

/// A verifier that lacks a setting refuses every assertion, whatever it says, and
/// every request but the one for the open path.
pub proof fn law_the_gate_fails_closed(
    v: VerifierView,
    jwt: Seq<char>,
    header: Result<Option<Seq<char>>, Seq<char>>,
    kid: Seq<char>,
    fault: Option<Seq<char>>,
    decoded: Result<Seq<char>, Seq<char>>,
    claims: Result<ClaimsView, Seq<char>>,
    now: u64,
    path: Seq<char>,
    presented: Option<Seq<char>>,
    cookies: Seq<Seq<char>>,
)
    requires
        v.aud is None || v.allowed_emails.len() == 0 || v.team_domain.len() == 0,
    ensures
        begun(v, jwt, header) is Err,
        checked(v, kid, fault, decoded) is Err,
        concluded(v, claims, now) is Err,
        path != "/health"@ ==> access_step(v, path, presented, cookies) is Refuse,
{
}

/// Whoever is let in is on the allowlist, by an assertion for this application, by
/// this team, and not expired; the email is in its normal form.
pub proof fn law_only_the_allowlist_gets_in(
    v: VerifierView,
    claims: Result<ClaimsView, Seq<char>>,
    now: u64,
)
    requires
        concluded(v, claims, now) is Ok,
    ensures
        ({
            let email = concluded(v, claims, now)->Ok_0;
            &&& enforcing(v)
            &&& email.len() > 0
            &&& v.allowed_emails.contains(email)
            &&& normal_email(email) == email
            &&& claims matches Ok(c)
            &&& c.aud is Some && names(c.aud->0, v.aud->0)
            &&& c.iss is Some && bare_issuer(c.iss->0) == v.issuer
            &&& c.exp + LEEWAY_SECS >= now
            &&& c.email is Some && normal_email(c.email->0) == email
        }),
{
    let c = claims->Ok_0;
    let raw = match c.email {
        Some(e) => e,
        None => Seq::empty(),
    };
    law_normal_email_is_a_fixed_point(raw);
    if c.email is None {
        assert(text::trimmed(raw) =~= raw);
    }
}

/// Normalizing an email again changes nothing, and neither the case of its letters
/// nor the space around it matters.
pub proof fn law_normal_email_is_a_fixed_point(email: Seq<char>)
    ensures
        normal_email(normal_email(email)) == normal_email(email),
        normal_email(text::lowered(email)) == normal_email(email),
        normal_email(text::trimmed(email)) == normal_email(email),
{
    text::lemma_trimmed_idempotent(email);
    text::lemma_lowered_trimmed(text::trimmed(email));
    text::lemma_lowered_trimmed(email);
    text::lemma_lowered_idempotent(text::trimmed(email));
}

/// Whether a text is a bare host: no space around it, no scheme, no slash at its
/// end.
pub open spec fn is_bare(host: Seq<char>) -> bool {
    &&& host.len() > 0
    &&& !text::white(host[0])
    &&& !text::white(host.last())
    &&& host.last() != '/'
    &&& !text::occurs_at(host, "https://"@, 0)
    &&& !text::occurs_at(host, "http://"@, 0)
}

/// A bare host is kept, and written with a scheme, a trailing slash or both it
/// means the same.
pub proof fn law_all_spellings_of_a_team_domain(host: Seq<char>)
    requires
        is_bare(host),
    ensures
        bare_domain(host) == host,
        bare_domain("https://"@ + host) == host,
        bare_domain("https://"@ + host + "/"@) == host,
        bare_domain("http://"@ + host + "/"@) == host,
{
    reveal_strlit("https://");
    reveal_strlit("http://");
    reveal_strlit("/");
    let https = "https://"@;
    let http = "http://"@;
    let slash = "/"@;
    let slashed = host + slash;
    text::lemma_scheme_then_slash(host, https);
    text::lemma_scheme_then_slash(host, http);
    assert(slashed.drop_last() =~= host);
    assert(text::without_end(slashed, '/') == host) by {
        assert(text::without_end(slashed.drop_last(), '/') == host);
    }
    text::lemma_without_start_once(https, host);
    text::lemma_without_start_once(https, slashed);
    text::lemma_without_start_once(http, host);
    text::lemma_without_start_once(http, slashed);
    assert(https + host + slash =~= https + slashed);
    assert(http + host + slash =~= http + slashed);
    assert(text::trimmed(https + host) == https + host);
    assert(text::trimmed(https + slashed) == https + slashed);
    assert(text::trimmed(http + slashed) == http + slashed);
    assert(!text::occurs_at(http + host + slash, https, 0)) by {
        assert((http + host + slash).subrange(0, 8)[4] == ':');
        assert(https[4] == 's');
    }
}

/// Someone on the allowlist gets in, at whatever place of the list they stand: with an
/// assertion for this application, alone or among others, from this team, with or
/// without slashes behind it, and up to a minute past its expiry. The identity is the
/// email of the claims, without white space round it and in lower case.
pub proof fn law_everyone_on_the_allowlist_gets_in(
    v: VerifierView,
    c: ClaimsView,
    now: u64,
    i: int,
    j: int,
    a: Seq<char>,
    m: Seq<char>,
    b: Seq<char>,
    x: Seq<char>,
    slashes: nat,
    y: Seq<char>,
)
    requires
        v.aud is Some,
        v.team_domain.len() > 0,
        v.issuer.len() > 0,
        !text::white(v.issuer[0]) && !text::white(v.issuer.last()) && v.issuer.last() != '/',
        0 <= i < v.allowed_emails.len(),
        v.allowed_emails[i] == text::lowered(m),
        c.email == Some(a + m + b),
        m.len() > 0 && !text::white(m[0]) && !text::white(m.last()),
        forall|k: int| 0 <= k < a.len() ==> text::white(#[trigger] a[k]),
        forall|k: int| 0 <= k < b.len() ==> text::white(#[trigger] b[k]),
        match c.aud {
            Some(AudienceView::One(aud)) => Some(aud) == v.aud,
            Some(AudienceView::Many(all)) => 0 <= j < all.len() && Some(all[j]) == v.aud,
            None => false,
        },
        c.iss == Some(x + (v.issuer + Seq::new(slashes, |k: int| '/')) + y),
        forall|k: int| 0 <= k < x.len() ==> text::white(#[trigger] x[k]),
        forall|k: int| 0 <= k < y.len() ==> text::white(#[trigger] y[k]),
        c.exp + 60 >= now,
    ensures
        concluded(v, Ok(c), now) == Ok::<Seq<char>, Seq<char>>(text::lowered(m)),
        claims_verdict(c, v.aud->0, v.issuer, v.allowed_emails, now) == Ok::<Seq<char>, Seq<char>>(
            text::lowered(m),
        ),
{
    text::law_trimmed_is_what_stands_between(a, m, b);
    let iss = v.issuer + Seq::new(slashes, |k: int| '/');
    assert(iss[0] == v.issuer[0]);
    assert(!text::white(iss.last()));
    text::law_trimmed_is_what_stands_between(x, iss, y);
    text::law_without_end(v.issuer, '/', slashes);
    assert(v.allowed_emails.contains(text::lowered(m)));
    assert(names(c.aud->0, v.aud->0));
}

/// Each defect of the claims refuses: no audience or another one, no issuer or another
/// one, an expiry more than a minute ago, no email, or one that no entry of the
/// allowlist is.
pub proof fn law_each_defect_is_refused(v: VerifierView, c: ClaimsView, now: u64)
    requires
        enforcing(v),
    ensures
        ({
            let r = concluded(v, Ok(c), now);
            let aud = v.aud->0;
            let email = match c.email {
                Some(e) => text::lowered(text::trimmed(e)),
                None => Seq::empty(),
            };
            &&& c.aud is None ==> r == Err::<Seq<char>, Seq<char>>(
                "assertion carries no aud claim"@,
            )
            &&& (c.aud matches Some(AudienceView::One(other)) && other != aud) ==> r == Err::<
                Seq<char>,
                Seq<char>,
            >("assertion was minted for a different application"@)
            &&& (c.aud matches Some(AudienceView::Many(all)) && forall|k: int|
                0 <= k < all.len() ==> #[trigger] all[k] != aud) ==> r == Err::<
                Seq<char>,
                Seq<char>,
            >("assertion was minted for a different application"@)
            &&& c.iss is None ==> r is Err
            &&& (c.iss matches Some(iss) && text::without_end(text::trimmed(iss), '/') != v.issuer)
                ==> r is Err
            &&& c.exp + 60 < now ==> r is Err
            &&& c.email is None ==> r is Err
            &&& (forall|k: int| 0 <= k < v.allowed_emails.len() ==> #[trigger] v.allowed_emails[k]
                != email) ==> r is Err
        }),
        forall|e: Seq<char>|
            #[trigger] concluded(v, Err(e), now) == Err::<Seq<char>, Seq<char>>(
                "assertion rejected: "@ + e,
            ),
{
    let e = Seq::<char>::empty();
    assert(text::trimmed(e).len() == 0);
    assert(text::lowered(text::trimmed(e)).len() == 0);
}

/// The reason of a refusal, where nothing before it is wrong.
pub proof fn law_a_refusal_names_the_first_defect(v: VerifierView, c: ClaimsView, now: u64)
    requires
        enforcing(v),
        c.aud matches Some(aud) && names(aud, v.aud->0),
    ensures
        ({
            let r = concluded(v, Ok(c), now);
            let iss = text::without_end(text::trimmed(c.iss->0), '/');
            &&& c.iss is None ==> r == Err::<Seq<char>, Seq<char>>(
                "assertion carries no iss claim"@,
            )
            &&& c.iss is Some && iss != v.issuer ==> r == Err::<Seq<char>, Seq<char>>(
                "assertion issued by "@ + iss + ", not by this team ("@ + v.issuer + ")"@,
            )
            &&& c.iss is Some && iss == v.issuer && c.exp + 60 < now ==> r == Err::<
                Seq<char>,
                Seq<char>,
            >(
                "assertion expired at "@ + text::decimal(c.exp as nat) + " (now "@ + text::decimal(
                    now as nat,
                ) + ")"@,
            )
            &&& c.iss is Some && iss == v.issuer && c.exp + 60 >= now && c.email is None ==> r
                == Err::<Seq<char>, Seq<char>>("assertion carries no email claim"@)
        }),
{
    let e = Seq::<char>::empty();
    assert(text::trimmed(e).len() == 0);
    assert(text::lowered(text::trimmed(e)).len() == 0);
}

/// An audience names this application where it is it, or has it at any place.
pub proof fn law_an_audience_is_searched_whole(all: Seq<Seq<char>>, one: Seq<char>, want: Seq<char>)
    ensures
        names(AudienceView::One(one), want) == (one == want),
        names(AudienceView::Many(all), want) == (exists|k: int|
            0 <= k < all.len() && #[trigger] all[k] == want),
{
}

/// The allowlist of a verifier takes the addresses in their order, without white space
/// round them and in lower case, and passes blank ones over; its audience is the one
/// given, without white space round it, and a blank one is none.
pub proof fn law_a_verifier_keeps_what_it_is_given(
    emails: Seq<Seq<char>>,
    a: Seq<char>,
    m: Seq<char>,
    b: Seq<char>,
)
    requires
        forall|k: int| 0 <= k < a.len() ==> text::white(#[trigger] a[k]),
        forall|k: int| 0 <= k < b.len() ==> text::white(#[trigger] b[k]),
        m.len() > 0 ==> !text::white(m[0]) && !text::white(m.last()),
    ensures
        normal_email(a + m + b) == text::lowered(m),
        normal_emails(Seq::empty()) == Seq::<Seq<char>>::empty(),
        m.len() > 0 ==> normal_emails(emails.push(a + m + b)) == normal_emails(emails).push(
            text::lowered(m),
        ),
        m.len() == 0 ==> normal_emails(emails.push(a + m + b)) == normal_emails(emails),
        m.len() > 0 ==> given_aud(Some(a + m + b)) == Some(m),
        m.len() == 0 ==> given_aud(Some(a + m + b)) is None,
        given_aud(None) is None,
{
    text::law_trimmed_is_what_stands_between(a, m, b);
    assert(emails.push(a + m + b).drop_last() =~= emails);
}

/// A verifier enforces exactly where it has an audience, an allowlist and a team, and
/// says what is missing exactly where it does not.
pub proof fn law_three_settings_are_needed(v: VerifierView)
    ensures
        enforcing(v) == (v.aud is Some && v.allowed_emails.len() > 0 && v.team_domain.len() > 0),
        missing_setting(v) is None == (v.aud is Some && v.allowed_emails.len() > 0
            && v.team_domain.len() > 0),
{
}

/// A key set is used for five minutes from when it was fetched: until then a key that
/// it has is used, and one that it has not forces one fetch and is refused after that;
/// from then on, and where nothing was fetched yet, it is fetched.
pub proof fn law_a_key_set_lives_five_minutes(
    c: KeyCacheView,
    kid: Seq<char>,
    now_ms: u64,
    jwks: Seq<char>,
)
    ensures
        c.jwks is None ==> cache_step(c, kid, now_ms) is Fetch && !asked(c, kid, now_ms).refetched,
        c.jwks is Some && now_ms - c.fetched_ms >= 300_000 ==> cache_step(c, kid, now_ms) is Fetch
            && !asked(c, kid, now_ms).refetched,
        c.jwks == Some(jwks) && now_ms - c.fetched_ms < 300_000 ==> ({
            let step = cache_step(c, kid, now_ms);
            &&& has_key_of(jwks, kid) == Some(true) ==> step is UseCached && asked(
                c,
                kid,
                now_ms,
            ) == c
            &&& has_key_of(jwks, kid) != Some(true) && !c.refetched ==> step is Fetch && asked(
                c,
                kid,
                now_ms,
            ).refetched
            &&& has_key_of(jwks, kid) != Some(true) && c.refetched ==> step
                == KeyStepView::Refuse(
                "no signing key for kid "@ + kid + " in the cached team JWKS"@,
            ) && asked(c, kid, now_ms) == c
        }),
        asked(c, kid, now_ms).jwks == c.jwks,
        asked(c, kid, now_ms).fetched_ms == c.fetched_ms,
{
}

/// A key set that was fetched is kept from then on, whether or not it has the key that
/// was looked for; one that cannot be read changes nothing. The key is refused unless
/// the set has it.
pub proof fn law_a_fetched_key_set_is_kept(
    c: KeyCacheView,
    kid: Seq<char>,
    url: Seq<char>,
    jwks: Seq<char>,
    now_ms: u64,
)
    ensures
        ({
            let known = has_key_of(jwks, kid);
            let d = refreshed(c, jwks, known, now_ms);
            &&& known is Some ==> d.jwks == Some(jwks) && d.fetched_ms == now_ms && d.refetched
                == c.refetched
            &&& known is None ==> d == c
            &&& known == Some(true) ==> fetched_of(kid, url, known) == (true, None::<Seq<char>>)
            &&& known == Some(false) ==> fetched_of(kid, url, known) == (
                true,
                Some("no signing key for kid "@ + kid + " in the team JWKS"@),
            )
            &&& known is None ==> fetched_of(kid, url, known) == (
                false,
                Some("malformed JWKS from "@ + url + ": error decoding response body"@),
            )
            &&& known == Some(true) ==> cache_step(d, kid, now_ms) is UseCached
        }),
{
}

/// Beginning a verification gives the assertion without white space round it and the
/// key that its header names; a blank assertion, a header that cannot be read and one
/// that names no key are each refused.
pub proof fn law_a_verification_begins_with_its_key(
    v: VerifierView,
    a: Seq<char>,
    m: Seq<char>,
    b: Seq<char>,
    kid: Seq<char>,
    error: Seq<char>,
)
    requires
        enforcing(v),
        forall|k: int| 0 <= k < a.len() ==> text::white(#[trigger] a[k]),
        forall|k: int| 0 <= k < b.len() ==> text::white(#[trigger] b[k]),
        m.len() > 0 ==> !text::white(m[0]) && !text::white(m.last()),
    ensures
        ({
            let jwt = a + m + b;
            &&& m.len() > 0 ==> begun(v, jwt, Ok(Some(kid))) == Ok::<
                (Seq<char>, Seq<char>),
                Seq<char>,
            >((m, kid))
            &&& m.len() > 0 ==> begun(v, jwt, Ok(None)) == Err::<
                (Seq<char>, Seq<char>),
                Seq<char>,
            >("JWT header names no kid"@)
            &&& m.len() > 0 ==> begun(v, jwt, Err(error)) == Err::<
                (Seq<char>, Seq<char>),
                Seq<char>,
            >("unreadable JWT header: "@ + error)
            &&& m.len() == 0 ==> begun(v, jwt, Ok(Some(kid))) == Err::<
                (Seq<char>, Seq<char>),
                Seq<char>,
            >("empty assertion"@)
        }),
{
    text::law_trimmed_is_what_stands_between(a, m, b);
}

/// The claims of an assertion whose signature was checked are handed on as they are; a
/// key that cannot be used and a signature that does not hold are each refused.
pub proof fn law_only_signed_claims_are_handed_on(
    v: VerifierView,
    kid: Seq<char>,
    fault: Seq<char>,
    decoded: Result<Seq<char>, Seq<char>>,
    json: Seq<char>,
    error: Seq<char>,
)
    requires
        enforcing(v),
    ensures
        checked(v, kid, None, Ok(json)) == Ok::<Seq<char>, Seq<char>>(json),
        checked(v, kid, None, Err(error)) == Err::<Seq<char>, Seq<char>>(
            "assertion rejected: "@ + error,
        ),
        checked(v, kid, Some(fault), decoded) == Err::<Seq<char>, Seq<char>>(
            "unusable JWK "@ + kid + ": "@ + fault,
        ),
{
}

/// Whether a part of a cookie header is the assertion's cookie, with that value.
pub open spec fn holds_assertion(pair: Seq<char>, value: Seq<char>) -> bool {
    exists|name: Seq<char>|
        !name.contains('=') && text::trimmed(name) == "CF_Authorization"@ && pair == #[trigger] (name
            + seq!['='] + value)
}

proof fn lemma_pair(pair: Seq<char>, value: Seq<char>)
    requires
        holds_assertion(pair, value),
    ensures
        text::split_at_first(pair, '=') matches Some((name, v)) && text::trimmed(name)
            == "CF_Authorization"@ && v == value,
{
    let name = choose|name: Seq<char>|
        !name.contains('=') && text::trimmed(name) == "CF_Authorization"@ && pair == #[trigger] (name
            + seq!['='] + value);
    text::law_pieces(name, '=', value);
}

proof fn lemma_no_pair(pair: Seq<char>)
    requires
        forall|value: Seq<char>| !#[trigger] holds_assertion(pair, value),
    ensures
        text::split_at_first(pair, '=') matches Some((name, v)) ==> text::trimmed(name)
            != "CF_Authorization"@,
{
    match text::split_at_first(pair, '=') {
        Some((name, v)) => {
            text::lemma_index_of(pair, '=');
            let n = text::index_of(pair, '=');
            assert(pair =~= name + seq!['='] + v);
            assert(!name.contains('=')) by {
                if name.contains('=') {
                    let k = choose|k: int| 0 <= k < name.len() && name[k] == '=';
                    assert(pair[k] == '=');
                }
            }
            assert(!holds_assertion(pair, v));
        },
        None => {},
    }
}

proof fn lemma_cookie_among(pairs: Seq<Seq<char>>, from: int, k: int, value: Seq<char>)
    requires
        0 <= from <= k < pairs.len(),
        holds_assertion(pairs[k], value),
        forall|j: int, other: Seq<char>|
            from <= j < k ==> !#[trigger] holds_assertion(pairs[j], other),
    ensures
        cookie_among(pairs, from) == Some(text::trimmed(value)),
    decreases k - from,
{
    if from == k {
        lemma_pair(pairs[k], value);
    } else {
        lemma_no_pair(pairs[from]);
        lemma_cookie_among(pairs, from + 1, k, value);
    }
}

proof fn lemma_no_cookie_among(pairs: Seq<Seq<char>>, from: int)
    requires
        0 <= from <= pairs.len(),
        forall|j: int, other: Seq<char>|
            from <= j < pairs.len() ==> !#[trigger] holds_assertion(pairs[j], other),
    ensures
        cookie_among(pairs, from) is None,
    decreases pairs.len() - from,
{
    if from < pairs.len() {
        lemma_no_pair(pairs[from]);
        lemma_no_cookie_among(pairs, from + 1);
    }
}

proof fn lemma_cookie_in(
    cookies: Seq<Seq<char>>,
    from: int,
    i: int,
    k: int,
    value: Seq<char>,
)
    requires
        0 <= from <= i < cookies.len(),
        0 <= k < text::pieces(cookies[i], ';').len(),
        holds_assertion(text::pieces(cookies[i], ';')[k], value),
        forall|j: int, other: Seq<char>|
            0 <= j < k ==> !#[trigger] holds_assertion(text::pieces(cookies[i], ';')[j], other),
        forall|h: int, j: int, other: Seq<char>|
            from <= h < i && 0 <= j < text::pieces(cookies[h], ';').len()
                ==> !#[trigger] holds_assertion(text::pieces(cookies[h], ';')[j], other),
    ensures
        cookie_in(cookies, from) == Some(text::trimmed(value)),
    decreases i - from,
{
    if from == i {
        lemma_cookie_among(text::pieces(cookies[i], ';'), 0, k, value);
    } else {
        lemma_no_cookie_among(text::pieces(cookies[from], ';'), 0);
        lemma_cookie_in(cookies, from + 1, i, k, value);
    }
}

/// An assertion in its own header is the one that is used, without white space round it.
/// Without one there the first cookie of its name is, in whatever cookie header and at
/// whatever place in it.
pub proof fn law_an_assertion_is_found_wherever_it_stands(
    header: Option<Seq<char>>,
    cookies: Seq<Seq<char>>,
    a: Seq<char>,
    m: Seq<char>,
    b: Seq<char>,
    i: int,
    k: int,
    value: Seq<char>,
)
    requires
        forall|n: int| 0 <= n < a.len() ==> text::white(#[trigger] a[n]),
        forall|n: int| 0 <= n < b.len() ==> text::white(#[trigger] b[n]),
        m.len() > 0 ==> !text::white(m[0]) && !text::white(m.last()),
        header is None || header == Some(a + m + b),
        0 <= i < cookies.len(),
        0 <= k < text::pieces(cookies[i], ';').len(),
        holds_assertion(text::pieces(cookies[i], ';')[k], value),
        forall|j: int, other: Seq<char>|
            0 <= j < k ==> !#[trigger] holds_assertion(text::pieces(cookies[i], ';')[j], other),
        forall|h: int, j: int, other: Seq<char>|
            0 <= h < i && 0 <= j < text::pieces(cookies[h], ';').len()
                ==> !#[trigger] holds_assertion(text::pieces(cookies[h], ';')[j], other),
    ensures
        ASSERTION_HEADER@ == "cf-access-jwt-assertion"@,
        header is Some && m.len() > 0 ==> assertion_of(header, cookies) == Some(m),
        header is None || m.len() == 0 ==> assertion_of(header, cookies) == (if text::trimmed(
            value,
        ).len() > 0 {
            Some(text::trimmed(value))
        } else {
            None
        }),
{
    text::law_trimmed_is_what_stands_between(a, m, b);
    lemma_cookie_in(cookies, 0, i, k, value);
}

/// An assertion in its header is used whatever the cookies are, and without one in the
/// header or in a cookie there is none.
pub proof fn law_no_assertion_is_made_up(
    cookies: Seq<Seq<char>>,
    i: int,
    a: Seq<char>,
    m: Seq<char>,
    b: Seq<char>,
)
    requires
        forall|n: int| 0 <= n < a.len() ==> text::white(#[trigger] a[n]),
        forall|n: int| 0 <= n < b.len() ==> text::white(#[trigger] b[n]),
        m.len() > 0 && !text::white(m[0]) && !text::white(m.last()),
        0 <= i <= cookies.len(),
    ensures
        assertion_of(Some(a + m + b), cookies) == Some(m),
        (forall|h: int, j: int, other: Seq<char>|
            i <= h < cookies.len() && 0 <= j < text::pieces(cookies[h], ';').len()
                ==> !#[trigger] holds_assertion(text::pieces(cookies[h], ';')[j], other))
            ==> cookie_in(cookies, i) is None && (i == 0 ==> assertion_of(None, cookies) is None),
    decreases cookies.len() - i,
{
    text::law_trimmed_is_what_stands_between(a, m, b);
    if i < cookies.len() && (forall|h: int, j: int, other: Seq<char>|
        i <= h < cookies.len() && 0 <= j < text::pieces(cookies[h], ';').len()
            ==> !#[trigger] holds_assertion(text::pieces(cookies[h], ';')[j], other)) {
        lemma_no_cookie_among(text::pieces(cookies[i], ';'), 0);
        law_no_assertion_is_made_up(cookies, i + 1, a, m, b);
    }
}

/// The health check passes without anything. Of any other path a verifier that enforces
/// checks the assertion that was presented, and refuses where none was.
pub proof fn law_every_path_but_health_is_checked(
    v: VerifierView,
    path: Seq<char>,
    header: Option<Seq<char>>,
    cookies: Seq<Seq<char>>,
)
    ensures
        access_step(v, "/health"@, header, cookies) is Pass,
        path != "/health"@ ==> !(access_step(v, path, header, cookies) is Pass),
        path != "/health"@ && v.aud is Some && v.allowed_emails.len() > 0 && v.team_domain.len() > 0
            ==> access_step(v, path, header, cookies) == (match assertion_of(header, cookies) {
            Some(a) => AccessStepView::Verify(a),
            None => AccessStepView::Refuse(
                "no cf-access-jwt-assertion header and no CF_Authorization cookie"@,
            ),
        }),
{
}

proof fn lemma_normal_emails_have(emails: Seq<Seq<char>>, i: int)
    requires
        0 <= i < emails.len(),
        normal_email(emails[i]).len() > 0,
    ensures
        normal_emails(emails).contains(normal_email(emails[i])),
    decreases emails.len(),
{
    let init = emails.drop_last();
    let rest = normal_emails(init);
    let e = normal_email(emails.last());
    if i == emails.len() - 1 {
        assert(rest.push(e)[rest.len() as int] == e);
    } else {
        assert(init[i] == emails[i]);
        lemma_normal_emails_have(init, i);
        let k = choose|k: int| 0 <= k < rest.len() && rest[k] == normal_email(emails[i]);
        if e.len() > 0 {
            assert(rest.push(e)[k] == rest[k]);
        }
    }
}

proof fn lemma_normal_emails_come_from(emails: Seq<Seq<char>>, e: Seq<char>)
    requires
        normal_emails(emails).contains(e),
    ensures
        e.len() > 0,
        exists|i: int| 0 <= i < emails.len() && normal_email(#[trigger] emails[i]) == e,
    decreases emails.len(),
{
    if emails.len() > 0 {
        let init = emails.drop_last();
        let rest = normal_emails(init);
        let last = normal_email(emails.last());
        if last.len() > 0 && last == e {
            assert(normal_email(emails[emails.len() - 1]) == e);
        } else {
            assert(rest.contains(e)) by {
                let k = choose|k: int|
                    0 <= k < normal_emails(emails).len() && normal_emails(emails)[k] == e;
                assert(rest[k] == e);
            }
            lemma_normal_emails_come_from(init, e);
            let i = choose|i: int| 0 <= i < init.len() && normal_email(#[trigger] init[i]) == e;
            assert(emails[i] == init[i]);
        }
    }
}

/// A verifier lets in whoever it was made for. Made with an audience, a team and a list
/// of addresses, it accepts claims for that audience, from that team and not past their
/// expiry by more than a minute, of any address of the list, however its case and the
/// white space round it are written there or in the claims.
pub proof fn law_a_verifier_lets_in_whoever_it_was_made_for(
    aud: String,
    team: String,
    emails: Vec<String>,
    v: AccessVerifier,
    c: Claims,
    now: u64,
    r: Result<String, String>,
    i: int,
    a: Seq<char>,
    m: Seq<char>,
    b: Seq<char>,
)
    requires
        call_ensures(AccessVerifier::new, (Some(aud), team, emails), v),
        call_ensures(AccessVerifier::conclude, (&v, Ok(c), now), r),
        text::trimmed(aud@).len() > 0,
        is_bare(team@),
        0 <= i < emails@.len(),
        text::lowered(text::trimmed(emails@[i]@)) == text::lowered(m),
        c.email matches Some(e) && e@ == a + m + b,
        m.len() > 0 && !text::white(m[0]) && !text::white(m.last()),
        forall|k: int| 0 <= k < a.len() ==> text::white(#[trigger] a[k]),
        forall|k: int| 0 <= k < b.len() ==> text::white(#[trigger] b[k]),
        c.aud matches Some(Audience::One(x)) && x@ == text::trimmed(aud@),
        c.iss matches Some(s) && s@ == "https://"@ + team@,
        c.exp + 60 >= now,
    ensures
        r matches Ok(who) && who@ == text::lowered(m),
{
    law_all_spellings_of_a_team_domain(team@);
    lemma_normal_emails_have(text::views(emails@), i);
    let list = v@.allowed_emails;
    let k = choose|k: int| 0 <= k < list.len() && list[k] == text::lowered(m);
    reveal_strlit("https://");
    let issuer = "https://"@ + team@;
    let none = Seq::<char>::empty();
    assert(none + (issuer + Seq::new(0, |n: int| '/')) + none =~= issuer);
    law_everyone_on_the_allowlist_gets_in(
        v@,
        c@,
        now,
        k,
        0,
        a,
        m,
        b,
        none,
        0,
        none,
    );
}

/// And nobody else: whoever it accepts has an address of the list that it was made with.
pub proof fn law_a_verifier_lets_nobody_else_in(
    aud: Option<String>,
    team: String,
    emails: Vec<String>,
    v: AccessVerifier,
    c: Claims,
    now: u64,
    who: String,
)
    requires
        call_ensures(AccessVerifier::new, (aud, team, emails), v),
        call_ensures(AccessVerifier::conclude, (&v, Ok(c), now), Ok(who)),
    ensures
        aud matches Some(x) && text::trimmed(x@).len() > 0,
        exists|i: int|
            0 <= i < emails@.len() && text::lowered(text::trimmed((#[trigger] emails@[i])@))
                == who@,
        c.email matches Some(e) && text::lowered(text::trimmed(e@)) == who@,
        c.exp + 60 >= now,
{
    law_only_the_allowlist_gets_in(v@, Ok(c@), now);
    lemma_normal_emails_come_from(text::views(emails@), who@);
    let i = choose|i: int|
        0 <= i < text::views(emails@).len() && normal_email(#[trigger] text::views(emails@)[i])
            == who@;
    assert(text::views(emails@)[i] == emails@[i]@);
}

/// What a verifier is made of: the keys and the issuer are those of its team, however the
/// team is written, and an address is allowed where it is on the list.
pub proof fn law_a_verifier_knows_its_team(
    aud: Option<String>,
    team: String,
    emails: Vec<String>,
    v: AccessVerifier,
    host: Seq<char>,
    email: &str,
    i: int,
)
    requires
        call_ensures(AccessVerifier::new, (aud, team, emails), v),
        is_bare(host),
        team@ == host || team@ == "https://"@ + host || team@ == "https://"@ + host + "/"@
            || team@ == "http://"@ + host + "/"@,
    ensures
        forall|url: &str| #[trigger]
            call_ensures(AccessVerifier::certs_url, (&v,), url) ==> url@ == "https://"@ + host
                + "/cdn-cgi/access/certs"@,
        v@.issuer == "https://"@ + host,
        forall|r: bool|
            0 <= i < emails@.len() && text::lowered(text::trimmed(emails@[i]@)) == text::lowered(
                text::trimmed(email@),
            ) && text::trimmed(email@).len() > 0 && #[trigger] call_ensures(
                AccessVerifier::email_allowed,
                (&v, email),
                r,
            ) ==> r,
{
    law_all_spellings_of_a_team_domain(host);
    if 0 <= i < emails@.len() && text::lowered(text::trimmed(emails@[i]@)) == text::lowered(
        text::trimmed(email@),
    ) && text::trimmed(email@).len() > 0 {
        assert(normal_email(text::views(emails@)[i]).len() > 0);
        lemma_normal_emails_have(text::views(emails@), i);
    }
}

/// What a verifier accepts as claims was signed with the key that the assertion names, in
/// the one algorithm that is allowed, for its audience and by its issuer.
pub proof fn law_claims_are_signed_for_this_verifier(
    v: &AccessVerifier,
    a: &Assertion,
    jwks: &str,
    json: String,
)
    requires
        call_ensures(AccessVerifier::authenticate, (v, a, jwks), Ok(json)),
    ensures
        v@.aud matches Some(aud) && signed_claims_of(
            a.jwt@,
            jwks@,
            a.kid@,
            "RS256"@,
            aud,
            v@.issuer,
        ) == Some(json@),
        key_fault_of(jwks@, a.kid@) is None,
{
}

/// A verification begins with the assertion, without white space round it, and the key
/// that the header of it names.
pub proof fn law_the_key_is_read_off_the_assertion(
    v: &AccessVerifier,
    jwt: &str,
    a: Seq<char>,
    m: Seq<char>,
    b: Seq<char>,
    r: Result<Assertion, String>,
    kid: Seq<char>,
)
    requires
        call_ensures(AccessVerifier::begin, (v, jwt), r),
        enforcing(v@),
        jwt@ == a + m + b,
        forall|k: int| 0 <= k < a.len() ==> text::white(#[trigger] a[k]),
        forall|k: int| 0 <= k < b.len() ==> text::white(#[trigger] b[k]),
        m.len() > 0 && !text::white(m[0]) && !text::white(m.last()),
    ensures
        header_kid_of(m) == Ok::<Option<Seq<char>>, Seq<char>>(Some(kid)) ==> (r matches Ok(begun)
            && begun.jwt@ == m && begun.kid@ == kid),
        header_kid_of(m) is Err || header_kid_of(m) == Ok::<Option<Seq<char>>, Seq<char>>(None)
            ==> r is Err,
{
    text::law_trimmed_is_what_stands_between(a, m, b);
}

/// A key set that was fetched and has the key is used for that key for five minutes, and
/// fetched anew after that.
pub proof fn law_a_fetched_key_is_used(
    kid: &str,
    url: &str,
    jwks: &str,
    now_ms: u64,
    later_ms: u64,
    refusal: Option<String>,
    step: KeyStep,
)
    requires
        has_key_of(jwks@, kid@) == Some(true),
    ensures
        forall|c: &mut KeyCache, d: &mut KeyCache|
            #![trigger call_ensures(KeyCache::fetched, (c, kid, url, jwks, now_ms), refusal), call_ensures(KeyCache::key_for, (d, kid, later_ms), step)]
            call_ensures(KeyCache::fetched, (c, kid, url, jwks, now_ms), refusal) && call_ensures(
                KeyCache::key_for,
                (d, kid, later_ms),
                step,
            ) && d@ == final(c)@ ==> {
                &&& refusal is None
                &&& final(c)@.jwks == Some(jwks@)
                &&& later_ms - now_ms < 300_000 ==> step is UseCached
                &&& later_ms - now_ms >= 300_000 ==> step is Fetch
            },
{
    assert forall|c: &mut KeyCache, d: &mut KeyCache|
        #![trigger call_ensures(KeyCache::fetched, (c, kid, url, jwks, now_ms), refusal), call_ensures(KeyCache::key_for, (d, kid, later_ms), step)]
        call_ensures(KeyCache::fetched, (c, kid, url, jwks, now_ms), refusal) && call_ensures(
            KeyCache::key_for,
            (d, kid, later_ms),
            step,
        ) && d@ == final(c)@ implies {
        &&& refusal is None
        &&& final(c)@.jwks == Some(jwks@)
        &&& later_ms - now_ms < 300_000 ==> step is UseCached
        &&& later_ms - now_ms >= 300_000 ==> step is Fetch
    } by {
        law_a_key_set_lives_five_minutes(d@, kid@, later_ms, jwks@);
        law_a_fetched_key_set_is_kept(c@, kid@, url@, jwks@, now_ms);
    }
}

/// A verifier enforces exactly where it says that nothing is missing.
pub proof fn law_a_verifier_says_what_is_missing(
    v: &AccessVerifier,
    on: bool,
    missing: Option<String>,
    secs: u64,
    now: u64,
)
    ensures
        call_ensures(AccessVerifier::is_enforcing, (v,), on) ==> on == (v@.aud is Some
            && v@.allowed_emails.len() > 0 && v@.team_domain.len() > 0),
        call_ensures(AccessVerifier::misconfiguration, (v,), missing) ==> missing is None == (
        v@.aud is Some && v@.allowed_emails.len() > 0 && v@.team_domain.len() > 0),
        call_ensures(secs_of, (Some(secs),), now) ==> now == secs,
        call_ensures(secs_of, (None,), now) ==> now == 0,
{
}

/// A scheme before a team domain, however often it is written, and slashes behind it,
/// however many, make no difference.
pub proof fn law_schemes_and_slashes_make_no_difference(u: Seq<char>)
    requires
        u.len() > 0 && !text::white(u[0]) && !text::white(u.last()),
    ensures
        bare_domain("https://"@ + u) == bare_domain(u),
        !text::occurs_at(u, "https://"@, 0) ==> bare_domain("http://"@ + u)
            == bare_domain(u),
        !text::occurs_at(u + "/"@, "https://"@, 0) && !text::occurs_at(
            u + "/"@,
            "http://"@,
            0,
        ) && !text::occurs_at(u, "https://"@, 0) && !text::occurs_at(
            u,
            "http://"@,
            0,
        ) ==> bare_domain(u + "/"@) == bare_domain(u) && (u.last() != '/' ==> bare_domain(u)
            == u),
{
    reveal_strlit("https://");
    reveal_strlit("http://");
    reveal_strlit("/");
    let https = "https://"@;
    let http = "http://"@;
    let slash = "/"@;
    let low = u;
    let none = Seq::<char>::empty();
    text::law_trimmed_is_what_stands_between(none, u, none);
    assert(none + u + none =~= u);
    text::law_trimmed_is_what_stands_between(none, https + u, none);
    assert(none + (https + u) + none =~= https + u);
    text::law_trimmed_is_what_stands_between(none, http + u, none);
    assert(none + (http + u) + none =~= http + u);
    text::law_trimmed_is_what_stands_between(none, u + slash, none);
    assert(none + (u + slash) + none =~= u + slash);
    text::law_without_start(https, low);
    text::law_without_start(http, low);
    text::law_without_start(https, http + low);
    text::law_without_start(https, low + slash);
    text::law_without_start(http, low + slash);
    assert(!text::occurs_at(http + low, https, 0)) by {
        if text::occurs_at(http + low, https, 0) {
            assert((http + low).subrange(0, 8)[4] == ':');
            assert(https[4] == 's');
        }
    }
    assert((low + slash).drop_last() =~= low);
}

} // verus!
