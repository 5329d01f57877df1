//! The two HTTP surfaces, before any handler runs: what a request has to show, and
//! which handler it reaches.
//!
//! On the listener that the tunnel fronts a request is first held against the list of
//! hosts, then against what its path asks for, and only then does it reach a handler.
//! The callback listener has one route and its own list of tokens, and its route is
//! none of the other listener's.

use vstd::prelude::*;

use crate::auth::access::{
    access_step, assertion_of, enforcing, require_access, AccessStep, AccessStepView,
    AccessVerifier, VerifierView,
};
use crate::auth::token::{listed, require_token, verdict, Verdict};
use crate::hosts::{claimed, known_host, on_list};
use crate::routes::{callback_gate, public_gate, public_gate_of, Gate};
use crate::text;

verus! {

// ---------------------------------------------------------------------------
// Handlers
// ---------------------------------------------------------------------------

/// What serves a request.
#[derive(Debug, Clone, Copy, PartialEq, Eq, Structural)]
pub enum Handler {
    Health,
    Hook,
    /// The console's page.
    Page,
    Info,
    Injection,
    Commands,
    Events,
    /// A file of the console, or nothing.
    Asset,
    /// `internd`'s callback.
    TurnDone,
    /// The path is there, and not for that method.
    NotAllowed,
    NotFound,
}

/// Whether a method reads: a route for GET serves HEAD too.
pub open spec fn reads(method: Seq<char>) -> bool {
    method == "GET"@ || method == "HEAD"@
}

/// The handler, if the method is the right one.
pub open spec fn only_if(right: bool, h: Handler) -> Handler {
    if right {
        h
    } else {
        Handler::NotAllowed
    }
}

/// Which handler serves a path on the listener that the tunnel fronts.
pub open spec fn public_handler_of(method: Seq<char>, path: Seq<char>) -> Handler {
    if path == "/health"@ {
        only_if(reads(method), Handler::Health)
    } else if path == "/hook"@ {
        only_if(method == "POST"@, Handler::Hook)
    } else if path == "/"@ {
        only_if(reads(method), Handler::Page)
    } else if path == "/api/info"@ {
        only_if(reads(method), Handler::Info)
    } else if path == "/api/injection"@ {
        only_if(method == "POST"@, Handler::Injection)
    } else if path == "/api/commands"@ {
        only_if(reads(method), Handler::Commands)
    } else if path == "/api/events"@ {
        only_if(reads(method), Handler::Events)
    } else {
        Handler::Asset
    }
}

/// Which handler serves a path on the callback listener.
pub open spec fn callback_handler_of(method: Seq<char>, path: Seq<char>) -> Handler {
    if path == "/internal/turn-done"@ {
        only_if(method == "POST"@, Handler::TurnDone)
    } else if path == "/health"@ {
        only_if(reads(method), Handler::Health)
    } else {
        Handler::NotFound
    }
}

fn is_read(method: &str) -> (r: bool)
    ensures
        r == reads(method@),
{
    text::same(method, "GET") || text::same(method, "HEAD")
}

fn allow(right: bool, h: Handler) -> (r: Handler)
    ensures
        r == only_if(right, h),
{
    if right {
        h
    } else {
        Handler::NotAllowed
    }
}

/// Which handler serves a path on the listener that the tunnel fronts.
pub fn public_handler(method: &str, path: &str) -> (r: Handler)
    ensures
        r == public_handler_of(method@, path@),
{
    let post = text::same(method, "POST");
    if text::same(path, "/health") {
        allow(is_read(method), Handler::Health)
    } else if text::same(path, "/hook") {
        allow(post, Handler::Hook)
    } else if text::same(path, "/") {
        allow(is_read(method), Handler::Page)
    } else if text::same(path, "/api/info") {
        allow(is_read(method), Handler::Info)
    } else if text::same(path, "/api/injection") {
        allow(post, Handler::Injection)
    } else if text::same(path, "/api/commands") {
        allow(is_read(method), Handler::Commands)
    } else if text::same(path, "/api/events") {
        allow(is_read(method), Handler::Events)
    } else {
        Handler::Asset
    }
}

/// Which handler serves a path on the callback listener.
pub fn callback_handler(method: &str, path: &str) -> (r: Handler)
    ensures
        r == callback_handler_of(method@, path@),
{
    if text::same(path, "/internal/turn-done") {
        allow(text::same(method, "POST"), Handler::TurnDone)
    } else if text::same(path, "/health") {
        allow(is_read(method), Handler::Health)
    } else {
        Handler::NotFound
    }
}

// ---------------------------------------------------------------------------
// Admission
// ---------------------------------------------------------------------------

/// What of a request decides who may make it: its path, and the headers as far as they
/// could be read.
#[derive(Debug)]
pub struct Knock {
    pub path: String,
    pub host: Option<String>,
    pub authorization: Option<String>,
    pub widget_token: Option<String>,
    /// The Access assertion header.
    pub assertion: Option<String>,
    /// Every `Cookie` header.
    pub cookies: Vec<String>,
}

/// A request, over the views of its texts.
pub struct KnockView {
    pub path: Seq<char>,
    pub host: Option<Seq<char>>,
    pub authorization: Option<Seq<char>>,
    pub widget_token: Option<Seq<char>>,
    pub assertion: Option<Seq<char>>,
    pub cookies: Seq<Seq<char>>,
}

impl View for Knock {
    type V = KnockView;

    open spec fn view(&self) -> KnockView {
        KnockView {
            path: self.path@,
            host: text::opt_view(self.host),
            authorization: text::opt_view(self.authorization),
            widget_token: text::opt_view(self.widget_token),
            assertion: text::opt_view(self.assertion),
            cookies: text::views(self.cookies@),
        }
    }
}

/// Whether a request is let in.
#[derive(Debug)]
pub enum Admission {
    /// It is.
    Pass,
    /// It is for a host that this is not.
    UnknownHost,
    /// It shows no token that is on the list.
    NoToken(Verdict),
    /// It shows nothing that could be verified, or nothing could be. The reason is for
    /// the log only.
    NoAccess(String),
    /// It is if this assertion is verified.
    Verify(String),
}

/// The admission, over the views of its texts.
pub enum AdmissionView {
    Pass,
    UnknownHost,
    NoToken(Verdict),
    NoAccess(Seq<char>),
    Verify(Seq<char>),
}

impl View for Admission {
    type V = AdmissionView;

    open spec fn view(&self) -> AdmissionView {
        match self {
            Admission::Pass => AdmissionView::Pass,
            Admission::UnknownHost => AdmissionView::UnknownHost,
            Admission::NoToken(why) => AdmissionView::NoToken(*why),
            Admission::NoAccess(e) => AdmissionView::NoAccess(e@),
            Admission::Verify(a) => AdmissionView::Verify(a@),
        }
    }
}

/// Whether a request is for a host that this is.
pub open spec fn for_us(hosts: Seq<Seq<char>>, host: Option<Seq<char>>) -> bool {
    hosts.len() == 0 || on_list(hosts, claimed(host))
}

/// The admission that a verdict on its tokens gives a request.
pub open spec fn by_token(v: Verdict) -> AdmissionView {
    if v == Verdict::Pass {
        AdmissionView::Pass
    } else {
        AdmissionView::NoToken(v)
    }
}

/// Whether a request is let in on the listener that the tunnel fronts.
pub open spec fn public_admission(
    hosts: Seq<Seq<char>>,
    tokens: Seq<Seq<char>>,
    v: VerifierView,
    k: KnockView,
) -> AdmissionView {
    if !for_us(hosts, k.host) {
        AdmissionView::UnknownHost
    } else {
        match public_gate_of(k.path) {
            Gate::Open => AdmissionView::Pass,
            Gate::Tokens => by_token(verdict(k.authorization, k.widget_token, tokens)),
            Gate::Access => match access_step(v, k.path, k.assertion, k.cookies) {
                AccessStepView::Pass => AdmissionView::Pass,
                AccessStepView::Refuse(e) => AdmissionView::NoAccess(e),
                AccessStepView::Verify(a) => AdmissionView::Verify(a),
            },
        }
    }
}

/// Whether a request is let in on the callback listener.
pub open spec fn callback_admission(tokens: Seq<Seq<char>>, k: KnockView) -> AdmissionView {
    if k.path == "/health"@ {
        AdmissionView::Pass
    } else {
        by_token(verdict(k.authorization, k.widget_token, tokens))
    }
}

fn as_opt(o: &Option<String>) -> (r: Option<&str>)
    ensures
        text::opt_str(r) == text::opt_view(*o),
{
    match o {
        Some(s) => Some(s.as_str()),
        None => None,
    }
}

fn admit_by_token(tokens: &[String], k: &Knock) -> (r: Admission)
    ensures
        r@ == by_token(verdict(k@.authorization, k@.widget_token, text::views(tokens@))),
{
    match require_token(as_opt(&k.authorization), as_opt(&k.widget_token), tokens) {
        Verdict::Pass => Admission::Pass,
        why => Admission::NoToken(why),
    }
}

/// Decide whether a request is let in on the listener that the tunnel fronts: a host
/// that this is, and then what its path asks for.
pub fn admit_public(
    hosts: &Vec<String>,
    tokens: &Vec<String>,
    verifier: &AccessVerifier,
    k: &Knock,
) -> (r: Admission)
    ensures
        r@ == public_admission(text::views(hosts@), text::views(tokens@), verifier@, k@),
{
    assert(text::views(hosts@).len() == hosts@.len());
    if !known_host(hosts, as_opt(&k.host)) {
        return Admission::UnknownHost;
    }
    match public_gate(k.path.as_str()) {
        Gate::Open => Admission::Pass,
        Gate::Tokens => admit_by_token(tokens, k),
        Gate::Access => match require_access(
            verifier,
            k.path.as_str(),
            as_opt(&k.assertion),
            &k.cookies,
        ) {
            AccessStep::Pass => Admission::Pass,
            AccessStep::Refuse(e) => Admission::NoAccess(e),
            AccessStep::Verify(a) => Admission::Verify(a),
        },
    }
}

/// Decide whether a request is let in on the callback listener.
pub fn admit_callback(tokens: &Vec<String>, k: &Knock) -> (r: Admission)
    ensures
        r@ == callback_admission(text::views(tokens@), k@),
{
    match callback_gate(k.path.as_str()) {
        Gate::Open => Admission::Pass,
        _ => admit_by_token(tokens, k),
    }
}

// ---------------------------------------------------------------------------
// Answers
// ---------------------------------------------------------------------------

/// What becomes of a request.
#[derive(Debug)]
pub enum Answer {
    /// It reaches that handler, on behalf of whoever was verified.
    Reach(Handler, Option<String>),
    /// It is refused with that status and that body, which tell nothing of the reason.
    Refuse(u16, String),
}

/// The answer, over the views of its texts.
pub enum AnswerView {
    Reach(Handler, Option<Seq<char>>),
    Refuse(u16, Seq<char>),
}

impl View for Answer {
    type V = AnswerView;

    open spec fn view(&self) -> AnswerView {
        match self {
            Answer::Reach(h, who) => AnswerView::Reach(*h, text::opt_view(*who)),
            Answer::Refuse(code, body) => AnswerView::Refuse(*code, body@),
        }
    }
}

/// What becomes of a request, given its admission, what the verification of its
/// assertion gave, if there was one, and the handler of its path.
pub open spec fn answer_to(
    a: AdmissionView,
    verified: Option<Result<Seq<char>, Seq<char>>>,
    h: Handler,
) -> AnswerView {
    match a {
        AdmissionView::Pass => AnswerView::Reach(h, None),
        AdmissionView::UnknownHost => AnswerView::Refuse(421, "unknown host"@),
        AdmissionView::NoToken(_) => AnswerView::Refuse(401, "unauthorized"@),
        AdmissionView::NoAccess(_) => AnswerView::Refuse(401, "unauthorized"@),
        AdmissionView::Verify(_) => match verified {
            Some(Ok(email)) => AnswerView::Reach(h, Some(email)),
            _ => AnswerView::Refuse(401, "unauthorized"@),
        },
    }
}

/// What a verification gave, over the views of its texts.
pub open spec fn verified_view(v: Option<Result<String, String>>) -> Option<
    Result<Seq<char>, Seq<char>>,
> {
    match v {
        Some(r) => Some(text::result_view(r)),
        None => None,
    }
}

/// Say what becomes of a request, given its admission, what the verification of its
/// assertion gave, if there was one, and the handler of its path.
pub fn answer(a: &Admission, verified: Option<Result<String, String>>, h: Handler) -> (r: Answer)
    ensures
        r@ == answer_to(a@, verified_view(verified), h),
{
    match a {
        Admission::Pass => Answer::Reach(h, None),
        Admission::UnknownHost => Answer::Refuse(421, "unknown host".to_owned()),
        Admission::NoToken(_) => Answer::Refuse(401, "unauthorized".to_owned()),
        Admission::NoAccess(_) => Answer::Refuse(401, "unauthorized".to_owned()),
        Admission::Verify(_) => match verified {
            Some(Ok(email)) => Answer::Reach(h, Some(email)),
            _ => Answer::Refuse(401, "unauthorized".to_owned()),
        },
    }
}

// ---------------------------------------------------------------------------
// Laws
// ---------------------------------------------------------------------------

/// What becomes of a request on the listener that the tunnel fronts.
pub open spec fn public_answer(
    hosts: Seq<Seq<char>>,
    tokens: Seq<Seq<char>>,
    v: VerifierView,
    k: KnockView,
    method: Seq<char>,
    verified: Option<Result<Seq<char>, Seq<char>>>,
) -> AnswerView {
    answer_to(public_admission(hosts, tokens, v, k), verified, public_handler_of(method, k.path))
}

/// What becomes of a request on the callback listener.
pub open spec fn callback_answer(
    tokens: Seq<Seq<char>>,
    k: KnockView,
    method: Seq<char>,
) -> AnswerView {
    answer_to(callback_admission(tokens, k), None, callback_handler_of(method, k.path))
}

/// Whether a verification succeeded.
pub open spec fn is_verified(verified: Option<Result<Seq<char>, Seq<char>>>) -> bool {
    verified matches Some(r) && r is Ok
}

/// A request for another host reaches nothing, whatever it shows. Of the others, one
/// for the health check reaches its handler, one for the webhook does exactly with a
/// listed token, and every other, known path or not, does exactly where an Access
/// assertion that it carries was verified; a token does not help it.
pub proof fn law_what_reaches_a_handler(
    hosts: Seq<Seq<char>>,
    tokens: Seq<Seq<char>>,
    v: VerifierView,
    k: KnockView,
    method: Seq<char>,
    verified: Option<Result<Seq<char>, Seq<char>>>,
)
    ensures
        ({
            let a = public_answer(hosts, tokens, v, k, method, verified);
            if !for_us(hosts, k.host) {
                a == AnswerView::Refuse(421, "unknown host"@)
            } else if k.path == "/health"@ {
                a == AnswerView::Reach(public_handler_of(method, k.path), None)
            } else if k.path == "/hook"@ {
                if listed(k.authorization, tokens) || listed(k.widget_token, tokens) {
                    a == AnswerView::Reach(public_handler_of(method, k.path), None)
                } else {
                    a == AnswerView::Refuse(401, "unauthorized"@)
                }
            } else if enforcing(v) && assertion_of(k.assertion, k.cookies) is Some && is_verified(
                verified,
            ) {
                a == AnswerView::Reach(public_handler_of(method, k.path), Some(verified->0->Ok_0))
            } else {
                a == AnswerView::Refuse(401, "unauthorized"@)
            }
        }),
{
}

/// Without credentials only the health check is reached.
pub proof fn law_strangers_reach_health_only(
    hosts: Seq<Seq<char>>,
    tokens: Seq<Seq<char>>,
    v: VerifierView,
    k: KnockView,
    method: Seq<char>,
    verified: Option<Result<Seq<char>, Seq<char>>>,
)
    requires
        k.authorization is None,
        k.widget_token is None,
        k.assertion is None,
        k.cookies.len() == 0,
        for_us(hosts, k.host),
    ensures
        (public_answer(hosts, tokens, v, k, method, verified) is Reach) == (k.path == "/health"@),
{
    reveal_strlit("/health");
    reveal_strlit("/hook");
}

/// Nothing on the listener that the tunnel fronts reaches the callback, whatever it
/// shows and however it is verified; on the callback listener exactly a POST to its
/// path with a listed token does.
pub proof fn law_the_callback_is_not_public(
    hosts: Seq<Seq<char>>,
    tokens: Seq<Seq<char>>,
    v: VerifierView,
    k: KnockView,
    method: Seq<char>,
    verified: Option<Result<Seq<char>, Seq<char>>>,
)
    ensures
        !(public_answer(hosts, tokens, v, k, method, verified) matches AnswerView::Reach(h, _)
            && h == Handler::TurnDone),
        (callback_answer(tokens, k, method) == AnswerView::Reach(Handler::TurnDone, None)) == (
        k.path == "/internal/turn-done"@ && method == "POST"@ && (listed(k.authorization, tokens)
            || listed(k.widget_token, tokens))),
{
    reveal_strlit("/health");
    reveal_strlit("/internal/turn-done");
    assert("/health"@.len() != "/internal/turn-done"@.len());
}

/// Which handler a method and a path reach on the listener that the tunnel fronts.
pub proof fn law_public_routes(method: Seq<char>, path: Seq<char>)
    ensures
        ({
            let get = method == "GET"@ || method == "HEAD"@;
            let post = method == "POST"@;
            let reached = public_handler_of(method, path);
            &&& path == "/health"@ ==> reached == (if get {
                Handler::Health
            } else {
                Handler::NotAllowed
            })
            &&& path == "/hook"@ ==> reached == (if post {
                Handler::Hook
            } else {
                Handler::NotAllowed
            })
            &&& path == "/"@ ==> reached == (if get {
                Handler::Page
            } else {
                Handler::NotAllowed
            })
            &&& path == "/api/info"@ ==> reached == (if get {
                Handler::Info
            } else {
                Handler::NotAllowed
            })
            &&& path == "/api/injection"@ ==> reached == (if post {
                Handler::Injection
            } else {
                Handler::NotAllowed
            })
            &&& path == "/api/commands"@ ==> reached == (if get {
                Handler::Commands
            } else {
                Handler::NotAllowed
            })
            &&& path == "/api/events"@ ==> reached == (if get {
                Handler::Events
            } else {
                Handler::NotAllowed
            })
            &&& path != "/health"@ && path != "/hook"@ && path != "/"@ && path != "/api/info"@
                && path != "/api/injection"@ && path != "/api/commands"@ && path
                != "/api/events"@ ==> reached == Handler::Asset
        }),
{
    reveal_strlit("/health");
    reveal_strlit("/hook");
    reveal_strlit("/");
    reveal_strlit("/api/info");
    reveal_strlit("/api/injection");
    reveal_strlit("/api/commands");
    reveal_strlit("/api/events");
    assert("/health"@.len() == 7 && "/hook"@.len() == 5 && "/"@.len() == 1 && "/api/info"@.len()
        == 9 && "/api/injection"@.len() == 14 && "/api/commands"@.len() == 13
        && "/api/events"@.len() == 11);
}

/// Which handler a method and a path reach on the callback listener.
pub proof fn law_callback_routes(method: Seq<char>, path: Seq<char>)
    ensures
        ({
            let reached = callback_handler_of(method, path);
            &&& path == "/internal/turn-done"@ ==> reached == (if method == "POST"@ {
                Handler::TurnDone
            } else {
                Handler::NotAllowed
            })
            &&& path == "/health"@ ==> reached == (if method == "GET"@ || method == "HEAD"@ {
                Handler::Health
            } else {
                Handler::NotAllowed
            })
            &&& path != "/internal/turn-done"@ && path != "/health"@ ==> reached
                == Handler::NotFound
        }),
{
    reveal_strlit("/health");
    reveal_strlit("/internal/turn-done");
    assert("/health"@.len() != "/internal/turn-done"@.len());
}

/// A request for a host that is listed, at whatever place of the list, is for us, and
/// so is any request where no host is listed; one for a host that is not is told so,
/// whatever else it shows.
pub proof fn law_hosts_come_first(
    hosts: Seq<Seq<char>>,
    tokens: Seq<Seq<char>>,
    v: VerifierView,
    k: KnockView,
    method: Seq<char>,
    verified: Option<Result<Seq<char>, Seq<char>>>,
    i: int,
)
    ensures
        hosts.len() == 0 ==> for_us(hosts, k.host),
        0 <= i < hosts.len() && (k.host matches Some(h) && text::lowered(h) == text::lowered(
            hosts[i],
        )) ==> for_us(hosts, k.host),
        hosts.len() > 0 && !on_list(
            hosts,
            match k.host {
                Some(h) => h,
                None => Seq::empty(),
            },
        ) ==> public_answer(hosts, tokens, v, k, method, verified) == AnswerView::Refuse(
            421,
            "unknown host"@,
        ),
{
    if 0 <= i < hosts.len() {
        match k.host {
            Some(h) => {
                if text::lowered(h) == text::lowered(hosts[i]) {
                    crate::hosts::law_a_listed_host_is_known(hosts, i, h, Seq::empty());
                }
            },
            None => {},
        }
    }
}

/// A request to the webhook with a token of the list, at whatever place of it and in
/// either header, reaches the webhook; so does a callback with one of its own list.
pub proof fn law_any_listed_token_is_let_through(
    hosts: Seq<Seq<char>>,
    tokens: Seq<Seq<char>>,
    v: VerifierView,
    k: KnockView,
    verified: Option<Result<Seq<char>, Seq<char>>>,
    i: int,
)
    requires
        0 <= i < tokens.len(),
        tokens[i].len() > 0,
        k.authorization == Some(tokens[i]) || k.widget_token == Some(tokens[i]),
    ensures
        for_us(hosts, k.host) && k.path == "/hook"@ ==> public_answer(
            hosts,
            tokens,
            v,
            k,
            "POST"@,
            verified,
        ) == AnswerView::Reach(Handler::Hook, None),
        k.path == "/internal/turn-done"@ ==> callback_answer(tokens, k, "POST"@)
            == AnswerView::Reach(Handler::TurnDone, None),
{
    reveal_strlit("/health");
    reveal_strlit("/hook");
    reveal_strlit("/internal/turn-done");
    assert("/health"@.len() == 7 && "/hook"@.len() == 5 && "/internal/turn-done"@.len() == 19);
    assert(tokens.contains(tokens[i]));
}

/// A request to the console whose assertion was verified reaches its handler, as the
/// identity that was verified; one whose assertion was not is answered 401, and so is
/// one without an assertion.
pub proof fn law_a_verified_identity_reaches_the_console(
    hosts: Seq<Seq<char>>,
    tokens: Seq<Seq<char>>,
    v: VerifierView,
    k: KnockView,
    method: Seq<char>,
    email: Seq<char>,
    error: Seq<char>,
)
    requires
        for_us(hosts, k.host),
        k.path != "/health"@,
        k.path != "/hook"@,
    ensures
        v.aud is Some && v.allowed_emails.len() > 0 && v.team_domain.len() > 0 && assertion_of(
            k.assertion,
            k.cookies,
        ) is Some ==> public_answer(hosts, tokens, v, k, method, Some(Ok(email)))
            == AnswerView::Reach(public_handler_of(method, k.path), Some(email)),
        public_answer(hosts, tokens, v, k, method, Some(Err(error))) == AnswerView::Refuse(
            401,
            "unauthorized"@,
        ),
        assertion_of(k.assertion, k.cookies) is None ==> public_answer(
            hosts,
            tokens,
            v,
            k,
            method,
            Some(Ok(email)),
        ) == AnswerView::Refuse(401, "unauthorized"@),
        enforcing(v) ==> (assertion_of(k.assertion, k.cookies) matches Some(a) ==> public_admission(
            hosts,
            tokens,
            v,
            k,
        ) == AdmissionView::Verify(a)),
{
}

/// What becomes of a request, from what it shows to what it reaches: admission, the
/// handler and the answer are those of [`public_answer`], and on the callback listener
/// those of [`callback_answer`].
pub proof fn law_the_steps_of_a_request(
    hosts: Vec<String>,
    tokens: Vec<String>,
    v: AccessVerifier,
    k: Knock,
    method: &str,
    path: &str,
    verified: Option<Result<String, String>>,
    admission: Admission,
    handler: Handler,
    r: Answer,
)
    requires
        path@ == k.path@,
        call_ensures(answer, (&admission, verified, handler), r),
    ensures
        call_ensures(admit_public, (&hosts, &tokens, &v, &k), admission) && call_ensures(
            public_handler,
            (method, path),
            handler,
        ) ==> r@ == public_answer(
            text::views(hosts@),
            text::views(tokens@),
            v@,
            k@,
            method@,
            verified_view(verified),
        ),
        call_ensures(admit_callback, (&tokens, &k), admission) && call_ensures(
            callback_handler,
            (method, path),
            handler,
        ) && verified is None ==> r@ == callback_answer(text::views(tokens@), k@, method@),
{
}

} // verus!
