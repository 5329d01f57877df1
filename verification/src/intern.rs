//! The machine API of `internd`, as far as it is words and decisions.
//!
//! Two calls. A submission returns as soon as `internd` has queued the turn, so
//! the ring's webhook is never held open. A poll is the backstop: outcomes
//! normally arrive by callback, and it exists for when one is lost.

use vstd::prelude::*;
use vstd::string::*;

use crate::db::Status;
use crate::json::{opens_object, string_member, string_member_of};
use crate::text;

verus! {

/// What `internd` returns from `POST /machine/turns`.
#[derive(Debug, Clone)]
pub struct Submitted {
    pub project_id: String,
    pub turn_id: String,
    /// A link a browser can open, built by `internd` from its own public base
    /// URL.
    pub url: Option<String>,
}

/// What `internd` returns from `GET /machine/turns/:id`.
#[derive(Debug, Clone)]
pub struct TurnState {
    pub status: String,
    pub reply_md: Option<String>,
    pub error: Option<String>,
}

/// The status of a command whose turn has that status, where it is an outcome.
pub open spec fn mapped(s: Seq<char>) -> Option<Status> {
    if s == "done"@ {
        Some(Status::Done)
    } else if s == "failed"@ {
        Some(Status::Failed)
    } else if s == "timed_out"@ {
        Some(Status::TimedOut)
    } else if s == "cancelled"@ {
        Some(Status::Cancelled)
    } else {
        None
    }
}

/// `internd`'s turn statuses, mapped onto this daemon's.
///
/// `cancelled` does not collapse into `failed`: someone pressing stop is not a
/// failure. Anything that is not an outcome, known or not, is `None` rather than
/// being coerced into one.
pub fn map_status(intern_status: &str) -> (r: Option<Status>)
    ensures
        r == mapped(intern_status@),
{
    if text::same(intern_status, "done") {
        Some(Status::Done)
    } else if text::same(intern_status, "failed") {
        Some(Status::Failed)
    } else if text::same(intern_status, "timed_out") {
        Some(Status::TimedOut)
    } else if text::same(intern_status, "cancelled") {
        Some(Status::Cancelled)
    } else {
        None
    }
}

/// True for a status this daemon knows is still in progress, as opposed to one
/// it simply does not recognise.
pub fn is_in_flight(intern_status: &str) -> (r: bool)
    ensures
        r == (intern_status@ == "queued"@ || intern_status@ == "running"@),
{
    text::same(intern_status, "queued") || text::same(intern_status, "running")
}

/// A mapped status is always an outcome, and never one of the two that are still
/// in progress.
pub proof fn law_mapped_statuses_are_outcomes(s: Seq<char>)
    ensures
        mapped(s) matches Some(m) ==> crate::db::terminal(m) && m != Status::Held
            && crate::db::word(m) == s,
        s == "queued"@ || s == "running"@ ==> mapped(s) is None,
{
    reveal_strlit("queued");
    reveal_strlit("running");
    reveal_strlit("done");
    reveal_strlit("failed");
    reveal_strlit("timed_out");
    reveal_strlit("cancelled");
    assert("queued"@[0] == 'q' && "running"@[0] == 'r' && "done"@[0] == 'd' && "failed"@[0] == 'f'
        && "timed_out"@[0] == 't' && "cancelled"@[0] == 'c');
}

/// Where `internd` is, and the token that it is shown.
#[derive(Clone)]
pub struct Intern {
    base_url: String,
    /// The whole `Authorization` header value, as `internd` compares it.
    token: String,
}

impl Intern {
    /// The base URL, without a slash at its end.
    pub closed spec fn base(&self) -> Seq<char> {
        self.base_url@
    }

    /// The token.
    pub closed spec fn secret(&self) -> Seq<char> {
        self.token@
    }

    /// A client of the `internd` at that URL.
    pub fn new(base_url: &str, token: &str) -> (r: Intern)
        ensures
            r.base() == text::without_end(base_url@, '/'),
            r.secret() == token@,
    {
        Intern { base_url: text::trim_end_char(base_url, '/'), token: token.to_owned() }
    }

    /// The base URL, without a slash at its end.
    pub fn base_url(&self) -> (r: &str)
        ensures
            r@ == self.base(),
    {
        self.base_url.as_str()
    }

    /// The `Authorization` header value of every request but the health check.
    pub fn token(&self) -> (r: &str)
        ensures
            r@ == self.secret(),
    {
        self.token.as_str()
    }

    /// Where to ask whether `internd` is answering at all. It needs no token,
    /// which separates "internd is down" from "internd refused my token".
    pub fn health_url(&self) -> (r: String)
        ensures
            r@ == self.base() + "/health"@,
    {
        text::cat(self.base_url.as_str(), "/health")
    }

    /// Where to queue one command as a fresh project.
    pub fn submit_url(&self) -> (r: String)
        ensures
            r@ == self.base() + "/machine/turns"@,
    {
        text::cat(self.base_url.as_str(), "/machine/turns")
    }

    /// Where to ask how far a turn got.
    pub fn turn_url(&self, turn_id: &str) -> (r: String)
        ensures
            r@ == self.base() + "/machine/turns/"@ + turn_id@,
    {
        text::cat3(self.base_url.as_str(), "/machine/turns/", turn_id)
    }
}

/// What an answer of `internd` means.
pub enum Reply {
    /// The body holds what was asked for.
    Read,
    /// There is no such turn.
    Missing,
    /// It was refused, for that reason.
    Refused(String),
}

/// The answer, over the view of its reason.
pub enum ReplyView {
    Read,
    Missing,
    Refused(Seq<char>),
}

impl View for Reply {
    type V = ReplyView;

    open spec fn view(&self) -> ReplyView {
        match self {
            Reply::Read => ReplyView::Read,
            Reply::Missing => ReplyView::Missing,
            Reply::Refused(e) => ReplyView::Refused(e@),
        }
    }
}

/// Whether an HTTP status code means success.
pub open spec fn success(code: u16) -> bool {
    200 <= code < 300
}

/// What the answer to a submission means, given what its body says of an error.
pub open spec fn submit_meaning(
    code: u16,
    status: Seq<char>,
    detail: Option<Seq<char>>,
    body: Seq<char>,
) -> ReplyView {
    if success(code) {
        ReplyView::Read
    } else {
        ReplyView::Refused("internd refused the command: "@ + described(status, detail, body))
    }
}

/// What the answer to a submission means, given what its body says of an error.
pub fn submit_with(code: u16, status: &str, detail: Option<String>, body: &str) -> (r: Reply)
    ensures
        r@ == submit_meaning(code, status@, text::opt_view(detail), body@),
{
    if 200 <= code && code < 300 {
        Reply::Read
    } else {
        Reply::Refused(
            text::cat(
                "internd refused the command: ",
                describe_error(status, detail, body).as_str(),
            ),
        )
    }
}

/// What the answer to a submission means: its code, the code with its reason
/// phrase, and its body.
pub fn submit(code: u16, status: &str, body: &str) -> (r: Reply)
    ensures
        r@ == submit_meaning(code, status@, string_member_of(body@, "error"@), body@),
{
    submit_with(code, status, string_member(body, "error"), body)
}

/// What the answer to a poll means, given what its body says of an error.
pub open spec fn turn_meaning(
    code: u16,
    status: Seq<char>,
    detail: Option<Seq<char>>,
    body: Seq<char>,
) -> ReplyView {
    if code == 404 {
        ReplyView::Missing
    } else if success(code) {
        ReplyView::Read
    } else {
        ReplyView::Refused("internd refused the poll: "@ + described(status, detail, body))
    }
}

/// What the answer to a poll means, given what its body says of an error.
pub fn turn_with(code: u16, status: &str, detail: Option<String>, body: &str) -> (r: Reply)
    ensures
        r@ == turn_meaning(code, status@, text::opt_view(detail), body@),
{
    if code == 404 {
        Reply::Missing
    } else if 200 <= code && code < 300 {
        Reply::Read
    } else {
        Reply::Refused(
            text::cat(
                "internd refused the poll: ",
                describe_error(status, detail, body).as_str(),
            ),
        )
    }
}

/// What the answer to a poll means. A turn that `internd` once accepted and no
/// longer has belongs to a project that was deleted.
pub fn turn(code: u16, status: &str, body: &str) -> (r: Reply)
    ensures
        r@ == turn_meaning(code, status@, string_member_of(body@, "error"@), body@),
{
    turn_with(code, status, string_member(body, "error"), body)
}

/// What is said of a failed response.
pub open spec fn described(
    status: Seq<char>,
    detail: Option<Seq<char>>,
    body: Seq<char>,
) -> Seq<char> {
    let said = text::trimmed(
        match detail {
            Some(d) => d,
            None => text::first_chars(body, 200),
        },
    );
    if said.len() == 0 {
        status
    } else {
        status + " — "@ + said
    }
}

/// What is said of a failed response whose body holds that error, if any: the
/// error, or else the start of the body.
pub fn describe_error(status: &str, detail: Option<String>, body: &str) -> (r: String)
    ensures
        r@ == described(status@, text::opt_view(detail), body@),
{
    let raw = match detail {
        Some(d) => d,
        None => text::take_chars(body, 200),
    };
    let said = text::trim(raw.as_str());
    if said.as_str().is_empty() {
        status.to_owned()
    } else {
        text::cat3(status, " — ", said.as_str())
    }
}

/// Turn a failed response into something worth putting in front of a person.
///
/// `internd` answers errors as `{"error": "..."}`, and those strings are written
/// to be read. Falling back to the raw body, capped, keeps this useful against a
/// proxy that answers differently.
pub fn describe(status: &str, body: &str) -> (r: String)
    ensures
        r@ == described(status@, string_member_of(body@, "error"@), body@),
        !opens_object(body@) ==> r@ == described(status@, None, body@),
{
    let detail = string_member(body, "error");
    describe_error(status, detail, body)
}

// ---------------------------------------------------------------------------
// Laws
// ---------------------------------------------------------------------------

/// Four words are outcomes, each of its own status, and no other word is one.
pub proof fn law_four_words_are_outcomes(s: Seq<char>)
    ensures
        mapped("done"@) == Some(Status::Done),
        mapped("failed"@) == Some(Status::Failed),
        mapped("timed_out"@) == Some(Status::TimedOut),
        mapped("cancelled"@) == Some(Status::Cancelled),
        mapped(s) is Some == (s == "done"@ || s == "failed"@ || s == "timed_out"@ || s
            == "cancelled"@),
{
    reveal_strlit("done");
    reveal_strlit("failed");
    reveal_strlit("timed_out");
    reveal_strlit("cancelled");
    assert("done"@[0] == 'd' && "failed"@[0] == 'f' && "timed_out"@[0] == 't' && "cancelled"@[0]
        == 'c');
}

/// A submission is accepted exactly with a code from 200 up to 299, and so is a poll;
/// a poll that is answered 404 has no turn; any other answer is a refusal.
pub proof fn law_codes_decide(
    code: u16,
    status: Seq<char>,
    detail: Option<Seq<char>>,
    body: Seq<char>,
)
    ensures
        submit_meaning(code, status, detail, body) is Read == (200 <= code <= 299),
        !(200 <= code <= 299) ==> submit_meaning(code, status, detail, body) is Refused,
        turn_meaning(code, status, detail, body) is Read == (200 <= code <= 299),
        turn_meaning(code, status, detail, body) is Missing == (code == 404),
        !(200 <= code <= 299) && code != 404 ==> turn_meaning(code, status, detail, body)
            is Refused,
{
}

/// A refusal is put as the status and the reason that the body gives, without white
/// space round it; one that gives a blank reason is put as the status alone. Without a
/// reason the first two hundred characters of the body take its place.
pub proof fn law_a_refusal_says_why(
    code: u16,
    status: Seq<char>,
    a: Seq<char>,
    m: Seq<char>,
    b: Seq<char>,
    body: Seq<char>,
)
    requires
        !(200 <= code <= 299),
        code != 404,
        forall|i: int| 0 <= i < a.len() ==> text::white(#[trigger] a[i]),
        forall|i: int| 0 <= i < b.len() ==> text::white(#[trigger] b[i]),
        m.len() > 0 ==> !text::white(m[0]) && !text::white(m.last()),
    ensures
        ({
            let said = if m.len() == 0 {
                status
            } else {
                status + " — "@ + m
            };
            let words = a + m + b;
            &&& submit_meaning(code, status, Some(words), body) == ReplyView::Refused(
                "internd refused the command: "@ + said,
            )
            &&& turn_meaning(code, status, Some(words), body) == ReplyView::Refused(
                "internd refused the poll: "@ + said,
            )
            &&& described(status, Some(words), body) == said
            &&& words.len() <= 200 && words.len() <= body.len() && words == body.take(
                words.len() as int,
            ) && (words.len() == 200 || words.len() == body.len()) ==> {
                &&& described(status, None, body) == said
                &&& submit_meaning(code, status, None, body) == ReplyView::Refused(
                    "internd refused the command: "@ + said,
                )
                &&& turn_meaning(code, status, None, body) == ReplyView::Refused(
                    "internd refused the poll: "@ + said,
                )
            }
        }),
{
    text::law_trimmed_is_what_stands_between(a, m, b);
    let words = a + m + b;
    if words.len() <= 200 && words.len() <= body.len() && words == body.take(words.len() as int) && (
    words.len() == 200 || words.len() == body.len()) {
        assert(text::first_chars(body, 200) =~= words);
    }
}

/// A client asks at the URL it was given, without the slashes at its end: whether
/// `internd` answers, for a new turn, and about a turn by its id; and it shows the token
/// that it was given.
pub proof fn law_a_client_asks_where_it_was_told(
    base_url: &str,
    token: &str,
    client: Intern,
    host: Seq<char>,
    slashes: nat,
    turn_id: &str,
)
    requires
        call_ensures(Intern::new, (base_url, token), client),
        base_url@ == host + Seq::new(slashes, |k: int| '/'),
        host.len() > 0 && host.last() != '/',
    ensures
        forall|r: &str| #[trigger]
            call_ensures(Intern::base_url, (&client,), r) ==> r@ == host,
        forall|r: &str| #[trigger] call_ensures(Intern::token, (&client,), r) ==> r@ == token@,
        forall|r: String| #[trigger]
            call_ensures(Intern::health_url, (&client,), r) ==> r@ == host + "/health"@,
        forall|r: String| #[trigger]
            call_ensures(Intern::submit_url, (&client,), r) ==> r@ == host + "/machine/turns"@,
        forall|r: String| #[trigger]
            call_ensures(Intern::turn_url, (&client, turn_id), r) ==> r@ == host
                + "/machine/turns/"@ + turn_id@,
{
    text::law_without_end(host, '/', slashes);
}

/// The reason of a refusal is what the body of the answer has under `error`.
pub proof fn law_a_refusal_is_read_off_the_body(
    code: u16,
    status: &str,
    body: &str,
    a: Seq<char>,
    m: Seq<char>,
    b: Seq<char>,
    submitted: Reply,
    polled: Reply,
    said: String,
)
    requires
        !(200 <= code <= 299),
        code != 404,
        string_member_of(body@, "error"@) == Some(a + m + b),
        forall|i: int| 0 <= i < a.len() ==> text::white(#[trigger] a[i]),
        forall|i: int| 0 <= i < b.len() ==> text::white(#[trigger] b[i]),
        m.len() > 0 && !text::white(m[0]) && !text::white(m.last()),
    ensures
        call_ensures(submit, (code, status, body), submitted) ==> submitted@ == ReplyView::Refused(
            "internd refused the command: "@ + (status@ + " — "@ + m),
        ),
        call_ensures(turn, (code, status, body), polled) ==> polled@ == ReplyView::Refused(
            "internd refused the poll: "@ + (status@ + " — "@ + m),
        ),
        call_ensures(describe, (status, body), said) ==> said@ == status@ + " — "@ + m,
{
    law_a_refusal_says_why(code, status@, a, m, b, body@);
}

} // verus!
