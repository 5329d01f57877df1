//! `POST /hook`: the webhook receiver, the path from the ring.
//!
//! The phone transcribes on-device and posts the text here, as
//! `multipart/form-data`:
//!
//! | field           | when                        | meaning               |
//! |-----------------|-----------------------------|-----------------------|
//! | `transcription` | payload mode includes text  | the spoken words      |
//! | `audio`         | payload mode includes audio | m4a; drained, dropped |
//! | `recordedAt`    | always                      | unix milliseconds     |
//! | `client`        | always                      | `ring`                |
//! | `test`          | test events only            | `true`                |
//!
//! The headers `X-Index-Trigger` and `X-Index-Test` are added by the app and are
//! trustworthy as a signal, though not as authentication.

use vstd::prelude::*;
use vstd::string::*;

use crate::db::{word, Db, DbView};
use crate::events::{opt_event, Event};
use crate::text;
use crate::worker;

verus! {

/// One field of the body, drained.
pub struct Field {
    pub name: String,
    /// The content, of a field that is read as text and could be.
    pub text: Option<String>,
    /// The length, of a field that is read as bytes and could be.
    pub bytes: usize,
}

/// The fields we care about, pulled out of the multipart body.
#[derive(Debug)]
pub struct Payload {
    pub transcription: Option<String>,
    pub recorded_at_ms: Option<i64>,
    pub client: Option<String>,
    pub test: bool,
    pub audio_bytes: usize,
}

/// The payload, over the views of its texts.
pub struct PayloadView {
    pub transcription: Option<Seq<char>>,
    pub recorded_at_ms: Option<i64>,
    pub client: Option<Seq<char>>,
    pub test: bool,
    pub audio_bytes: usize,
}

impl View for Payload {
    type V = PayloadView;

    open spec fn view(&self) -> PayloadView {
        PayloadView {
            transcription: text::opt_view(self.transcription),
            recorded_at_ms: self.recorded_at_ms,
            client: text::opt_view(self.client),
            test: self.test,
            audio_bytes: self.audio_bytes,
        }
    }
}

/// Whether the field of that name is read as text. Any other is drained only:
/// storing voice recordings is a promise this daemon does not make.
pub open spec fn text_field(name: Seq<char>) -> bool {
    name == "transcription"@ || name == "recordedAt"@ || name == "client"@ || name == "test"@
}

/// Whether to read the field of that name as text, or as bytes.
pub fn reads_text(name: &str) -> (r: bool)
    ensures
        r == text_field(name@),
{
    text::same(name, "transcription") || text::same(name, "recordedAt") || text::same(
        name,
        "client",
    ) || text::same(name, "test")
}

/// Whether two texts are the same but for the case of their ASCII letters.
pub open spec fn same_but_case(a: Seq<char>, b: Seq<char>) -> bool {
    text::lowered(a) == text::lowered(b)
}

fn eq_ignore_case(a: &str, b: &str) -> (r: bool)
    ensures
        r == same_but_case(a@, b@),
{
    text::same(text::lowercase(a).as_str(), text::lowercase(b).as_str())
}

/// The number that a `recordedAt` field writes.
pub open spec fn recorded_at(t: Option<Seq<char>>) -> Option<i64> {
    match t {
        Some(t) => text::i64_value(text::trimmed(t)),
        None => None,
    }
}

/// Whether a `test` field marks a test event.
pub open spec fn marks_test(t: Option<Seq<char>>) -> bool {
    match t {
        Some(t) => same_but_case(text::trimmed(t), "true"@),
        None => false,
    }
}

/// The payload after one more field.
pub open spec fn with_field(p: PayloadView, f: Field) -> PayloadView {
    let t = text::opt_view(f.text);
    if f.name@ == "audio"@ {
        PayloadView { audio_bytes: f.bytes, ..p }
    } else if f.name@ == "transcription"@ {
        PayloadView { transcription: t, ..p }
    } else if f.name@ == "recordedAt"@ {
        PayloadView { recorded_at_ms: recorded_at(t), ..p }
    } else if f.name@ == "client"@ {
        PayloadView { client: t, ..p }
    } else if f.name@ == "test"@ {
        PayloadView { test: marks_test(t), ..p }
    } else {
        p
    }
}

/// The payload of a row of fields: a field that comes twice counts as it came
/// last.
pub open spec fn payload_of(fields: Seq<Field>) -> PayloadView
    decreases fields.len(),
{
    if fields.len() == 0 {
        PayloadView {
            transcription: None,
            recorded_at_ms: None,
            client: None,
            test: false,
            audio_bytes: 0,
        }
    } else {
        with_field(payload_of(fields.drop_last()), fields.last())
    }
}

impl Payload {
    /// Take one field in.
    fn take(&mut self, f: &Field)
        ensures
            final(self)@ == with_field(old(self)@, *f),
    {
        let name = f.name.as_str();
        let t: Option<String> = match &f.text {
            Some(s) => Some(s.clone()),
            None => None,
        };
        if text::same(name, "audio") {
            self.audio_bytes = f.bytes;
        } else if text::same(name, "transcription") {
            self.transcription = t;
        } else if text::same(name, "recordedAt") {
            self.recorded_at_ms = match t {
                Some(s) => text::parse_i64(text::trim(s.as_str()).as_str()),
                None => None,
            };
        } else if text::same(name, "client") {
            self.client = t;
        } else if text::same(name, "test") {
            self.test = match t {
                Some(s) => eq_ignore_case(text::trim(s.as_str()).as_str(), "true"),
                None => false,
            };
        }
    }
}

/// Pull the payload out of the fields of the body.
pub fn read_payload(fields: &Vec<Field>) -> (r: Payload)
    ensures
        r@ == payload_of(fields@),
{
    let mut p = Payload {
        transcription: None,
        recorded_at_ms: None,
        client: None,
        test: false,
        audio_bytes: 0,
    };
    let mut i: usize = 0;
    assert(fields@.take(0) =~= Seq::<Field>::empty());
    while i < fields.len()
        invariant
            i <= fields@.len(),
            p@ == payload_of(fields@.take(i as int)),
        decreases fields@.len() - i,
    {
        p.take(&fields[i]);
        assert(fields@.take(i + 1).drop_last() =~= fields@.take(i as int));
        i = i + 1;
    }
    assert(fields@.take(i as int) =~= fields@);
    p
}

/// What a request asks for.
pub enum Request {
    /// Answer with that code and that text, and do nothing.
    Answer(u16, String),
    /// Accept this text, spoken at that time.
    Run(String, i64),
}

/// The request, over the views of its texts.
pub enum RequestView {
    Answer(u16, Seq<char>),
    Run(Seq<char>, i64),
}

impl View for Request {
    type V = RequestView;

    open spec fn view(&self) -> RequestView {
        match self {
            Request::Answer(code, body) => RequestView::Answer(*code, body@),
            Request::Run(t, at) => RequestView::Run(t@, *at),
        }
    }
}

/// When a command was spoken: the time that the ring recorded, in milliseconds,
/// or else now.
pub open spec fn spoken_at(recorded_at_ms: Option<i64>, now: i64) -> i64 {
    match recorded_at_ms {
        Some(ms) => if ms >= 1000 {
            (ms / 1000) as i64
        } else {
            now
        },
        None => now,
    }
}

/// Whether a request is a test event.
pub open spec fn is_test(
    trigger: Option<Seq<char>>,
    test_header: Option<Seq<char>>,
    p: PayloadView,
) -> bool {
    ||| p.test
    ||| test_header matches Some(h) && same_but_case(h, "true"@)
    ||| trigger == Some("test-event"@)
}

/// What a request asks for. A test event carries canned words, and is
/// acknowledged and dropped; a payload without words is refused.
pub open spec fn understood(
    trigger: Option<Seq<char>>,
    test_header: Option<Seq<char>>,
    fields: Result<Vec<Field>, String>,
    now: i64,
) -> RequestView {
    match fields {
        Err(e) => RequestView::Answer(400, "unreadable body: "@ + e@ + "\n"@),
        Ok(fields) => {
            let p = payload_of(fields@);
            let words = match p.transcription {
                Some(t) => text::trimmed(t),
                None => Seq::empty(),
            };
            if is_test(trigger, test_header, p) {
                RequestView::Answer(
                    200,
                    "test event received — endpoint and headers are good. Not run as a command.\n"@,
                )
            } else if words.len() == 0 {
                RequestView::Answer(
                    400,
                    "no transcription in payload. Set Send to 'Transcription only' or 'Both'.\n"@,
                )
            } else {
                RequestView::Run(words, spoken_at(p.recorded_at_ms, now))
            }
        },
    }
}

/// What a request asks for: its `X-Index-Trigger` and `X-Index-Test` headers, as
/// far as they could be read, and its fields, or why they could not be.
pub fn understand(
    trigger: Option<&str>,
    test_header: Option<&str>,
    fields: Result<Vec<Field>, String>,
    now: i64,
) -> (r: Request)
    ensures
        r@ == understood(text::opt_str(trigger), text::opt_str(test_header), fields, now),
{
    let fields = match fields {
        Ok(fields) => fields,
        Err(e) => return Request::Answer(400, text::cat3("unreadable body: ", e.as_str(), "\n")),
    };
    let payload = read_payload(&fields);
    let header_says_test = match test_header {
        Some(h) => eq_ignore_case(h, "true"),
        None => false,
    };
    let trigger_says_test = match trigger {
        Some(t) => text::same(t, "test-event"),
        None => false,
    };
    if payload.test || header_says_test || trigger_says_test {
        return Request::Answer(
            200,
            "test event received — endpoint and headers are good. Not run as a command.\n".to_owned(),
        );
    }
    let words = match &payload.transcription {
        Some(t) => text::trim(t.as_str()),
        None => String::new(),
    };
    if words.as_str().is_empty() {
        return Request::Answer(
            400,
            "no transcription in payload. Set Send to 'Transcription only' or 'Both'.\n".to_owned(),
        );
    }
    let created: i64 = match payload.recorded_at_ms {
        Some(ms) => if ms >= 1000 {
            ms / 1000
        } else {
            now
        },
        None => now,
    };
    Request::Run(words, created)
}

/// What to do about a request that was dealt with.
pub struct Response {
    pub code: u16,
    pub body: String,
    /// What to tell the console.
    pub event: Option<Event>,
    /// The command to hand to the submitter.
    pub enqueue: Option<String>,
}

/// Whether a response says what accepting a command did.
pub open spec fn says_accepted(r: Response, a: worker::Accepted) -> bool {
    &&& r.code == 200
    &&& r.body@ == word(a.status) + " "@ + a.id@ + "\n"@
    &&& opt_event(r.event) == opt_event(a.event)
    &&& text::opt_view(r.enqueue) == (if a.enqueue {
        Some(a.id@)
    } else {
        None
    })
}

/// Whether a response says that no free id was found.
pub open spec fn says_refused(r: Response, id: Seq<char>) -> bool {
    &&& r.code == 500
    &&& r.body@ == "could not queue: "@ + ("queueing command "@ + id) + "\n"@
    &&& r.event is None
    &&& r.enqueue is None
}

/// Whether a response to a command follows from the ids that were drawn for it, with
/// what became of the log: it is recorded under the first of them that is free, and a
/// command for which none is changes nothing.
pub open spec fn responds_to_command(
    ids: Seq<Seq<char>>,
    before: DbView,
    after: DbView,
    r: Response,
    words: Seq<char>,
    at: i64,
    now: i64,
) -> bool {
    match worker::first_free(before.rows, ids, 0) {
        Some(k) => exists|a: worker::Accepted| #[trigger]
            says_accepted(r, a) && a.id@ == ids[k] && worker::accepts(
                before,
                after,
                a,
                words,
                at,
                now,
            ),
        None => after == before && says_refused(r, ids.last()),
    }
}

/// Whether a response follows from what a request asks for, with what became of
/// the log.
pub open spec fn responds(
    request: RequestView,
    before: DbView,
    after: DbView,
    r: Response,
    now: i64,
) -> bool {
    match request {
        RequestView::Answer(code, body) => {
            &&& after == before
            &&& r.code == code
            &&& r.body@ == body
            &&& r.event is None
            &&& r.enqueue is None
        },
        RequestView::Run(words, at) => {
            exists|ids: Seq<Seq<char>>| #[trigger]
                worker::drawn(ids) && responds_to_command(ids, before, after, r, words, at, now)
        },
    }
}

/// Deal with a request.
///
/// A command that is held is a successful delivery too: the ring has no way to
/// act on the distinction, and the console is where it shows up.
pub fn hook(
    db: &mut Db,
    trigger: Option<&str>,
    test_header: Option<&str>,
    fields: Result<Vec<Field>, String>,
    now: i64,
) -> (r: Response)
    ensures
        responds(
            understood(text::opt_str(trigger), text::opt_str(test_header), fields, now),
            old(db)@,
            final(db)@,
            r,
            now,
        ),
{
    match understand(trigger, test_header, fields, now) {
        Request::Answer(code, body) => Response { code, body, event: None, enqueue: None },
        Request::Run(words, at) => match worker::accept(db, words.as_str(), at, now) {
            Ok(a) => {
                let ghost accepted = a;
                let ghost drawn = choose|ids: Seq<Seq<char>>| #[trigger]
                    worker::drawn(ids) && worker::accepts_first(
                        old(db)@,
                        db@,
                        ids,
                        Ok(accepted),
                        words@,
                        at,
                        now,
                    );
                let mut body = text::cat3(a.status.as_str(), " ", a.id.as_str());
                body.append("\n");
                let enqueue = if a.enqueue {
                    Some(a.id.clone())
                } else {
                    None
                };
                let r = Response { code: 200, body, event: a.event, enqueue };
                assert(says_accepted(r, accepted));
                assert(worker::drawn(drawn));
                r
            },
            Err(e) => {
                let body = text::cat3("could not queue: ", e.message().as_str(), "\n");
                let r = Response { code: 500, body, event: None, enqueue: None };
                proof {
                    let drawn = choose|ids: Seq<Seq<char>>| #[trigger]
                        worker::drawn(ids) && worker::accepts_first(
                            old(db)@,
                            db@,
                            ids,
                            Err(e),
                            words@,
                            at,
                            now,
                        );
                    assert(says_refused(r, drawn.last()));
                    assert(worker::drawn(drawn));
                }
                r
            },
        },
    }
}

/// A test event is acknowledged with 200 and never run, whatever it carries.
pub proof fn law_a_test_event_is_never_run(
    trigger: Option<Seq<char>>,
    test_header: Option<Seq<char>>,
    fields: Vec<Field>,
    now: i64,
)
    requires
        is_test(trigger, test_header, payload_of(fields@)),
    ensures
        understood(trigger, test_header, Ok(fields), now) matches RequestView::Answer(code, body)
            && code == 200,
{
}

/// Only words are run: what is accepted is the transcription, trimmed, and it is
/// not blank.
pub proof fn law_only_words_are_run(
    trigger: Option<Seq<char>>,
    test_header: Option<Seq<char>>,
    fields: Result<Vec<Field>, String>,
    now: i64,
)
    requires
        understood(trigger, test_header, fields, now) is Run,
    ensures
        understood(trigger, test_header, fields, now) matches RequestView::Run(words, at) && {
            &&& words.len() > 0
            &&& fields matches Ok(f)
            &&& payload_of(f@).transcription matches Some(t)
            &&& words == text::trimmed(t)
            &&& !is_test(trigger, test_header, payload_of(f@))
        },
{
}

/// The payload holds what the fields say, each field as it came last: its text, the
/// number it writes, whether it says true, or its length.
pub proof fn law_the_last_field_of_a_name_counts(fields: Seq<Field>, k: int)
    requires
        0 <= k < fields.len(),
        forall|j: int| k < j < fields.len() ==> (#[trigger] fields[j]).name@ != fields[k].name@,
    ensures
        ({
            let p = payload_of(fields);
            let f = fields[k];
            &&& f.name@ == "transcription"@ ==> p.transcription == (match f.text {
                Some(s) => Some(s@),
                None => None,
            })
            &&& f.name@ == "client"@ ==> p.client == (match f.text {
                Some(s) => Some(s@),
                None => None,
            })
            &&& f.name@ == "audio"@ ==> p.audio_bytes == f.bytes
            &&& f.name@ == "recordedAt"@ ==> p.recorded_at_ms == (match f.text {
                Some(s) => text::i64_value(text::trimmed(s@)),
                None => None,
            })
            &&& f.name@ == "test"@ ==> p.test == (match f.text {
                Some(s) => text::lowered(text::trimmed(s@)) == "true"@,
                None => false,
            })
        }),
    decreases fields.len(),
{
    lemma_field_names();
    let init = fields.drop_last();
    if k < fields.len() - 1 {
        assert(fields[fields.len() - 1].name@ != fields[k].name@);
        assert forall|j: int| k < j < init.len() implies (#[trigger] init[j]).name@
            != init[k].name@ by {
            assert(fields[j].name@ != fields[k].name@);
        }
        law_the_last_field_of_a_name_counts(init, k);
    }
}

/// A field that did not come says nothing.
pub proof fn law_a_field_that_did_not_come_says_nothing(fields: Seq<Field>, name: Seq<char>)
    requires
        forall|j: int| 0 <= j < fields.len() ==> (#[trigger] fields[j]).name@ != name,
    ensures
        ({
            let p = payload_of(fields);
            &&& name == "transcription"@ ==> p.transcription is None
            &&& name == "client"@ ==> p.client is None
            &&& name == "audio"@ ==> p.audio_bytes == 0
            &&& name == "recordedAt"@ ==> p.recorded_at_ms is None
            &&& name == "test"@ ==> !p.test
        }),
    decreases fields.len(),
{
    lemma_field_names();
    if fields.len() > 0 {
        let init = fields.drop_last();
        assert(fields[fields.len() - 1].name@ != name);
        assert forall|j: int| 0 <= j < init.len() implies (#[trigger] init[j]).name@ != name by {
            assert(fields[j].name@ != name);
        }
        law_a_field_that_did_not_come_says_nothing(init, name);
    }
}

proof fn lemma_field_names()
    ensures
        "audio"@ != "transcription"@ && "audio"@ != "recordedAt"@ && "audio"@ != "client"@
            && "audio"@ != "test"@,
        "transcription"@ != "recordedAt"@ && "transcription"@ != "client"@ && "transcription"@
            != "test"@,
        "recordedAt"@ != "client"@ && "recordedAt"@ != "test"@ && "client"@ != "test"@,
        text::lowered("true"@) == "true"@,
{
    reveal_strlit("audio");
    reveal_strlit("transcription");
    reveal_strlit("recordedAt");
    reveal_strlit("client");
    reveal_strlit("test");
    reveal_strlit("true");
    assert("audio"@[0] == 'a' && "transcription"@[0] == 't' && "recordedAt"@[0] == 'r'
        && "client"@[0] == 'c' && "test"@[0] == 't');
    assert("transcription"@.len() == 13 && "test"@.len() == 4);
    assert(text::lowered("true"@) =~= "true"@);
}

/// The words that were spoken are run as they came, without white space at their two
/// ends, unless one of three things marks a test event. They were spoken when the last
/// `recordedAt` says, in milliseconds, or now where it says nothing of use.
pub proof fn law_the_spoken_words_are_run(
    trigger: Option<Seq<char>>,
    test_header: Option<Seq<char>>,
    fields: Vec<Field>,
    now: i64,
    k: int,
    said: String,
    a: Seq<char>,
    words: Seq<char>,
    b: Seq<char>,
)
    requires
        0 <= k < fields@.len(),
        fields@[k].name@ == "transcription"@,
        forall|j: int| k < j < fields@.len() ==> (#[trigger] fields@[j]).name@ != "transcription"@,
        fields@[k].text == Some(said),
        said@ == a + words + b,
        forall|i: int| 0 <= i < a.len() ==> text::white(#[trigger] a[i]),
        forall|i: int| 0 <= i < b.len() ==> text::white(#[trigger] b[i]),
        words.len() > 0 && !text::white(words[0]) && !text::white(words.last()),
        forall|j: int|
            0 <= j < fields@.len() && (#[trigger] fields@[j]).name@ == "test"@ ==> (
            fields@[j].text matches Some(s) ==> text::lowered(text::trimmed(s@)) != "true"@),
        test_header matches Some(h) ==> text::lowered(h) != "true"@,
        trigger != Some("test-event"@),
    ensures
        understood(trigger, test_header, Ok(fields), now) matches RequestView::Run(run, at) && {
            &&& run == words
            &&& at == (match payload_of(fields@).recorded_at_ms {
                Some(ms) => if ms >= 1000 {
                    ms as int / 1000
                } else {
                    now as int
                },
                None => now as int,
            })
        },
{
    lemma_field_names();
    law_the_last_field_of_a_name_counts(fields@, k);
    text::law_trimmed_is_what_stands_between(a, words, b);
    lemma_not_marked(fields@);
}

proof fn lemma_not_marked(fields: Seq<Field>)
    requires
        forall|j: int|
            0 <= j < fields.len() && (#[trigger] fields[j]).name@ == "test"@ ==> (
            fields[j].text matches Some(s) ==> text::lowered(text::trimmed(s@)) != "true"@),
    ensures
        !payload_of(fields).test,
    decreases fields.len(),
{
    lemma_field_names();
    if fields.len() > 0 {
        let init = fields.drop_last();
        assert forall|j: int| 0 <= j < init.len() && (#[trigger] init[j]).name@ == "test"@ implies (
        init[j].text matches Some(s) ==> text::lowered(text::trimmed(s@)) != "true"@) by {
            assert(fields[j].name@ == "test"@);
        }
        lemma_not_marked(init);
        assert(fields.last() == fields[fields.len() - 1]);
    }
}

/// The time that was recorded: digits, in milliseconds, with white space round them,
/// are that time in whole seconds; anything under a second, and anything that is not
/// digits, is no time, and the command counts as spoken now.
pub proof fn law_the_recorded_time_is_kept(
    fields: Seq<Field>,
    k: int,
    said: String,
    a: Seq<char>,
    ms: nat,
    b: Seq<char>,
    now: i64,
)
    requires
        0 <= k < fields.len(),
        fields[k].name@ == "recordedAt"@,
        forall|j: int| k < j < fields.len() ==> (#[trigger] fields[j]).name@ != "recordedAt"@,
        fields[k].text == Some(said),
        said@ == a + text::decimal(ms) + b,
        forall|i: int| 0 <= i < a.len() ==> text::white(#[trigger] a[i]),
        forall|i: int| 0 <= i < b.len() ==> text::white(#[trigger] b[i]),
        ms <= 0x7fff_ffff_ffff_ffff,
    ensures
        payload_of(fields).recorded_at_ms == Some(ms as i64),
        ms >= 1000 ==> spoken_at(payload_of(fields).recorded_at_ms, now) == ms / 1000,
        ms < 1000 ==> spoken_at(payload_of(fields).recorded_at_ms, now) == now,
        spoken_at(None, now) == now,
{
    law_the_last_field_of_a_name_counts(fields, k);
    let d = text::decimal(ms);
    text::law_decimal_round_trip(ms);
    assert(text::digit(d[0]) && text::digit(d[d.len() - 1]));
    assert(!text::white(d[0]) && !text::white(d.last()));
    text::law_trimmed_is_what_stands_between(a, d, b);
    text::law_numbers_are_read_back(ms);
}

/// A request is a test event where its `test` field came last as true, where its test
/// header says true, in whatever case, or where its trigger is the test event; it is
/// then answered 200, and nothing is run.
pub proof fn law_each_mark_makes_a_test_event(
    trigger: Option<Seq<char>>,
    test_header: Option<Seq<char>>,
    fields: Vec<Field>,
    now: i64,
    k: int,
)
    requires
        ({
            ||| trigger == Some("test-event"@)
            ||| test_header matches Some(h) && text::lowered(h) == "true"@
            ||| {
                &&& 0 <= k < fields@.len()
                &&& fields@[k].name@ == "test"@
                &&& forall|j: int| k < j < fields@.len() ==> (#[trigger] fields@[j]).name@ != "test"@
                &&& fields@[k].text matches Some(s) && text::lowered(text::trimmed(s@)) == "true"@
            }
        }),
    ensures
        understood(trigger, test_header, Ok(fields), now) == RequestView::Answer(
            200,
            "test event received — endpoint and headers are good. Not run as a command.\n"@,
        ),
{
    lemma_field_names();
    if 0 <= k < fields@.len() && fields@[k].name@ == "test"@ && (forall|j: int|
        k < j < fields@.len() ==> (#[trigger] fields@[j]).name@ != "test"@) {
        law_the_last_field_of_a_name_counts(fields@, k);
    }
}

/// A request without words is answered 400: one without a transcription, and one whose
/// last transcription is white space or could not be read. So is one whose body could
/// not be read, with the reason.
pub proof fn law_a_request_without_words_is_refused(
    trigger: Option<Seq<char>>,
    test_header: Option<Seq<char>>,
    fields: Vec<Field>,
    error: String,
    now: i64,
    k: int,
)
    requires
        !is_test(trigger, test_header, payload_of(fields@)),
        ({
            ||| forall|j: int|
                0 <= j < fields@.len() ==> (#[trigger] fields@[j]).name@ != "transcription"@
            ||| {
                &&& 0 <= k < fields@.len()
                &&& fields@[k].name@ == "transcription"@
                &&& forall|j: int|
                    k < j < fields@.len() ==> (#[trigger] fields@[j]).name@ != "transcription"@
                &&& fields@[k].text matches Some(s) ==> forall|i: int|
                    0 <= i < s@.len() ==> text::white(#[trigger] s@[i])
            }
        }),
    ensures
        understood(trigger, test_header, Ok(fields), now) == RequestView::Answer(
            400,
            "no transcription in payload. Set Send to 'Transcription only' or 'Both'.\n"@,
        ),
        understood(trigger, test_header, Err(error), now) == RequestView::Answer(
            400,
            "unreadable body: "@ + error@ + "\n"@,
        ),
{
    if forall|j: int| 0 <= j < fields@.len() ==> (#[trigger] fields@[j]).name@ != "transcription"@ {
        law_a_field_that_did_not_come_says_nothing(fields@, "transcription"@);
    } else {
        law_the_last_field_of_a_name_counts(fields@, k);
        if let Some(s) = fields@[k].text {
            let e = Seq::<char>::empty();
            text::law_trimmed_is_what_stands_between(s@, e, e);
            assert(s@ + e + e =~= s@);
        }
    }
}

/// A command is answered with 200 and its status and id, and stands at the end of the
/// log with the words and the time of the request: queued and handed to the submitter
/// while the kill switch is on, held while it is off. Where every id that was drawn is
/// taken it is answered 500, and the log stays as it was.
pub proof fn law_a_command_is_recorded_and_answered(
    words: Seq<char>,
    at: i64,
    before: DbView,
    after: DbView,
    r: Response,
    now: i64,
)
    requires
        responds(RequestView::Run(words, at), before, after, r, now),
    ensures
        r.code == 200 || r.code == 500,
        r.code == 500 ==> after == before && r.event is None && r.enqueue is None,
        r.code == 200 ==> ({
            let on = before.injecting is None || before.injecting == Some("1"@);
            let row = after.rows.last();
            &&& after.rows.len() == before.rows.len() + 1
            &&& after.rows.drop_last() == before.rows
            &&& after.injecting == before.injecting
            &&& row.text == words
            &&& row.created_at == at
            &&& row.id.len() == 4
            &&& forall|i: int|
                0 <= i < before.rows.len() ==> (#[trigger] before.rows[i]).id != row.id
            &&& on ==> row.status == "queued"@ && row.finished_at is None
            &&& !on ==> row.status == "held"@ && row.finished_at == Some(now)
            &&& r.body@ == row.status + " "@ + row.id + "\n"@
            &&& opt_event(r.event) == Some(crate::events::EventView::Command(row))
            &&& on ==> (r.enqueue matches Some(id) && id@ == row.id)
            &&& !on ==> r.enqueue is None
        }),
{
    let ids = choose|ids: Seq<Seq<char>>| #[trigger]
        worker::drawn(ids) && responds_to_command(ids, before, after, r, words, at, now);
    worker::law_the_first_free_id_is_taken(before.rows, ids, 0);
    worker::law_limits(ids);
    match worker::first_free(before.rows, ids, 0) {
        Some(k) => {
            let a = choose|a: worker::Accepted| #[trigger]
                says_accepted(r, a) && a.id@ == ids[k] && worker::accepts(
                    before,
                    after,
                    a,
                    words,
                    at,
                    now,
                );
            worker::law_an_accepted_command_is_recorded_as_spoken(before, after, a, words, at, now);
        },
        None => {},
    }
}

/// What is not run is answered as it was decided, and touches nothing.
pub proof fn law_what_is_not_run_touches_nothing(
    code: u16,
    body: Seq<char>,
    before: DbView,
    after: DbView,
    r: Response,
    now: i64,
)
    requires
        responds(RequestView::Answer(code, body), before, after, r, now),
    ensures
        after == before,
        r.code == code,
        r.body@ == body,
        r.event is None,
        r.enqueue is None,
{
}

/// The four fields that are read as text.
pub proof fn law_four_fields_are_text(name: Seq<char>)
    ensures
        text_field("transcription"@) && text_field("recordedAt"@) && text_field("client"@)
            && text_field("test"@),
        !text_field("audio"@),
        text_field(name) ==> name == "transcription"@ || name == "recordedAt"@ || name
            == "client"@ || name == "test"@,
{
    lemma_field_names();
}

/// From the request to the log: the words of the last transcription are what is recorded,
/// as they came but for white space at their two ends, and the webhook is answered with
/// the status and the id of the command.
pub proof fn law_what_was_said_is_what_is_recorded(
    trigger: Option<&str>,
    test_header: Option<&str>,
    fields: Vec<Field>,
    now: i64,
    r: Response,
    k: int,
    said: String,
    a: Seq<char>,
    words: Seq<char>,
    b: Seq<char>,
)
    requires
        0 <= k < fields@.len(),
        fields@[k].name@ == "transcription"@,
        forall|j: int| k < j < fields@.len() ==> (#[trigger] fields@[j]).name@ != "transcription"@,
        fields@[k].text == Some(said),
        said@ == a + words + b,
        forall|i: int| 0 <= i < a.len() ==> text::white(#[trigger] a[i]),
        forall|i: int| 0 <= i < b.len() ==> text::white(#[trigger] b[i]),
        words.len() > 0 && !text::white(words[0]) && !text::white(words.last()),
        forall|j: int|
            0 <= j < fields@.len() && (#[trigger] fields@[j]).name@ == "test"@ ==> (
            fields@[j].text matches Some(s) ==> text::lowered(text::trimmed(s@)) != "true"@),
        test_header matches Some(h) ==> text::lowered(h@) != "true"@,
        trigger matches Some(t) ==> t@ != "test-event"@,
    ensures
        forall|p: &mut Db| #[trigger]
            call_ensures(hook, (p, trigger, test_header, Ok(fields), now), r) && r.code == 200 ==> {
                let row = final(p)@.rows.last();
                &&& final(p)@.rows.len() == p@.rows.len() + 1
                &&& row.text == words
                &&& row.created_at == (match payload_of(fields@).recorded_at_ms {
                    Some(ms) => if ms >= 1000 {
                        ms as int / 1000
                    } else {
                        now as int
                    },
                    None => now as int,
                })
                &&& r.body@ == row.status + " "@ + row.id + "\n"@
            },
        forall|p: &mut Db| #[trigger]
            call_ensures(hook, (p, trigger, test_header, Ok(fields), now), r) ==> r.code == 200
                || r.code == 500 && final(p)@ == p@,
{
    let header = text::opt_str(test_header);
    let from = text::opt_str(trigger);
    law_the_spoken_words_are_run(from, header, fields, now, k, said, a, words, b);
    let at = understood(from, header, Ok(fields), now)->Run_1;
    assert forall|p: &mut Db| #[trigger]
        call_ensures(hook, (p, trigger, test_header, Ok(fields), now), r) implies (r.code == 200
        || r.code == 500 && final(p)@ == p@) && (r.code == 200 ==> {
        let row = final(p)@.rows.last();
        &&& final(p)@.rows.len() == p@.rows.len() + 1
        &&& row.text == words
        &&& row.created_at == at
        &&& r.body@ == row.status + " "@ + row.id + "\n"@
    }) by {
        law_a_command_is_recorded_and_answered(words, at, p@, final(p)@, r, now);
    }
}

/// The payload that is read off the fields, for the field of a name that came last.
pub proof fn law_the_payload_is_read_off_the_fields(
    fields: Vec<Field>,
    p: Payload,
    k: int,
)
    requires
        call_ensures(read_payload, (&fields,), p),
        0 <= k < fields@.len(),
        forall|j: int| k < j < fields@.len() ==> (#[trigger] fields@[j]).name@ != fields@[k].name@,
    ensures
        ({
            let f = fields@[k];
            &&& f.name@ == "transcription"@ ==> (match (f.text, p.transcription) {
                (Some(s), Some(t)) => t@ == s@,
                (None, None) => true,
                _ => false,
            })
            &&& f.name@ == "client"@ ==> (match (f.text, p.client) {
                (Some(s), Some(t)) => t@ == s@,
                (None, None) => true,
                _ => false,
            })
            &&& f.name@ == "audio"@ ==> p.audio_bytes == f.bytes
        }),
{
    law_the_last_field_of_a_name_counts(fields@, k);
}

/// A command is refused only where each of the sixteen ids that were drawn for it is some
/// command's; so into an empty log every command gets.
pub proof fn law_a_command_is_refused_only_without_a_free_id(
    words: Seq<char>,
    at: i64,
    before: DbView,
    after: DbView,
    r: Response,
    now: i64,
)
    requires
        responds(RequestView::Run(words, at), before, after, r, now),
    ensures
        r.code != 200 ==> exists|ids: Seq<Seq<char>>| #[trigger]
            worker::drawn(ids) && ids.len() == 16 && forall|m: int|
                0 <= m < ids.len() ==> crate::db::has_id(before.rows, #[trigger] ids[m]),
        before.rows.len() == 0 ==> r.code == 200,
{
    let ids = choose|ids: Seq<Seq<char>>| #[trigger]
        worker::drawn(ids) && responds_to_command(ids, before, after, r, words, at, now);
    worker::law_the_first_free_id_is_taken(before.rows, ids, 0);
    worker::law_limits(ids);
    match worker::first_free(before.rows, ids, 0) {
        Some(k) => {},
        None => {
            assert forall|m: int| 0 <= m < ids.len() implies crate::db::has_id(
                before.rows,
                #[trigger] ids[m],
            ) by {
                assert(ids[m] == ids[m]);
            }
            assert(crate::db::has_id(before.rows, ids[0]));
        },
    }
}

/// A test event reaches neither the log nor the submitter, whichever of its marks it
/// bears.
pub proof fn law_a_test_event_touches_nothing(
    trigger: Option<&str>,
    test_header: Option<&str>,
    fields: Vec<Field>,
    now: i64,
    r: Response,
    k: int,
)
    requires
        ({
            ||| trigger matches Some(t) && t@ == "test-event"@
            ||| test_header matches Some(h) && text::lowered(h@) == "true"@
            ||| {
                &&& 0 <= k < fields@.len()
                &&& fields@[k].name@ == "test"@
                &&& forall|j: int| k < j < fields@.len() ==> (#[trigger] fields@[j]).name@ != "test"@
                &&& fields@[k].text matches Some(s) && text::lowered(text::trimmed(s@)) == "true"@
            }
        }),
    ensures
        forall|p: &mut Db| #[trigger]
            call_ensures(hook, (p, trigger, test_header, Ok(fields), now), r) ==> {
                &&& r.code == 200
                &&& final(p)@ == p@
                &&& r.event is None
                &&& r.enqueue is None
            },
{
    law_each_mark_makes_a_test_event(
        text::opt_str(trigger),
        text::opt_str(test_header),
        fields,
        now,
        k,
    );
}

/// Four fields of a body are read as text, and any other as bytes.
pub proof fn law_what_is_read_as_text(name: &str, r: bool)
    requires
        call_ensures(reads_text, (name,), r),
    ensures
        r == (name@ == "transcription"@ || name@ == "recordedAt"@ || name@ == "client"@ || name@
            == "test"@),
{
}

} // verus!
