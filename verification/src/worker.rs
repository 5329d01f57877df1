//! Getting a spoken command into `internd`, and making sure its outcome always
//! comes back.
//!
//! * [`accept`] records a command and decides, in one place, whether it is sent.
//! * [`Queue`] hands the commands to submit out one at a time, so two presses a few
//!   seconds apart reach `internd` in the order in which they were spoken. [`load`]
//!   and [`submitted`] are the two halves of a submission.
//! * [`Sweep`] is one reconciliation pass over everything still in flight.
//!   Outcomes normally arrive by callback; the sweeper is what makes "normally"
//!   into "always".
//!
//! All of them settle a command through [`finish`], so all settle it alike: a
//! command that has an outcome keeps the one it has.

use std::collections::VecDeque;

use vstd::prelude::*;
use vstd::string::*;

use crate::db::{
    command_views, finished_row, has_id, has_outcome, if_queued, in_flight, older, oldest_first,
    oldest_order, position, queued_row, settled_row, status_of, submitted_row, unique_ids,
    unknown_status, waiting, with_id, word, Command, Db, DbError, DbView, RowView, Status,
};
use crate::events::{opt_event, Event, EventView};
use crate::ids;
use crate::intern::{is_in_flight, map_status, mapped, Submitted, TurnState};
use crate::text;

verus! {

/// How long the sweeper waits between passes, and how patient it is.
#[derive(Debug, Clone, Copy, PartialEq, Eq, Structural)]
pub struct SweepConfig {
    pub interval_secs: u64,
    /// A command that is still without a turn after this long never reached
    /// `internd`.
    pub submit_timeout_secs: u64,
    /// A command that is `running` but which `internd` cannot be asked about for
    /// this long is given up on. While `internd` answers, its own status is
    /// believed, however long the turn takes.
    pub stale_after_secs: u64,
}

// ---------------------------------------------------------------------------
// Outcomes
// ---------------------------------------------------------------------------

/// The event that tells the console of a command: its current state.
pub open spec fn news(rows: Seq<RowView>, id: Seq<char>) -> Option<EventView> {
    if has_id(rows, id) && status_of(rows[position(rows, id)].status) is Some {
        Some(EventView::Command(rows[position(rows, id)]))
    } else {
        None
    }
}

/// What to tell the console of a command.
pub fn publish(db: &Db, id: &str) -> (r: Option<Event>)
    ensures
        opt_event(r) == news(db@.rows, id@),
{
    match db.get(id) {
        Ok(Some(command)) => {
            proof {
                crate::db::law_status_words_round_trip(command.status, word(command.status));
            }
            Some(Event::Command { command })
        },
        Ok(None) => None,
        Err(_) => None,
    }
}

/// The rows once an outcome arrived for a command.
pub open spec fn settled(
    rows: Seq<RowView>,
    id: Seq<char>,
    status: Status,
    reply: Option<Seq<char>>,
    error: Option<Seq<char>>,
    now: i64,
) -> Seq<RowView> {
    with_id(rows, id, |x: RowView| settled_row(x, status, reply, error, now))
}

/// Whether a command of that id waits for an outcome.
pub open spec fn open_command(rows: Seq<RowView>, id: Seq<char>) -> bool {
    exists|i: int| 0 <= i < rows.len() && #[trigger] rows[i].id == id && !has_outcome(rows[i])
}

/// Write an outcome, and say what to tell the console.
pub fn finish(
    db: &mut Db,
    id: &str,
    status: Status,
    reply: Option<&str>,
    error: Option<&str>,
    now: i64,
) -> (r: Option<Event>)
    ensures
        final(db)@ == (DbView {
            rows: settled(
                old(db)@.rows,
                id@,
                status,
                text::opt_str(reply),
                text::opt_str(error),
                now,
            ),
            ..old(db)@
        }),
        opt_event(r) == if open_command(old(db)@.rows, id@) {
            news(final(db)@.rows, id@)
        } else {
            None
        },
{
    if db.settle(id, status, reply, error, now) {
        publish(db, id)
    } else {
        None
    }
}

// ---------------------------------------------------------------------------
// Accepting
// ---------------------------------------------------------------------------

/// A command that was recorded.
pub struct Accepted {
    pub id: String,
    pub status: Status,
    /// What to tell the console.
    pub event: Option<Event>,
    /// Whether to hand the command to the submitter.
    pub enqueue: bool,
}

/// The row of a command that was just recorded: queued, or held if the kill
/// switch is off.
pub open spec fn accepted_row(
    injecting: bool,
    id: Seq<char>,
    text: Seq<char>,
    created_at: i64,
    now: i64,
) -> RowView {
    let row = queued_row(id, text, created_at);
    if injecting {
        row
    } else {
        finished_row(row, Status::Held, None, None, now)
    }
}

/// What accepting a command under a free id does to the log, and what it says.
pub open spec fn accepts(
    before: DbView,
    after: DbView,
    a: Accepted,
    text: Seq<char>,
    created_at: i64,
    now: i64,
) -> bool {
    let injecting = crate::db::is_injecting(before.injecting);
    let row = accepted_row(injecting, a.id@, text, created_at, now);
    &&& !has_id(before.rows, a.id@)
    &&& after == (DbView { rows: before.rows.push(row), ..before })
    &&& a.status == if injecting {
        Status::Queued
    } else {
        Status::Held
    }
    &&& a.enqueue == injecting
    &&& opt_event(a.event) == Some(EventView::Command(row))
}

/// Record a command under that id, and decide whether it is sent.
pub fn accept_as(db: &mut Db, id: String, text: &str, created_at: i64, now: i64) -> (r: Result<
    Accepted,
    DbError,
>)
    ensures
        match r {
            Ok(a) => a.id@ == id@ && accepts(old(db)@, final(db)@, a, text@, created_at, now),
            Err(e) => {
                &&& has_id(old(db)@.rows, id@)
                &&& final(db)@ == old(db)@
                &&& e.doing@ == "queueing command "@ + id@
                &&& e.cause@ == "UNIQUE constraint failed: commands.id"@
            },
        },
{
    let ghost before = db@.rows;
    let injecting = db.injecting();
    match db.insert(id.as_str(), text, created_at) {
        Ok(_) => {},
        Err(e) => return Err(e),
    }
    let ghost queued = db@.rows;
    let ghost row = accepted_row(injecting, id@, text@, created_at, now);
    let status = if injecting {
        Status::Queued
    } else {
        // Terminal on arrival: moving the switch back on does not replay it.
        let _ = db.finish(id.as_str(), Status::Held, None, None, now);
        assert(db@.rows =~= before.push(row)) by {
            assert forall|i: int| 0 <= i < before.len() implies queued[i].id != id@ by {
                assert(before[i].id != id@);
            }
        }
        Status::Held
    };
    proof {
        lemma_new_row(before, row, id@);
        crate::db::law_status_words_round_trip(status, word(status));
    }
    let event = publish(db, id.as_str());
    Ok(Accepted { id, status, event, enqueue: injecting })
}

proof fn lemma_new_row(rows: Seq<RowView>, row: RowView, id: Seq<char>)
    requires
        !has_id(rows, id),
        row.id == id,
    ensures
        has_id(rows.push(row), id),
        position(rows.push(row), id) == rows.len(),
    decreases rows.len(),
{
    let after = rows.push(row);
    assert(after[rows.len() as int].id == id);
    if rows.len() > 0 {
        assert(rows[0].id != id);
        let rest = rows.skip(1);
        assert forall|i: int| 0 <= i < rest.len() implies (#[trigger] rest[i]).id != id by {
            assert(rows[i + 1].id != id);
        }
        lemma_new_row(rest, row, id);
        assert(after.skip(1) =~= rest.push(row));
    }
}

/// How many ids are drawn for a command.
pub const ID_ATTEMPTS: u8 = 16;

/// The first of the ids from `i` on that no command has.
pub open spec fn first_free(rows: Seq<RowView>, ids: Seq<Seq<char>>, i: int) -> Option<int>
    decreases ids.len() - i,
{
    if i < 0 || i >= ids.len() {
        None
    } else if !has_id(rows, ids[i]) {
        Some(i)
    } else {
        first_free(rows, ids, i + 1)
    }
}

/// What accepting a command under the first free one of some ids does to the log, and
/// what it says: it fails exactly where all of them are taken.
pub open spec fn accepts_first(
    before: DbView,
    after: DbView,
    ids: Seq<Seq<char>>,
    r: Result<Accepted, DbError>,
    text: Seq<char>,
    created_at: i64,
    now: i64,
) -> bool {
    match first_free(before.rows, ids, 0) {
        Some(k) => r matches Ok(a) && a.id@ == ids[k] && accepts(
            before,
            after,
            a,
            text,
            created_at,
            now,
        ),
        None => r matches Err(e) && {
            &&& after == before
            &&& e.doing@ == "queueing command "@ + ids.last()
            &&& e.cause@ == "UNIQUE constraint failed: commands.id"@
        },
    }
}

/// Record a command under the first of the ids that is free, and decide whether it is
/// sent.
pub fn accept_first(db: &mut Db, ids: &Vec<String>, text: &str, created_at: i64, now: i64) -> (r:
    Result<Accepted, DbError>)
    requires
        ids@.len() > 0,
    ensures
        accepts_first(old(db)@, final(db)@, text::views(ids@), r, text@, created_at, now),
{
    let ghost all = text::views(ids@);
    let mut i: usize = 0;
    loop
        invariant
            i < ids@.len(),
            all == text::views(ids@),
            db@ == old(db)@,
            first_free(db@.rows, all, i as int) == first_free(db@.rows, all, 0),
        decreases ids@.len() - i,
    {
        assert(all[i as int] == ids@[i as int]@);
        match accept_as(db, ids[i].clone(), text, created_at, now) {
            Ok(a) => return Ok(a),
            Err(e) => {
                if i >= ids.len() - 1 {
                    assert(first_free(db@.rows, all, i + 1) is None);
                    return Err(e);
                }
            },
        }
        i = i + 1;
    }
}

/// Whether these are ids as they are drawn for a command.
pub open spec fn drawn(ids: Seq<Seq<char>>) -> bool {
    ids.len() == ID_ATTEMPTS && forall|i: int| 0 <= i < ids.len() ==> ids::is_id(#[trigger] ids[i])
}

fn draw_ids() -> (r: Vec<String>)
    ensures
        drawn(text::views(r@)),
{
    let mut r: Vec<String> = Vec::new();
    while r.len() < ID_ATTEMPTS as usize
        invariant
            r@.len() <= ID_ATTEMPTS,
            forall|i: int| 0 <= i < r@.len() ==> ids::is_id((#[trigger] r@[i])@),
        decreases ID_ATTEMPTS - r@.len(),
    {
        r.push(ids::new_id());
    }
    let ghost all = text::views(r@);
    assert forall|i: int| 0 <= i < all.len() implies ids::is_id(#[trigger] all[i]) by {
        assert(all[i] == r@[i]@);
    }
    r
}

/// Accept a command from any source and decide, in exactly one place, whether it
/// gets sent.
///
/// Every entry point comes through here so the kill switch cannot be honoured by
/// one and quietly ignored by another. A `Held` command is fully recorded and
/// visible in the console; it is simply never submitted. Ids are drawn at random, and
/// the first one that is free is taken: what comes back is what [`accept_first`]
/// gives for the ids that were drawn.
pub fn accept(db: &mut Db, text: &str, created_at: i64, now: i64) -> (r: Result<Accepted, DbError>)
    ensures
        exists|ids: Seq<Seq<char>>| #[trigger]
            drawn(ids) && accepts_first(old(db)@, final(db)@, ids, r, text@, created_at, now),
{
    let ids = draw_ids();
    assert(drawn(text::views(ids@)));
    accept_first(db, &ids, text, created_at, now)
}

// ---------------------------------------------------------------------------
// Submitting
// ---------------------------------------------------------------------------

/// What to do about a command that was handed to the submitter.
pub enum Load {
    /// Submit this text.
    Submit(String),
    /// The command is gone.
    Vanished,
    /// The command could not be read.
    Unreadable(DbError),
}

/// The text to submit for a command.
pub fn load(db: &Db, id: &str) -> (r: Load)
    ensures
        match r {
            Load::Submit(t) => news(db@.rows, id@) is Some && t@ == db@.rows[position(
                db@.rows,
                id@,
            )].text,
            Load::Vanished => !has_id(db@.rows, id@),
            Load::Unreadable(e) => has_id(db@.rows, id@) && news(db@.rows, id@) is None
                && unknown_status(
                e,
                "reading command "@ + id@,
                db@.rows[position(db@.rows, id@)].status,
            ),
        },
{
    match db.get(id) {
        Ok(Some(c)) => {
            proof {
                crate::db::law_status_words_round_trip(c.status, word(c.status));
            }
            Load::Submit(c.text)
        },
        Ok(None) => Load::Vanished,
        Err(e) => Load::Unreadable(e),
    }
}

/// The rows once `internd` has answered a submission.
pub open spec fn after_submission(
    rows: Seq<RowView>,
    id: Seq<char>,
    answer: Result<Submitted, String>,
    now: i64,
) -> Seq<RowView> {
    match answer {
        Ok(s) => with_id(
            rows,
            id,
            |x: RowView|
                if_queued(
                    x,
                    |y: RowView|
                        submitted_row(y, s.project_id@, s.turn_id@, text::opt_view(s.url), now),
                ),
        ),
        Err(e) => settled(rows, id, Status::Failed, None, Some(e@), now),
    }
}

/// Take what `internd` answered to a submission: the ids of the turn, or why
/// there is none, which goes in front of the person.
pub fn submitted(db: &mut Db, id: &str, answer: Result<Submitted, String>, now: i64) -> (r: Option<
    Event,
>)
    ensures
        final(db)@ == (DbView {
            rows: after_submission(old(db)@.rows, id@, answer, now),
            ..old(db)@
        }),
        opt_event(r) == if answer is Ok || open_command(old(db)@.rows, id@) {
            news(final(db)@.rows, id@)
        } else {
            None
        },
{
    match answer {
        Ok(s) => {
            let url: Option<&str> = match &s.url {
                Some(u) => Some(u.as_str()),
                None => None,
            };
            let _ = db.mark_submitted(
                id,
                s.project_id.as_str(),
                s.turn_id.as_str(),
                url,
                now,
            );
            publish(db, id)
        },
        Err(e) => finish(db, id, Status::Failed, None, Some(e.as_str()), now),
    }
}

/// How many commands wait for the submitter at most.
pub const QUEUE_LIMIT: usize = 256;

/// The commands that wait for the submitter, in the order in which they were handed
/// over, and the one whose submission is out.
pub struct Queue {
    waiting: VecDeque<String>,
    current: Option<String>,
}

/// What a queue holds.
pub struct QueueView {
    pub waiting: Seq<Seq<char>>,
    pub current: Option<Seq<char>>,
}

impl View for Queue {
    type V = QueueView;

    closed spec fn view(&self) -> QueueView {
        QueueView { waiting: text::views(self.waiting@), current: text::opt_view(self.current) }
    }
}

/// What the submitter is to do next.
pub enum Next {
    /// Nothing: no command waits, or a submission is out.
    Wait,
    /// Submit this text, and hand the answer to [`Queue::answered`].
    Submit { id: String, text: String },
    /// Go on: this command is gone.
    Vanished(String),
    /// Go on: this command could not be read.
    Unreadable(String, DbError),
}

/// The queue, with its first command taken.
pub open spec fn taken(q: QueueView) -> QueueView {
    QueueView { waiting: q.waiting.skip(1), ..q }
}

/// The queue, with its first command taken to be submitted.
pub open spec fn sent_out(q: QueueView) -> QueueView {
    QueueView { waiting: q.waiting.skip(1), current: Some(q.waiting[0]) }
}

impl Queue {
    /// A queue that holds nothing.
    pub fn new() -> (r: Queue)
        ensures
            r@ == (QueueView { waiting: Seq::empty(), current: None }),
    {
        let r = Queue { waiting: VecDeque::new(), current: None };
        assert(r@.waiting =~= Seq::<Seq<char>>::empty());
        r
    }

    /// Hand a recorded command to the submitter. Where too many wait already the
    /// command is dropped rather than the webhook blocked, and `false` comes back; the
    /// sweeper then ages it out with an honest error.
    pub fn enqueue(&mut self, id: &str) -> (r: bool)
        ensures
            r == (old(self)@.waiting.len() < QUEUE_LIMIT),
            final(self)@ == (if r {
                QueueView { waiting: old(self)@.waiting.push(id@), ..old(self)@ }
            } else {
                old(self)@
            }),
    {
        if self.waiting.len() >= QUEUE_LIMIT {
            return false;
        }
        let ghost before = self.waiting@;
        self.waiting.push_back(id.to_owned());
        assert(text::views(self.waiting@) =~= text::views(before).push(id@));
        true
    }

    /// Take the command that has waited longest, unless a submission is out.
    pub fn next(&mut self, db: &Db) -> (r: Next)
        ensures
            r is Wait == (old(self)@.current is Some || old(self)@.waiting.len() == 0),
            ({
                let id = old(self)@.waiting[0];
                let row = db@.rows[position(db@.rows, id)];
                match r {
                    Next::Wait => final(self)@ == old(self)@,
                    Next::Submit { id: i, text: t } => {
                        &&& news(db@.rows, id) is Some
                        &&& i@ == id
                        &&& t@ == row.text
                        &&& final(self)@ == sent_out(old(self)@)
                    },
                    Next::Vanished(i) => {
                        &&& !has_id(db@.rows, id)
                        &&& i@ == id
                        &&& final(self)@ == taken(old(self)@)
                    },
                    Next::Unreadable(i, e) => {
                        &&& has_id(db@.rows, id)
                        &&& news(db@.rows, id) is None
                        &&& i@ == id
                        &&& unknown_status(e, "reading command "@ + id, row.status)
                        &&& final(self)@ == taken(old(self)@)
                    },
                }
            }),
    {
        if self.current.is_some() {
            return Next::Wait;
        }
        let ghost before = self.waiting@;
        match self.waiting.pop_front() {
            None => Next::Wait,
            Some(id) => {
                assert(text::views(self.waiting@) =~= text::views(before).skip(1));
                match load(db, id.as_str()) {
                    Load::Submit(text) => {
                        self.current = Some(id.clone());
                        Next::Submit { id, text }
                    },
                    Load::Vanished => Next::Vanished(id),
                    Load::Unreadable(e) => Next::Unreadable(id, e),
                }
            },
        }
    }

    /// Take what `internd` answered to the submission that is out. Where none is,
    /// nothing happens.
    pub fn answered(&mut self, db: &mut Db, answer: Result<Submitted, String>, now: i64) -> (r:
        Option<Event>)
        ensures
            match old(self)@.current {
                Some(id) => {
                    &&& final(self)@ == (QueueView { current: None, ..old(self)@ })
                    &&& final(db)@ == (DbView {
                        rows: after_submission(old(db)@.rows, id, answer, now),
                        ..old(db)@
                    })
                    &&& opt_event(r) == if answer is Ok || open_command(old(db)@.rows, id) {
                        news(final(db)@.rows, id)
                    } else {
                        None
                    }
                },
                None => {
                    &&& final(self)@ == old(self)@
                    &&& final(db)@ == old(db)@
                    &&& r is None
                },
            },
    {
        match self.current.take() {
            Some(id) => submitted(db, id.as_str(), answer, now),
            None => None,
        }
    }
}

// ---------------------------------------------------------------------------
// Sweeping
// ---------------------------------------------------------------------------

/// What the sweeper does about one command.
pub enum Verdict {
    /// Nothing yet.
    Leave,
    /// Ask `internd` about that turn.
    Ask(String),
    /// Settle it.
    Settle(Status, Option<String>, Option<String>),
}

/// The verdict, over the views of its texts.
pub enum VerdictView {
    Leave,
    Ask(Seq<char>),
    Settle(Status, Option<Seq<char>>, Option<Seq<char>>),
}

impl View for Verdict {
    type V = VerdictView;

    open spec fn view(&self) -> VerdictView {
        match self {
            Verdict::Leave => VerdictView::Leave,
            Verdict::Ask(t) => VerdictView::Ask(t@),
            Verdict::Settle(s, reply, error) => VerdictView::Settle(
                *s,
                text::opt_view(*reply),
                text::opt_view(*error),
            ),
        }
    }
}

/// How old a command is, in seconds. One from the future is new.
pub open spec fn age_of(created_at: i64, now: i64) -> nat {
    if now > created_at {
        (now - created_at) as nat
    } else {
        0
    }
}

/// How old a command is, in seconds.
fn age_secs(created_at: i64, now: i64) -> (r: u64)
    ensures
        r == age_of(created_at, now),
{
    if now > created_at {
        let age: i128 = now as i128 - created_at as i128;
        age as u64
    } else {
        0
    }
}

/// What the sweeper does about a command before asking anyone: one without a
/// turn never reached `internd`, and there is nothing to ask about.
pub open spec fn first_look(c: RowView, now: i64, cfg: SweepConfig) -> VerdictView {
    match c.turn_id {
        Some(t) => VerdictView::Ask(t),
        None => if age_of(c.created_at, now) >= cfg.submit_timeout_secs {
            VerdictView::Settle(
                Status::Failed,
                None,
                Some(
                    "never reached internd (still "@ + c.status + " after "@ + text::decimal(
                        age_of(c.created_at, now),
                    ) + "s)"@,
                ),
            )
        } else {
            VerdictView::Leave
        },
    }
}

/// What the sweeper does about a command before asking anyone.
pub fn look(c: &Command, now: i64, cfg: SweepConfig) -> (r: Verdict)
    ensures
        r@ == first_look(c@, now, cfg),
{
    match &c.turn_id {
        Some(t) => Verdict::Ask(t.clone()),
        None => {
            let age: u64 = age_secs(c.created_at, now);
            if age >= cfg.submit_timeout_secs {
                let mut msg = text::cat3(
                    "never reached internd (still ",
                    c.status.as_str(),
                    " after ",
                );
                msg.append(text::dec(age).as_str());
                msg.append("s)");
                Verdict::Settle(Status::Failed, None, Some(msg))
            } else {
                Verdict::Leave
            }
        },
    }
}

/// What the sweeper does about a command, given what `internd` said of its turn.
///
/// Its status is believed, however old the command is: an outcome settles the
/// command, and anything else, known or not, leaves it in flight. A turn that
/// `internd` no longer has belongs to a deleted project. Where `internd` cannot
/// be asked, the command is given up on once it is stale.
pub open spec fn judged(
    c: RowView,
    answer: Result<Option<TurnState>, String>,
    now: i64,
    cfg: SweepConfig,
) -> VerdictView {
    match answer {
        Ok(Some(state)) => match mapped(state.status@) {
            Some(status) => VerdictView::Settle(
                status,
                text::opt_view(state.reply_md),
                text::opt_view(state.error),
            ),
            None => VerdictView::Leave,
        },
        Ok(None) => VerdictView::Settle(
            Status::Failed,
            None,
            Some("the project was deleted in intern"@),
        ),
        Err(e) => if age_of(c.created_at, now) >= cfg.stale_after_secs {
            VerdictView::Settle(
                Status::TimedOut,
                None,
                Some(
                    "internd unreachable for "@ + text::decimal(age_of(c.created_at, now)) + "s: "@
                        + e@,
                ),
            )
        } else {
            VerdictView::Leave
        },
    }
}

/// What the sweeper does about a command, given what `internd` said of its turn.
pub fn judge(
    c: &Command,
    answer: Result<Option<TurnState>, String>,
    now: i64,
    cfg: SweepConfig,
) -> (r: Verdict)
    ensures
        r@ == judged(c@, answer, now, cfg),
{
    match answer {
        Ok(Some(state)) => match map_status(state.status.as_str()) {
            Some(status) => Verdict::Settle(status, state.reply_md, state.error),
            None => Verdict::Leave,
        },
        Ok(None) => Verdict::Settle(
            Status::Failed,
            None,
            Some("the project was deleted in intern".to_owned()),
        ),
        Err(e) => {
            let age: u64 = age_secs(c.created_at, now);
            if age >= cfg.stale_after_secs {
                let mut msg = text::cat3(
                    "internd unreachable for ",
                    text::dec(age).as_str(),
                    "s: ",
                );
                msg.append(e.as_str());
                Verdict::Settle(Status::TimedOut, None, Some(msg))
            } else {
                Verdict::Leave
            }
        },
    }
}

/// Whether an answer of `internd` is a status that this daemon has never heard
/// of: not an outcome and not in progress. It settles nothing, but it means that
/// the two are out of step, which is worth a line in the log.
pub fn not_understood(state: &TurnState) -> (r: bool)
    ensures
        r == (mapped(state.status@) is None && state.status@ != "queued"@ && state.status@
            != "running"@),
{
    map_status(state.status.as_str()).is_none() && !is_in_flight(state.status.as_str())
}

/// The log after a verdict on a command.
pub open spec fn after_verdict(before: DbView, id: Seq<char>, v: VerdictView, now: i64) -> DbView {
    match v {
        VerdictView::Settle(status, reply, error) => DbView {
            rows: settled(before.rows, id, status, reply, error, now),
            ..before
        },
        _ => before,
    }
}

/// What the console is told after a verdict on a command.
pub open spec fn verdict_news(before: DbView, id: Seq<char>, v: VerdictView, now: i64) -> Option<
    EventView,
> {
    if v is Settle && open_command(before.rows, id) {
        news(after_verdict(before, id, v, now).rows, id)
    } else {
        None
    }
}

/// Carry a verdict out.
fn carry_out(db: &mut Db, id: &str, v: Verdict, now: i64) -> (r: Option<Event>)
    ensures
        final(db)@ == after_verdict(old(db)@, id@, v@, now),
        opt_event(r) == verdict_news(old(db)@, id@, v@, now),
{
    match v {
        Verdict::Settle(status, reply, error) => {
            let reply: Option<&str> = match &reply {
                Some(s) => Some(s.as_str()),
                None => None,
            };
            let error: Option<&str> = match &error {
                Some(s) => Some(s.as_str()),
                None => None,
            };
            finish(db, id, status, reply, error, now)
        },
        _ => None,
    }
}

/// One reconciliation pass.
pub struct Sweep {
    commands: Vec<Command>,
    at: usize,
    asked_at: i64,
}

/// What a pass holds.
pub struct SweepView {
    /// The commands that were in flight when it began, oldest first.
    pub commands: Seq<RowView>,
    /// The one it has come to.
    pub at: int,
    /// When the last turn was asked about.
    pub asked_at: i64,
}

impl View for Sweep {
    type V = SweepView;

    closed spec fn view(&self) -> SweepView {
        SweepView {
            commands: command_views(self.commands@),
            at: self.at as int,
            asked_at: self.asked_at,
        }
    }
}

/// What a pass wants next.
pub enum SweepStep {
    /// Tell the console this, if there is something to tell, and go on.
    Tell(Option<Event>),
    /// Ask `internd` about that turn, and hand the answer to [`Sweep::answer`].
    Ask(String),
    /// The pass is over.
    Over,
}

impl Sweep {
    /// Begin a pass over everything that is in flight.
    pub fn begin(db: &Db) -> (r: Sweep)
        ensures
            r@ == (SweepView {
                commands: waiting(oldest_first(db@.rows), true),
                at: 0,
                asked_at: 0,
            }),
    {
        Sweep { commands: db.unsettled(), at: 0, asked_at: 0 }
    }

    /// Look at the command that the pass has come to. A command that has no turn
    /// is dealt with here; for any other the turn has to be asked about first.
    pub fn step(&mut self, db: &mut Db, now: i64, cfg: SweepConfig) -> (r: SweepStep)
        ensures
            ({
                let at = old(self)@.at;
                let c = old(self)@.commands[at];
                let v = first_look(c, now, cfg);
                match r {
                    SweepStep::Over => {
                        &&& at >= old(self)@.commands.len()
                        &&& final(self)@ == old(self)@
                        &&& final(db)@ == old(db)@
                    },
                    SweepStep::Ask(t) => {
                        &&& at < old(self)@.commands.len()
                        &&& v == VerdictView::Ask(t@)
                        &&& final(self)@ == (SweepView { asked_at: now, ..old(self)@ })
                        &&& final(db)@ == old(db)@
                    },
                    SweepStep::Tell(e) => {
                        &&& at < old(self)@.commands.len()
                        &&& !(v is Ask)
                        &&& final(self)@ == (SweepView { at: at + 1, ..old(self)@ })
                        &&& final(db)@ == after_verdict(old(db)@, c.id, v, now)
                        &&& opt_event(e) == verdict_news(old(db)@, c.id, v, now)
                    },
                }
            }),
    {
        if self.at >= self.commands.len() {
            return SweepStep::Over;
        }
        let i: usize = self.at;
        assert(self@.commands[i as int] == self.commands@[i as int]@);
        match look(&self.commands[i], now, cfg) {
            Verdict::Ask(t) => {
                self.asked_at = now;
                SweepStep::Ask(t)
            },
            v => {
                self.at = i + 1;
                let id = self.commands[i].id.clone();
                SweepStep::Tell(carry_out(db, id.as_str(), v, now))
            },
        }
    }

    /// Take what `internd` said of the turn that was asked about. How old the command
    /// is goes by when it was asked about, not by how long the answer took. Once the
    /// pass is over there is none, and nothing happens.
    pub fn answer(
        &mut self,
        db: &mut Db,
        answer: Result<Option<TurnState>, String>,
        now: i64,
        cfg: SweepConfig,
    ) -> (r: Option<Event>)
        ensures
            if old(self)@.at >= old(self)@.commands.len() {
                &&& final(self)@ == old(self)@
                &&& final(db)@ == old(db)@
                &&& r is None
            } else {
                let c = old(self)@.commands[old(self)@.at];
                let v = judged(c, answer, old(self)@.asked_at, cfg);
                &&& final(self)@ == (SweepView { at: old(self)@.at + 1, ..old(self)@ })
                &&& final(db)@ == after_verdict(old(db)@, c.id, v, now)
                &&& opt_event(r) == verdict_news(old(db)@, c.id, v, now)
            },
    {
        if self.at >= self.commands.len() {
            return None;
        }
        let i: usize = self.at;
        assert(self@.commands[i as int] == self.commands@[i as int]@);
        let v = judge(&self.commands[i], answer, self.asked_at, cfg);
        self.at = i + 1;
        let id = self.commands[i].id.clone();
        carry_out(db, id.as_str(), v, now)
    }
}

// ---------------------------------------------------------------------------
// Laws
// ---------------------------------------------------------------------------

/// The kill switch decides alone: while it is on a command is queued and handed
/// to the submitter, while it is off it is held and never handed over; a held
/// command has its outcome, and neither a submission nor a later outcome changes
/// it.
pub proof fn law_a_held_command_is_never_sent(
    before: DbView,
    after: DbView,
    a: Accepted,
    text: Seq<char>,
    created_at: i64,
    now: i64,
    answer: Result<Submitted, String>,
    later: i64,
)
    requires
        accepts(before, after, a, text, created_at, now),
        !crate::db::is_injecting(before.injecting),
    ensures
        !a.enqueue,
        a.status == Status::Held,
        ({
            let row = after.rows[position(after.rows, a.id@)];
            &&& row.status == word(Status::Held)
            &&& row.text == text
            &&& has_outcome(row)
            &&& !waiting(oldest_first(after.rows), true).contains(row)
            &&& after_submission(after.rows, a.id@, answer, later)[position(after.rows, a.id@)]
                == row
        }),
{
    let row = accepted_row(false, a.id@, text, created_at, now);
    lemma_new_row(before.rows, row, a.id@);
    crate::db::law_status_words_round_trip(Status::Held, word(Status::Held));
    crate::db::law_status_words_round_trip(Status::Queued, word(Status::Held));
    crate::db::law_status_words_round_trip(Status::Running, word(Status::Held));
    crate::db::law_status_words_round_trip(Status::Queued, word(Status::Queued));
    crate::db::law_status_words_round_trip(Status::Running, word(Status::Running));
    crate::db::law_waiting_is_exact(oldest_first(after.rows), true, row);
}

/// A turn that `internd` calls queued or running, or anything else that is not an
/// outcome, leaves its command in flight, however old it is.
pub proof fn law_only_an_outcome_settles(
    before: DbView,
    c: RowView,
    state: TurnState,
    now: i64,
    cfg: SweepConfig,
)
    requires
        mapped(state.status@) is None,
    ensures
        judged(c, Ok(Some(state)), now, cfg) is Leave,
        after_verdict(before, c.id, judged(c, Ok(Some(state)), now, cfg), now) == before,
{
}

/// While `internd` cannot be asked a command is given up on exactly from the
/// configured age on, as timed out; before that it is left alone.
pub proof fn law_an_unreachable_internd_times_out_only_the_stale(
    c: RowView,
    error: String,
    now: i64,
    cfg: SweepConfig,
)
    ensures
        ({
            let v = judged(c, Err(error), now, cfg);
            if age_of(c.created_at, now) >= cfg.stale_after_secs {
                v matches VerdictView::Settle(status, reply, msg) && status == Status::TimedOut
                    && reply is None && msg is Some
            } else {
                v is Leave
            }
        }),
{
}

/// Whatever arrives for a command that has its outcome, from a callback, a sweep
/// or a late answer to its submission, the command keeps the outcome it has.
pub proof fn law_an_outcome_is_kept(
    before: DbView,
    i: int,
    id: Seq<char>,
    v: VerdictView,
    answer: Result<Submitted, String>,
    now: i64,
)
    requires
        0 <= i < before.rows.len(),
        has_outcome(before.rows[i]),
    ensures
        after_verdict(before, id, v, now).rows[i] == before.rows[i],
        after_submission(before.rows, id, answer, now)[i] == before.rows[i],
{
    crate::db::law_status_words_round_trip(Status::Queued, word(Status::Queued));
}

/// A command that was accepted is submitted as it was spoken: what the submitter
/// loads for it is the text that was accepted.
pub proof fn law_a_command_is_submitted_as_spoken(
    before: DbView,
    after: DbView,
    a: Accepted,
    text: Seq<char>,
    created_at: i64,
    now: i64,
)
    requires
        accepts(before, after, a, text, created_at, now),
    ensures
        news(after.rows, a.id@) is Some,
        after.rows[position(after.rows, a.id@)].text == text,
{
    let row = accepted_row(
        crate::db::is_injecting(before.injecting),
        a.id@,
        text,
        created_at,
        now,
    );
    lemma_new_row(before.rows, row, a.id@);
    crate::db::law_status_words_round_trip(a.status, word(a.status));
}

/// A queue and the log after the first `k` rounds of the submitter: the first command
/// in the queue is taken and submitted, and its answer is recorded.
pub open spec fn worked(
    q: QueueView,
    rows: Seq<RowView>,
    answers: Seq<(Result<Submitted, String>, i64)>,
    k: int,
) -> (QueueView, Seq<RowView>)
    decreases k,
{
    if k <= 0 {
        (q, rows)
    } else {
        let (p, before) = worked(q, rows, answers, k - 1);
        let (answer, now) = answers[k - 1];
        let out = sent_out(p);
        (
            QueueView { current: None, ..out },
            after_submission(before, out.current->0, answer, now),
        )
    }
}

/// A queued row, once `internd` has answered its submission.
pub open spec fn answered_row(r: RowView, answer: Result<Submitted, String>, now: i64) -> RowView {
    match answer {
        Ok(s) => submitted_row(r, s.project_id@, s.turn_id@, text::opt_view(s.url), now),
        Err(e) => finished_row(r, Status::Failed, None, Some(e@), now),
    }
}

proof fn lemma_worked_queue(
    q: QueueView,
    rows: Seq<RowView>,
    answers: Seq<(Result<Submitted, String>, i64)>,
    k: int,
)
    requires
        q.current is None,
        0 <= k <= q.waiting.len(),
    ensures
        worked(q, rows, answers, k).0 == (QueueView { waiting: q.waiting.skip(k), current: None }),
    decreases k,
{
    if k == 0 {
        assert(q.waiting.skip(0) =~= q.waiting);
    } else {
        lemma_worked_queue(q, rows, answers, k - 1);
        assert(q.waiting.skip(k - 1).skip(1) =~= q.waiting.skip(k));
    }
}

proof fn lemma_worked_rows(
    q: QueueView,
    rows: Seq<RowView>,
    answers: Seq<(Result<Submitted, String>, i64)>,
    k: int,
)
    requires
        q.current is None,
        0 <= k <= q.waiting.len(),
    ensures
        ({
            let after = worked(q, rows, answers, k).1;
            &&& after.len() == rows.len()
            &&& forall|i: int| 0 <= i < rows.len() ==> (#[trigger] after[i]).id == rows[i].id
            &&& forall|i: int|
                0 <= i < rows.len() && !q.waiting.take(k).contains(rows[i].id)
                    ==> #[trigger] after[i] == rows[i]
        }),
    decreases k,
{
    if k > 0 {
        lemma_worked_rows(q, rows, answers, k - 1);
        lemma_worked_queue(q, rows, answers, k - 1);
        let before = worked(q, rows, answers, k - 1).1;
        let after = worked(q, rows, answers, k).1;
        let id = q.waiting[k - 1];
        let fewer = q.waiting.take(k - 1);
        let more = q.waiting.take(k);
        assert(q.waiting.skip(k - 1)[0] == id);
        assert(more[k - 1] == id);
        assert forall|i: int| 0 <= i < rows.len() && !more.contains(rows[i].id) implies
            #[trigger] after[i] == rows[i] by {
            assert(!fewer.contains(rows[i].id)) by {
                if fewer.contains(rows[i].id) {
                    let j = choose|j: int| 0 <= j < fewer.len() && fewer[j] == rows[i].id;
                    assert(more[j] == rows[i].id);
                }
            }
            assert(before[i] == rows[i]);
            assert(rows[i].id != id);
        }
    }
}

/// Commands go out in the order in which they were handed over, one at a time, each
/// with its own words and its own answer: in its round the command at the `k`-th place
/// is the one that is sent out, what is loaded for it is the text that it was recorded
/// with, and in the end it is exactly what its own answer makes of it, whatever became
/// of the others.
pub proof fn law_commands_are_submitted_in_order(
    q: QueueView,
    rows: Seq<RowView>,
    answers: Seq<(Result<Submitted, String>, i64)>,
    k: int,
    i: int,
)
    requires
        q.current is None,
        q.waiting.no_duplicates(),
        answers.len() == q.waiting.len(),
        unique_ids(rows),
        0 <= k < q.waiting.len(),
        0 <= i < rows.len(),
        rows[i].id == q.waiting[k],
        rows[i].status == word(Status::Queued),
    ensures
        ({
            let (then, log) = worked(q, rows, answers, k);
            let id = q.waiting[k];
            &&& then.waiting.len() > 0
            &&& sent_out(then).current == Some(id)
            &&& news(log, id) is Some
            &&& log[position(log, id)].text == rows[i].text
        }),
        worked(q, rows, answers, q.waiting.len() as int).1[i] == answered_row(
            rows[i],
            answers[k].0,
            answers[k].1,
        ),
{
    let id = q.waiting[k];
    let n = q.waiting.len() as int;
    lemma_worked_queue(q, rows, answers, k);
    lemma_worked_rows(q, rows, answers, k);
    crate::db::law_status_words_round_trip(Status::Queued, word(Status::Queued));
    let log = worked(q, rows, answers, k).1;
    assert(!q.waiting.take(k).contains(id)) by {
        if q.waiting.take(k).contains(id) {
            let j = choose|j: int| 0 <= j < k && q.waiting.take(k)[j] == id;
            assert(q.waiting[j] == q.waiting[k]);
        }
    }
    assert(log[i] == rows[i]);
    assert forall|j: int| 0 <= j < i implies (#[trigger] log[j]).id != id by {
        assert(log[j].id == rows[j].id);
        assert(rows[j].id != rows[i].id);
    }
    crate::db::lemma_position_is(log, id, i);
    lemma_worked_at(q, rows, answers, k, i, n);
}

proof fn lemma_worked_at(
    q: QueueView,
    rows: Seq<RowView>,
    answers: Seq<(Result<Submitted, String>, i64)>,
    k: int,
    i: int,
    m: int,
)
    requires
        q.current is None,
        q.waiting.no_duplicates(),
        0 <= k < m <= q.waiting.len(),
        0 <= i < rows.len(),
        rows[i].id == q.waiting[k],
        rows[i].status == word(Status::Queued),
        worked(q, rows, answers, k).1[i] == rows[i],
    ensures
        worked(q, rows, answers, m).1[i] == answered_row(rows[i], answers[k].0, answers[k].1),
    decreases m,
{
    lemma_worked_rows(q, rows, answers, m - 1);
    lemma_worked_queue(q, rows, answers, m - 1);
    assert(q.waiting.skip(m - 1)[0] == q.waiting[m - 1]);
    crate::db::law_status_words_round_trip(Status::Queued, word(Status::Queued));
    if m > k + 1 {
        lemma_worked_at(q, rows, answers, k, i, m - 1);
        assert(q.waiting[m - 1] != q.waiting[k]);
    }
}

/// The submitter touches no command but those in its queue.
pub proof fn law_the_submitter_touches_only_its_queue(
    q: QueueView,
    rows: Seq<RowView>,
    answers: Seq<(Result<Submitted, String>, i64)>,
    i: int,
)
    requires
        q.current is None,
        answers.len() == q.waiting.len(),
        0 <= i < rows.len(),
        !q.waiting.contains(rows[i].id),
    ensures
        worked(q, rows, answers, q.waiting.len() as int).1[i] == rows[i],
{
    lemma_worked_rows(q, rows, answers, q.waiting.len() as int);
    assert(q.waiting.take(q.waiting.len() as int) =~= q.waiting);
}

/// What a pass learns of a command: when it looked at it, what `internd` answered about
/// its turn, if it was asked, and when.
pub struct Heard {
    pub looked_at: i64,
    pub answer: Result<Option<TurnState>, String>,
    pub answered_at: i64,
}

/// What a pass does about a command.
pub open spec fn verdict_on(c: RowView, h: Heard, cfg: SweepConfig) -> VerdictView {
    match first_look(c, h.looked_at, cfg) {
        VerdictView::Ask(t) => judged(c, h.answer, h.looked_at, cfg),
        v => v,
    }
}

/// When a pass deals with a command: at once where there is no turn to ask about.
pub open spec fn dealt_at(c: RowView, h: Heard) -> i64 {
    if c.turn_id is Some {
        h.answered_at
    } else {
        h.looked_at
    }
}

/// The log after the first `k` commands of a pass, with what was heard of each.
pub open spec fn swept(
    before: DbView,
    commands: Seq<RowView>,
    heard: Seq<Heard>,
    cfg: SweepConfig,
    k: int,
) -> DbView
    decreases k,
{
    if k <= 0 {
        before
    } else {
        let c = commands[k - 1];
        let h = heard[k - 1];
        after_verdict(
            swept(before, commands, heard, cfg, k - 1),
            c.id,
            verdict_on(c, h, cfg),
            dealt_at(c, h),
        )
    }
}

/// A row in flight, once its command's verdict was carried out.
pub open spec fn dealt_with(r: RowView, v: VerdictView, now: i64) -> RowView {
    match v {
        VerdictView::Settle(status, reply, error) => finished_row(r, status, reply, error, now),
        _ => r,
    }
}

proof fn lemma_waiting_ids(rows: Seq<RowView>, running_too: bool)
    requires
        unique_ids(rows),
    ensures
        unique_ids(waiting(rows, running_too)),
    decreases rows.len(),
{
    if rows.len() > 0 {
        let init = rows.drop_last();
        lemma_waiting_ids(init, running_too);
        let rest = waiting(init, running_too);
        assert forall|j: int| 0 <= j < rest.len() implies (#[trigger] rest[j]).id
            != rows.last().id by {
            crate::db::law_waiting_is_exact(init, running_too, rest[j]);
            assert(rest.contains(rest[j]));
            let m = choose|m: int| 0 <= m < init.len() && init[m] == rest[j];
            assert(rows[m].id != rows[rows.len() - 1].id);
        }
    }
}

proof fn lemma_oldest_ids(rows: Seq<RowView>)
    requires
        unique_ids(rows),
    ensures
        unique_ids(oldest_first(rows)),
        forall|r: RowView| oldest_first(rows).contains(r) == rows.contains(r),
{
    let n = rows.len() as int;
    let order = oldest_order(rows, n);
    let sorted = oldest_first(rows);
    crate::db::law_oldest_order(rows, n);
    assert forall|a: int, b: int| 0 <= a < b < sorted.len() implies (#[trigger] sorted[a]).id
        != (#[trigger] sorted[b]).id by {
        assert(older(rows, order[a], order[b]));
        let x = order[a];
        let y = order[b];
        assert(rows[x].id != rows[y].id);
    }
    assert forall|r: RowView| sorted.contains(r) == rows.contains(r) by {
        if sorted.contains(r) {
            let k = choose|k: int| 0 <= k < sorted.len() && sorted[k] == r;
            assert(rows[order[k]] == r);
        }
        if rows.contains(r) {
            let i = choose|i: int| 0 <= i < rows.len() && rows[i] == r;
            assert(order.contains(i));
            let k = choose|k: int| 0 <= k < order.len() && order[k] == i;
            assert(sorted[k] == r);
        }
    }
}

proof fn lemma_swept_apart(
    before: DbView,
    commands: Seq<RowView>,
    heard: Seq<Heard>,
    cfg: SweepConfig,
    k: int,
    i: int,
)
    requires
        0 <= k <= commands.len(),
        0 <= i < before.rows.len(),
        forall|j: int| 0 <= j < k ==> (#[trigger] commands[j]).id != before.rows[i].id,
    ensures
        swept(before, commands, heard, cfg, k).rows.len() == before.rows.len(),
        swept(before, commands, heard, cfg, k).rows[i] == before.rows[i],
    decreases k,
{
    if k > 0 {
        lemma_swept_apart(before, commands, heard, cfg, k - 1, i);
        assert(commands[k - 1].id != before.rows[i].id);
    }
}

proof fn lemma_swept_at(
    before: DbView,
    commands: Seq<RowView>,
    heard: Seq<Heard>,
    cfg: SweepConfig,
    k: int,
    i: int,
    at: int,
)
    requires
        0 <= at < k <= commands.len(),
        0 <= i < before.rows.len(),
        unique_ids(commands),
        commands[at] == before.rows[i],
        !has_outcome(before.rows[i]),
    ensures
        swept(before, commands, heard, cfg, k).rows.len() == before.rows.len(),
        swept(before, commands, heard, cfg, k).rows[i] == dealt_with(
            before.rows[i],
            verdict_on(commands[at], heard[at], cfg),
            dealt_at(commands[at], heard[at]),
        ),
    decreases k,
{
    if k == at + 1 {
        assert forall|j: int| 0 <= j < at implies (#[trigger] commands[j]).id
            != before.rows[i].id by {
            assert(commands[j].id != commands[at].id);
        }
        lemma_swept_apart(before, commands, heard, cfg, at, i);
    } else {
        lemma_swept_at(before, commands, heard, cfg, k - 1, i, at);
        assert(commands[at].id != commands[k - 1].id);
    }
}

/// A whole pass does to each command in flight exactly what its own verdict says,
/// whatever becomes of the others, and touches no command that is not in flight.
pub proof fn law_a_pass_deals_with_each_command(
    before: DbView,
    heard: Seq<Heard>,
    cfg: SweepConfig,
    i: int,
)
    requires
        unique_ids(before.rows),
        heard.len() == waiting(oldest_first(before.rows), true).len(),
        0 <= i < before.rows.len(),
    ensures
        ({
            let commands = waiting(oldest_first(before.rows), true);
            let after = swept(before, commands, heard, cfg, commands.len() as int);
            &&& after.rows.len() == before.rows.len()
            &&& in_flight(before.rows[i]) ==> exists|k: int|
                #![trigger commands[k]]
                0 <= k < commands.len() && commands[k] == before.rows[i] && after.rows[i]
                    == dealt_with(
                    before.rows[i],
                    verdict_on(before.rows[i], heard[k], cfg),
                    dealt_at(before.rows[i], heard[k]),
                )
            &&& !in_flight(before.rows[i]) ==> after.rows[i] == before.rows[i]
        }),
{
    let rows = before.rows;
    let sorted = oldest_first(rows);
    let commands = waiting(sorted, true);
    let n = commands.len() as int;
    lemma_oldest_ids(rows);
    lemma_waiting_ids(sorted, true);
    crate::db::law_waiting_is_exact(sorted, true, rows[i]);
    assert(rows.contains(rows[i]));
    if in_flight(rows[i]) {
        let at = choose|k: int| 0 <= k < n && commands[k] == rows[i];
        crate::db::law_status_words_round_trip(Status::Queued, word(Status::Queued));
        crate::db::law_status_words_round_trip(Status::Running, word(Status::Running));
        lemma_swept_at(before, commands, heard, cfg, n, i, at);
    } else {
        assert forall|j: int| 0 <= j < n implies (#[trigger] commands[j]).id != rows[i].id by {
            crate::db::law_waiting_is_exact(sorted, true, commands[j]);
            assert(commands.contains(commands[j]));
            assert(sorted.contains(commands[j]) && rows.contains(commands[j]));
            let m = choose|m: int| 0 <= m < rows.len() && rows[m] == commands[j];
            assert(rows[m].id != rows[i].id) by {
                if m < i {
                    assert(rows[m].id != rows[i].id);
                } else {
                    assert(rows[i].id != rows[m].id);
                }
            }
        }
        lemma_swept_apart(before, commands, heard, cfg, n, i);
    }
}

/// What a command gets from an answer about its turn: where `internd` says done,
/// failed, timed out or cancelled, exactly that word, with the reply and the error of
/// the answer; any other word changes nothing at all.
pub proof fn law_an_answered_outcome_is_written_as_it_came(
    before: DbView,
    c: RowView,
    state: TurnState,
    asked_at: i64,
    cfg: SweepConfig,
    now: i64,
    i: int,
)
    requires
        0 <= i < before.rows.len(),
        before.rows[i].id == c.id,
        before.rows[i].status == "queued"@ || before.rows[i].status == "running"@,
    ensures
        ({
            let row = before.rows[i];
            let log = after_verdict(before, c.id, judged(c, Ok(Some(state)), asked_at, cfg), now);
            let after = log.rows[i];
            let word = state.status@;
            &&& log.rows.len() == before.rows.len()
            &&& log.injecting == before.injecting
            &&& word == "done"@ || word == "failed"@ || word == "timed_out"@ || word
                == "cancelled"@ ==> {
                &&& after.status == word
                &&& after.reply == (match state.reply_md {
                    Some(s) => Some(s@),
                    None => None,
                })
                &&& after.error == (match state.error {
                    Some(s) => Some(s@),
                    None => None,
                })
                &&& after.finished_at == Some(now)
                &&& after.id == row.id && after.text == row.text
                &&& after.created_at == row.created_at && after.started_at == row.started_at
                &&& after.project_id == row.project_id && after.turn_id == row.turn_id
                &&& after.project_url == row.project_url
            }
            &&& word != "done"@ && word != "failed"@ && word != "timed_out"@ && word
                != "cancelled"@ ==> log == before
        }),
{
    crate::db::law_five_words_are_outcomes(before.rows[i]);
    crate::intern::law_four_words_are_outcomes(state.status@);
    crate::intern::law_mapped_statuses_are_outcomes(state.status@);
}

/// The same of a whole pass: a command in flight whose turn was answered with an
/// outcome has, once the pass is over, exactly that word as its status, and the reply
/// and the error of the answer, whatever was heard of the other commands.
pub proof fn law_a_pass_writes_each_outcome_as_it_came(
    before: DbView,
    heard: Seq<Heard>,
    cfg: SweepConfig,
    i: int,
    k: int,
    state: TurnState,
)
    requires
        unique_ids(before.rows),
        heard.len() == waiting(oldest_first(before.rows), true).len(),
        0 <= i < before.rows.len(),
        before.rows[i].status == "queued"@ || before.rows[i].status == "running"@,
        before.rows[i].turn_id is Some,
        0 <= k < heard.len(),
        waiting(oldest_first(before.rows), true)[k] == before.rows[i],
        heard[k].answer == Ok::<Option<TurnState>, String>(Some(state)),
        state.status@ == "done"@ || state.status@ == "failed"@ || state.status@ == "timed_out"@
            || state.status@ == "cancelled"@,
    ensures
        ({
            let row = before.rows[i];
            let commands = waiting(oldest_first(before.rows), true);
            let after = swept(before, commands, heard, cfg, commands.len() as int).rows[i];
            &&& after.status == state.status@
            &&& after.reply == (match state.reply_md {
                Some(s) => Some(s@),
                None => None,
            })
            &&& after.error == (match state.error {
                Some(s) => Some(s@),
                None => None,
            })
            &&& after.finished_at == Some(heard[k].answered_at)
            &&& after.id == row.id && after.text == row.text && after.created_at == row.created_at
            &&& after.started_at == row.started_at && after.turn_id == row.turn_id
            &&& after.project_id == row.project_id && after.project_url == row.project_url
        }),
{
    let sorted = oldest_first(before.rows);
    let commands = waiting(sorted, true);
    lemma_oldest_ids(before.rows);
    lemma_waiting_ids(sorted, true);
    crate::db::law_five_words_are_outcomes(before.rows[i]);
    lemma_swept_at(before, commands, heard, cfg, commands.len() as int, i, k);
    crate::intern::law_four_words_are_outcomes(state.status@);
    crate::intern::law_mapped_statuses_are_outcomes(state.status@);
}

/// A command whose turn `internd` no longer has failed, as one of a deleted project.
pub proof fn law_a_missing_turn_fails_its_command(
    before: DbView,
    c: RowView,
    asked_at: i64,
    cfg: SweepConfig,
    now: i64,
    i: int,
)
    requires
        0 <= i < before.rows.len(),
        before.rows[i].id == c.id,
        before.rows[i].status == "queued"@ || before.rows[i].status == "running"@,
    ensures
        ({
            let row = before.rows[i];
            let log = after_verdict(before, c.id, judged(c, Ok(None), asked_at, cfg), now);
            log.rows[i] == RowView {
                status: "failed"@,
                reply: None,
                error: Some("the project was deleted in intern"@),
                finished_at: Some(now),
                ..row
            }
        }),
{
    crate::db::law_five_words_are_outcomes(before.rows[i]);
}

/// While `internd` cannot be asked, a command is given up on from the configured age
/// on, with the age in seconds and the reason; a younger one is left as it is. The age
/// counts from when the command was spoken to when it was asked about.
pub proof fn law_only_a_stale_command_is_given_up_on(
    before: DbView,
    c: RowView,
    error: String,
    asked_at: i64,
    cfg: SweepConfig,
    now: i64,
    i: int,
)
    requires
        0 <= i < before.rows.len(),
        before.rows[i].id == c.id,
        before.rows[i].status == "queued"@ || before.rows[i].status == "running"@,
    ensures
        ({
            let row = before.rows[i];
            let log = after_verdict(before, c.id, judged(c, Err(error), asked_at, cfg), now);
            let age = asked_at - c.created_at;
            &&& age >= cfg.stale_after_secs && age >= 0 ==> log.rows[i] == RowView {
                status: "timed_out"@,
                reply: None,
                error: Some(
                    "internd unreachable for "@ + text::decimal(age as nat) + "s: "@ + error@,
                ),
                finished_at: Some(now),
                ..row
            }
            &&& age < cfg.stale_after_secs && cfg.stale_after_secs > 0 ==> log == before
        }),
{
    crate::db::law_five_words_are_outcomes(before.rows[i]);
}

/// A command that has a turn is asked about by that turn. One that has none is failed
/// from the configured age on, as never having reached `internd`, and a younger one is
/// left as it is.
pub proof fn law_a_command_without_a_turn_ages_out(
    before: DbView,
    c: RowView,
    now: i64,
    cfg: SweepConfig,
    i: int,
)
    requires
        0 <= i < before.rows.len(),
        before.rows[i].id == c.id,
        before.rows[i].status == "queued"@ || before.rows[i].status == "running"@,
    ensures
        ({
            let row = before.rows[i];
            let v = first_look(c, now, cfg);
            let log = after_verdict(before, c.id, v, now);
            let age = now - c.created_at;
            &&& c.turn_id matches Some(t) ==> v == VerdictView::Ask(t) && log == before
            &&& c.turn_id is None && age >= cfg.submit_timeout_secs && age >= 0 ==> log.rows[i]
                == RowView {
                status: "failed"@,
                reply: None,
                error: Some(
                    "never reached internd (still "@ + c.status + " after "@ + text::decimal(
                        age as nat,
                    ) + "s)"@,
                ),
                finished_at: Some(now),
                ..row
            }
            &&& c.turn_id is None && age < cfg.submit_timeout_secs && cfg.submit_timeout_secs > 0
                ==> v is Leave && log == before
        }),
{
    crate::db::law_five_words_are_outcomes(before.rows[i]);
}

/// The console is told of a command that a verdict settled as it stands then, and of
/// nothing else.
pub proof fn law_the_console_hears_of_what_was_settled(
    before: DbView,
    id: Seq<char>,
    v: VerdictView,
    now: i64,
    i: int,
)
    requires
        0 <= i < before.rows.len(),
        before.rows[i].id == id,
        unique_ids(before.rows),
        v matches VerdictView::Settle(status, reply, error) ==> crate::db::terminal(status),
    ensures
        verdict_news(before, id, v, now) == (if v is Settle && (before.rows[i].status == "queued"@
            || before.rows[i].status == "running"@ || status_of(before.rows[i].status) is None) {
            Some(EventView::Command(after_verdict(before, id, v, now).rows[i]))
        } else {
            None
        }),
{
    let row = before.rows[i];
    crate::db::law_five_words_are_outcomes(row);
    if v is Settle {
        let after = after_verdict(before, id, v, now).rows;
        assert(after[i].id == id);
        assert forall|k: int| 0 <= k < i implies (#[trigger] after[k]).id != id by {
            assert(before.rows[k].id != before.rows[i].id);
        }
        crate::db::lemma_position_is(after, id, i);
        assert(has_id(after, id));
        let status = v->Settle_0;
        crate::db::law_status_words_round_trip(status, word(status));
        assert(open_command(before.rows, id) == !has_outcome(row)) by {
            if open_command(before.rows, id) {
                let k = choose|k: int|
                    0 <= k < before.rows.len() && #[trigger] before.rows[k].id == id
                        && !has_outcome(before.rows[k]);
                if k < i {
                    assert(before.rows[k].id != before.rows[i].id);
                } else if k > i {
                    assert(before.rows[i].id != before.rows[k].id);
                }
            }
        }
        crate::db::law_status_words_round_trip(Status::Queued, word(Status::Queued));
        crate::db::law_status_words_round_trip(Status::Running, word(Status::Running));
    }
}

/// A command that is accepted goes to the end of the log with its words and its time,
/// under an id that no command had: queued and handed to the submitter while the kill
/// switch is on, held with the time of its arrival while it is off.
pub proof fn law_an_accepted_command_is_recorded_as_spoken(
    before: DbView,
    after: DbView,
    a: Accepted,
    text: Seq<char>,
    created_at: i64,
    now: i64,
)
    requires
        accepts(before, after, a, text, created_at, now),
    ensures
        ({
            let on = before.injecting is None || before.injecting == Some("1"@);
            let row = after.rows.last();
            &&& after.rows.len() == before.rows.len() + 1
            &&& after.rows.drop_last() == before.rows
            &&& after.injecting == before.injecting
            &&& forall|i: int| 0 <= i < before.rows.len() ==> (#[trigger] before.rows[i]).id != a.id@
            &&& row.id == a.id@
            &&& row.text == text
            &&& row.created_at == created_at
            &&& row.reply is None && row.error is None && row.started_at is None
            &&& row.project_id is None && row.turn_id is None && row.project_url is None
            &&& a.enqueue == on
            &&& on ==> row.status == "queued"@ && row.finished_at is None && a.status
                == Status::Queued
            &&& !on ==> row.status == "held"@ && row.finished_at == Some(now) && a.status
                == Status::Held
            &&& opt_event(a.event) == Some(EventView::Command(row))
        }),
{
    assert(after.rows.drop_last() =~= before.rows);
}

/// A queued command whose submission was accepted runs from then on as the turn that
/// the answer names; where it was refused the command has failed, with the reason that
/// was given; no command but that one changes.
pub proof fn law_a_submission_is_recorded_as_answered(
    rows: Seq<RowView>,
    id: Seq<char>,
    s: Submitted,
    reason: String,
    now: i64,
    i: int,
)
    requires
        0 <= i < rows.len(),
    ensures
        ({
            let ok = after_submission(rows, id, Ok(s), now);
            let refused = after_submission(rows, id, Err(reason), now);
            &&& ok.len() == rows.len() && refused.len() == rows.len()
            &&& rows[i].id != id ==> ok[i] == rows[i] && refused[i] == rows[i]
            &&& rows[i].id == id && rows[i].status == "queued"@ ==> {
                &&& ok[i] == RowView {
                    status: "running"@,
                    started_at: Some(now),
                    project_id: Some(s.project_id@),
                    turn_id: Some(s.turn_id@),
                    project_url: (match s.url {
                        Some(u) => Some(u@),
                        None => None,
                    }),
                    ..rows[i]
                }
                &&& refused[i] == RowView {
                    status: "failed"@,
                    reply: None,
                    error: Some(reason@),
                    finished_at: Some(now),
                    ..rows[i]
                }
            }
            &&& rows[i].status != "queued"@ ==> ok[i] == rows[i]
            &&& rows[i].id == id && rows[i].status == "running"@ ==> refused[i] == RowView {
                status: "failed"@,
                reply: None,
                error: Some(reason@),
                finished_at: Some(now),
                ..rows[i]
            }
        }),
{
    crate::db::law_five_words_are_outcomes(rows[i]);
}

/// Of the ids that were drawn the first that no command has is taken: every one before
/// it is some command's, and none is found exactly where all are.
pub proof fn law_the_first_free_id_is_taken(rows: Seq<RowView>, ids: Seq<Seq<char>>, i: int)
    requires
        0 <= i <= ids.len(),
    ensures
        match first_free(rows, ids, i) {
            Some(k) => {
                &&& i <= k < ids.len()
                &&& forall|j: int| 0 <= j < rows.len() ==> (#[trigger] rows[j]).id != ids[k]
                &&& forall|m: int|
                    i <= m < k ==> exists|j: int|
                        0 <= j < rows.len() && (#[trigger] rows[j]).id == #[trigger] ids[m]
            },
            None => forall|m: int|
                i <= m < ids.len() ==> exists|j: int|
                    0 <= j < rows.len() && (#[trigger] rows[j]).id == #[trigger] ids[m],
        },
    decreases ids.len() - i,
{
    if i < ids.len() && has_id(rows, ids[i]) {
        law_the_first_free_id_is_taken(rows, ids, i + 1);
    }
}

/// Sixteen ids are drawn for a command, and the queue of the submitter holds as many as
/// 256 commands.
pub proof fn law_limits(ids: Seq<Seq<char>>)
    requires
        drawn(ids),
    ensures
        ids.len() == 16,
        forall|i: int| 0 <= i < ids.len() ==> (#[trigger] ids[i]).len() == 4,
        QUEUE_LIMIT == 256,
{
}

/// What is taken from the queue is what has waited longest, and the rest stays in its
/// order.
pub proof fn law_the_queue_is_first_in_first_out(q: QueueView, id: Seq<char>)
    requires
        q.waiting.len() > 0,
    ensures
        sent_out(q).current == Some(q.waiting[0]),
        seq![q.waiting[0]] + sent_out(q).waiting == q.waiting,
        seq![q.waiting[0]] + taken(q).waiting == q.waiting,
        taken(q).current == q.current,
        sent_out(QueueView { waiting: q.waiting.push(id), ..q }).waiting == sent_out(
            q,
        ).waiting.push(id),
{
    assert(seq![q.waiting[0]] + q.waiting.skip(1) =~= q.waiting);
    assert(q.waiting.push(id).skip(1) =~= q.waiting.skip(1).push(id));
}

/// The answer about a turn settles the command that the pass has come to: where it is
/// one of the four words, its row has that word, the reply and the error of the answer,
/// and the console is told of the row as it then is; the pass goes on to the next.
pub proof fn law_an_answer_settles_the_command_at_hand(
    state: TurnState,
    now: i64,
    cfg: SweepConfig,
    r: Option<Event>,
    i: int,
)
    requires
        state.status@ == "done"@ || state.status@ == "failed"@ || state.status@ == "timed_out"@
            || state.status@ == "cancelled"@,
    ensures
        forall|s: &mut Sweep, p: &mut Db| #[trigger]
            call_ensures(Sweep::answer, (s, p, Ok(Some(state)), now, cfg), r) && 0 <= s@.at
                < s@.commands.len() && unique_ids(p@.rows) && 0 <= i < p@.rows.len()
                && p@.rows[i].id == s@.commands[s@.at].id && (p@.rows[i].status == "queued"@
                || p@.rows[i].status == "running"@) ==> {
                let after = final(p)@.rows[i];
                &&& after.status == state.status@
                &&& after.reply == (match state.reply_md {
                    Some(t) => Some(t@),
                    None => None,
                })
                &&& after.error == (match state.error {
                    Some(t) => Some(t@),
                    None => None,
                })
                &&& after.finished_at == Some(now)
                &&& after.text == p@.rows[i].text
                &&& r matches Some(e) && e@ == EventView::Command(after)
                &&& final(s)@.at == s@.at + 1
            },
{
    assert forall|s: &mut Sweep, p: &mut Db| #[trigger]
        call_ensures(Sweep::answer, (s, p, Ok(Some(state)), now, cfg), r) && 0 <= s@.at
            < s@.commands.len() && unique_ids(p@.rows) && 0 <= i < p@.rows.len() && p@.rows[i].id
            == s@.commands[s@.at].id && (p@.rows[i].status == "queued"@ || p@.rows[i].status
            == "running"@) implies {
        let after = final(p)@.rows[i];
        &&& after.status == state.status@
        &&& after.reply == (match state.reply_md {
            Some(t) => Some(t@),
            None => None,
        })
        &&& after.error == (match state.error {
            Some(t) => Some(t@),
            None => None,
        })
        &&& after.finished_at == Some(now)
        &&& after.text == p@.rows[i].text
        &&& r matches Some(e) && e@ == EventView::Command(after)
        &&& final(s)@.at == s@.at + 1
    } by {
        let c = s@.commands[s@.at];
        let v = judged(c, Ok(Some(state)), s@.asked_at, cfg);
        law_an_answered_outcome_is_written_as_it_came(p@, c, state, s@.asked_at, cfg, now, i);
        crate::intern::law_four_words_are_outcomes(state.status@);
        crate::intern::law_mapped_statuses_are_outcomes(state.status@);
        law_the_console_hears_of_what_was_settled(p@, c.id, v, now, i);
    }
}

/// A pass begins with everything that is queued or running, and asks about a command by
/// the turn that it runs as.
pub proof fn law_a_pass_asks_about_every_turn(db: &Db, pass: Sweep, now: i64, cfg: SweepConfig, i: int)
    requires
        call_ensures(Sweep::begin, (db,), pass),
        0 <= i < db@.rows.len(),
    ensures
        pass@.at == 0,
        pass@.commands.contains(db@.rows[i]) == (db@.rows[i].status == "queued"@
            || db@.rows[i].status == "running"@),
        forall|s: &mut Sweep, p: &mut Db, turn: String| #[trigger]
            call_ensures(Sweep::step, (s, p, now, cfg), SweepStep::Ask(turn)) ==> {
                &&& s@.commands[s@.at].turn_id == Some(turn@)
                &&& final(p)@ == p@
                &&& final(s)@.at == s@.at
            },
{
    let sorted = oldest_first(db@.rows);
    crate::db::law_waiting_is_exact(sorted, true, db@.rows[i]);
    crate::db::law_what_waits_is_listed_oldest_first(db@.rows, true);
}

/// The queue hands out what it was handed, in that order: what was enqueued into an
/// empty queue is the next to be submitted, with the text that the log has for it, and
/// what was enqueued behind others is handed out behind them.
pub proof fn law_what_is_enqueued_is_submitted(id: &str, first: String, text: String)
    ensures
        forall|q: &mut Queue| #[trigger]
            call_ensures(Queue::enqueue, (q, id), true) ==> final(q)@.waiting.last() == id@
                && final(q)@.waiting.drop_last() == q@.waiting && final(q)@.current == q@.current,
        forall|q: &mut Queue| #[trigger]
            call_ensures(Queue::enqueue, (q, id), false) ==> final(q)@ == q@ && q@.waiting.len()
                >= 256,
        forall|q: &mut Queue, db: &Db| #[trigger]
            call_ensures(Queue::next, (q, db), Next::Submit { id: first, text }) ==> {
                &&& q@.waiting.len() > 0
                &&& first@ == q@.waiting[0]
                &&& final(q)@.current == Some(first@)
                &&& final(q)@.waiting == q@.waiting.skip(1)
                &&& exists|k: int|
                    0 <= k < db@.rows.len() && #[trigger] db@.rows[k].id == first@
                        && db@.rows[k].text == text@
            },
{
    assert forall|q: &mut Queue| #[trigger]
        call_ensures(Queue::enqueue, (q, id), true) implies final(q)@.waiting.last() == id@
        && final(q)@.waiting.drop_last() == q@.waiting && final(q)@.current == q@.current by {
        assert(q@.waiting.push(id@).drop_last() =~= q@.waiting);
    }
    assert forall|q: &mut Queue, db: &Db| #[trigger]
        call_ensures(Queue::next, (q, db), Next::Submit { id: first, text }) implies {
        &&& q@.waiting.len() > 0
        &&& first@ == q@.waiting[0]
        &&& final(q)@.current == Some(first@)
        &&& final(q)@.waiting == q@.waiting.skip(1)
        &&& exists|k: int|
            0 <= k < db@.rows.len() && #[trigger] db@.rows[k].id == first@ && db@.rows[k].text
                == text@
    } by {
        let rows = db@.rows;
        let k = position(rows, first@);
        crate::db::lemma_position(rows, first@);
        let n = choose|n: int| 0 <= n < rows.len() && #[trigger] rows[n].id == first@;
        assert(rows[k].id == first@);
    }
}

/// A turn status that is neither an outcome nor in progress is not understood, and no
/// other is.
pub proof fn law_what_is_not_understood(state: &TurnState, r: bool)
    requires
        call_ensures(not_understood, (state,), r),
    ensures
        r == !(state.status@ == "done"@ || state.status@ == "failed"@ || state.status@
            == "timed_out"@ || state.status@ == "cancelled"@ || state.status@ == "queued"@
            || state.status@ == "running"@),
{
    crate::intern::law_four_words_are_outcomes(state.status@);
}

/// Accepting a command fails only where every id is some command's, and then changes
/// nothing; otherwise the command has the first id that is free.
pub proof fn law_accepting_fails_only_without_a_free_id(
    before: DbView,
    after: DbView,
    ids: Seq<Seq<char>>,
    r: Result<Accepted, DbError>,
    text: Seq<char>,
    created_at: i64,
    now: i64,
    k: int,
)
    requires
        accepts_first(before, after, ids, r, text, created_at, now),
        0 <= k < ids.len(),
        forall|m: int| 0 <= m < k ==> has_id(before.rows, #[trigger] ids[m]),
    ensures
        (forall|i: int| 0 <= i < before.rows.len() ==> (#[trigger] before.rows[i]).id != ids[k])
            ==> (r matches Ok(a) && a.id@ == ids[k] && accepts(
            before,
            after,
            a,
            text,
            created_at,
            now,
        )),
        r is Err ==> after == before && forall|m: int|
            0 <= m < ids.len() ==> has_id(before.rows, #[trigger] ids[m]),
{
    law_the_first_free_id_is_taken(before.rows, ids, 0);
    match first_free(before.rows, ids, 0) {
        Some(f) => {
            if f < k {
                assert(has_id(before.rows, ids[f]));
            }
            if f > k && (forall|i: int|
                0 <= i < before.rows.len() ==> (#[trigger] before.rows[i]).id != ids[k]) {
                assert(ids[k] == ids[k]);
            }
        },
        None => {
            assert forall|m: int| 0 <= m < ids.len() implies has_id(
                before.rows,
                #[trigger] ids[m],
            ) by {
                assert(ids[m] == ids[m]);
            }
        },
    }
}

/// The console is told of a command as it stands in the log, where its status is known.
pub proof fn law_news_is_the_command_as_it_stands(rows: Seq<RowView>, i: int)
    requires
        unique_ids(rows),
        0 <= i < rows.len(),
    ensures
        rows[i].status == "queued"@ || rows[i].status == "running"@ || rows[i].status == "done"@
            || rows[i].status == "timed_out"@ || rows[i].status == "failed"@ || rows[i].status
            == "cancelled"@ || rows[i].status == "held"@ ==> news(rows, rows[i].id) == Some(
            EventView::Command(rows[i]),
        ),
        !(rows[i].status == "queued"@ || rows[i].status == "running"@ || rows[i].status == "done"@
            || rows[i].status == "timed_out"@ || rows[i].status == "failed"@ || rows[i].status
            == "cancelled"@ || rows[i].status == "held"@) ==> news(rows, rows[i].id) is None,
{
    assert forall|k: int| 0 <= k < i implies (#[trigger] rows[k]).id != rows[i].id by {}
    crate::db::lemma_position_is(rows, rows[i].id, i);
    assert(has_id(rows, rows[i].id));
    crate::db::law_status_words_round_trip(Status::Queued, rows[i].status);
    crate::db::law_status_words_round_trip(Status::Running, rows[i].status);
    crate::db::law_status_words_round_trip(Status::Done, rows[i].status);
    crate::db::law_status_words_round_trip(Status::TimedOut, rows[i].status);
    crate::db::law_status_words_round_trip(Status::Failed, rows[i].status);
    crate::db::law_status_words_round_trip(Status::Cancelled, rows[i].status);
    crate::db::law_status_words_round_trip(Status::Held, rows[i].status);
}

/// The answer to the submission that is out goes to the command that was submitted: its
/// row runs as the turn that was named, or has failed with the reason, the console is
/// told of it as it then is, and the queue is free for the next.
pub proof fn law_an_answer_goes_to_the_command_that_was_submitted(
    s: Submitted,
    reason: String,
    now: i64,
    r: Option<Event>,
    i: int,
)
    ensures
        forall|q: &mut Queue, p: &mut Db| #[trigger]
            call_ensures(Queue::answered, (q, p, Ok(s), now), r) && unique_ids(p@.rows) && 0 <= i
                < p@.rows.len() && q@.current == Some(p@.rows[i].id) && p@.rows[i].status
                == "queued"@ ==> {
                let after = final(p)@.rows[i];
                &&& after.status == "running"@
                &&& after.turn_id == Some(s.turn_id@)
                &&& after.project_id == Some(s.project_id@)
                &&& after.text == p@.rows[i].text
                &&& r matches Some(e) && e@ == EventView::Command(after)
                &&& final(q)@.current is None && final(q)@.waiting == q@.waiting
            },
        forall|q: &mut Queue, p: &mut Db| #[trigger]
            call_ensures(Queue::answered, (q, p, Err(reason), now), r) && unique_ids(p@.rows) && 0
                <= i < p@.rows.len() && q@.current == Some(p@.rows[i].id) && p@.rows[i].status
                == "queued"@ ==> {
                let after = final(p)@.rows[i];
                &&& after.status == "failed"@
                &&& after.error == Some(reason@)
                &&& after.finished_at == Some(now)
                &&& r matches Some(e) && e@ == EventView::Command(after)
                &&& final(q)@.current is None && final(q)@.waiting == q@.waiting
            },
{
    assert forall|q: &mut Queue, p: &mut Db| #[trigger]
        call_ensures(Queue::answered, (q, p, Ok(s), now), r) && unique_ids(p@.rows) && 0 <= i
            < p@.rows.len() && q@.current == Some(p@.rows[i].id) && p@.rows[i].status
            == "queued"@ implies {
        let after = final(p)@.rows[i];
        &&& after.status == "running"@
        &&& after.turn_id == Some(s.turn_id@)
        &&& after.project_id == Some(s.project_id@)
        &&& after.text == p@.rows[i].text
        &&& r matches Some(e) && e@ == EventView::Command(after)
        &&& final(q)@.current is None && final(q)@.waiting == q@.waiting
    } by {
        let rows = p@.rows;
        let after = final(p)@.rows;
        law_a_submission_is_recorded_as_answered(rows, rows[i].id, s, reason, now, i);
        assert forall|a: int, b: int| 0 <= a < b < after.len() implies (#[trigger] after[a]).id != (
        #[trigger] after[b]).id by {
            assert(rows[a].id != rows[b].id);
        }
        law_news_is_the_command_as_it_stands(after, i);
    }
    assert forall|q: &mut Queue, p: &mut Db| #[trigger]
        call_ensures(Queue::answered, (q, p, Err(reason), now), r) && unique_ids(p@.rows) && 0 <= i
            < p@.rows.len() && q@.current == Some(p@.rows[i].id) && p@.rows[i].status
            == "queued"@ implies {
        let after = final(p)@.rows[i];
        &&& after.status == "failed"@
        &&& after.error == Some(reason@)
        &&& after.finished_at == Some(now)
        &&& r matches Some(e) && e@ == EventView::Command(after)
        &&& final(q)@.current is None && final(q)@.waiting == q@.waiting
    } by {
        let rows = p@.rows;
        let after = final(p)@.rows;
        law_a_submission_is_recorded_as_answered(rows, rows[i].id, s, reason, now, i);
        assert forall|a: int, b: int| 0 <= a < b < after.len() implies (#[trigger] after[a]).id != (
        #[trigger] after[b]).id by {
            assert(rows[a].id != rows[b].id);
        }
        law_news_is_the_command_as_it_stands(after, i);
        crate::db::law_five_words_are_outcomes(rows[i]);
        assert(!has_outcome(rows[i]));
        assert(open_command(rows, rows[i].id));
    }
}

/// A pass tells the console of a command that it settled without asking, as it then is,
/// and goes on to the next.
pub proof fn law_a_pass_settles_what_never_reached_internd(
    now: i64,
    cfg: SweepConfig,
    told: Option<Event>,
)
    ensures
        forall|s: &mut Sweep, p: &mut Db| #[trigger]
            call_ensures(Sweep::step, (s, p, now, cfg), SweepStep::Tell(told)) ==> {
                let c = s@.commands[s@.at];
                &&& c.turn_id is None
                &&& final(s)@.at == s@.at + 1
                &&& now - c.created_at < cfg.submit_timeout_secs && cfg.submit_timeout_secs > 0
                    ==> final(p)@ == p@ && told is None
                &&& now - c.created_at >= cfg.submit_timeout_secs && now >= c.created_at
                    ==> forall|i: int|
                    0 <= i < p@.rows.len() && (#[trigger] p@.rows[i]).id == c.id && (
                    p@.rows[i].status == "queued"@ || p@.rows[i].status == "running"@)
                        ==> final(p)@.rows[i].status == "failed"@ && final(p)@.rows[i].finished_at
                        == Some(now)
            },
        forall|s: &mut Sweep, p: &mut Db| #[trigger]
            call_ensures(Sweep::step, (s, p, now, cfg), SweepStep::Over) ==> s@.at
                >= s@.commands.len() && final(p)@ == p@,
{
    assert forall|s: &mut Sweep, p: &mut Db| #[trigger]
        call_ensures(Sweep::step, (s, p, now, cfg), SweepStep::Tell(told)) implies {
        let c = s@.commands[s@.at];
        &&& c.turn_id is None
        &&& final(s)@.at == s@.at + 1
        &&& now - c.created_at < cfg.submit_timeout_secs && cfg.submit_timeout_secs > 0
            ==> final(p)@ == p@ && told is None
        &&& now - c.created_at >= cfg.submit_timeout_secs && now >= c.created_at ==> forall|i: int|
            0 <= i < p@.rows.len() && (#[trigger] p@.rows[i]).id == c.id && (p@.rows[i].status
                == "queued"@ || p@.rows[i].status == "running"@) ==> final(p)@.rows[i].status
                == "failed"@ && final(p)@.rows[i].finished_at == Some(now)
    } by {
        let c = s@.commands[s@.at];
        assert forall|i: int|
            0 <= i < p@.rows.len() && (#[trigger] p@.rows[i]).id == c.id && (p@.rows[i].status
                == "queued"@ || p@.rows[i].status == "running"@) && now - c.created_at
                >= cfg.submit_timeout_secs && now >= c.created_at implies final(p)@.rows[i].status
            == "failed"@ && final(p)@.rows[i].finished_at == Some(now) by {
            law_a_command_without_a_turn_ages_out(p@, c, now, cfg, i);
        }
    }
}

/// A command that is accepted stands at the end of the log as it was spoken, and one that
/// is not leaves the log as it was.
pub proof fn law_accepting_records_the_command(
    text: &str,
    created_at: i64,
    now: i64,
    a: Accepted,
    e: DbError,
)
    ensures
        forall|p: &mut Db| #[trigger]
            call_ensures(accept, (p, text, created_at, now), Ok(a)) ==> {
                let row = final(p)@.rows.last();
                let on = p@.injecting is None || p@.injecting == Some("1"@);
                &&& final(p)@.rows.len() == p@.rows.len() + 1
                &&& final(p)@.rows.drop_last() == p@.rows
                &&& row.id == a.id@
                &&& row.text == text@
                &&& row.created_at == created_at
                &&& row.status == (if on {
                    "queued"@
                } else {
                    "held"@
                })
                &&& a.enqueue == on
            },
        forall|p: &mut Db| #[trigger]
            call_ensures(accept, (p, text, created_at, now), Err(e)) ==> final(p)@ == p@
                && p@.rows.len() > 0,
{
    assert forall|p: &mut Db| #[trigger]
        call_ensures(accept, (p, text, created_at, now), Ok(a)) implies {
        let row = final(p)@.rows.last();
        let on = p@.injecting is None || p@.injecting == Some("1"@);
        &&& final(p)@.rows.len() == p@.rows.len() + 1
        &&& final(p)@.rows.drop_last() == p@.rows
        &&& row.id == a.id@
        &&& row.text == text@
        &&& row.created_at == created_at
        &&& row.status == (if on {
            "queued"@
        } else {
            "held"@
        })
        &&& a.enqueue == on
    } by {
        law_an_accepted_command_is_recorded_as_spoken(p@, final(p)@, a, text@, created_at, now);
    }
    assert forall|p: &mut Db| #[trigger]
        call_ensures(accept, (p, text, created_at, now), Err(e)) implies final(p)@ == p@
        && p@.rows.len() > 0 by {
        let ids = choose|ids: Seq<Seq<char>>| #[trigger]
            drawn(ids) && accepts_first(p@, final(p)@, ids, Err(e), text@, created_at, now);
        law_the_first_free_id_is_taken(p@.rows, ids, 0);
        law_limits(ids);
        assert(ids[0] == ids[0]);
    }
}

/// How old a command is goes by when its turn was asked about, however long the answer
/// took: where `internd` could not be asked, the command at hand is given up on from the
/// configured age on, and left as it is before that.
pub proof fn law_the_age_goes_by_when_the_turn_was_asked_about(
    error: String,
    now: i64,
    cfg: SweepConfig,
    told: Option<Event>,
    turn: String,
    i: int,
)
    ensures
        forall|s: &mut Sweep, p: &mut Db| #[trigger]
            call_ensures(Sweep::step, (s, p, now, cfg), SweepStep::Ask(turn)) ==> final(s)@.asked_at
                == now && final(s)@.commands == s@.commands,
        forall|s: &mut Sweep, p: &mut Db| #[trigger]
            call_ensures(Sweep::answer, (s, p, Err(error), now, cfg), told) && 0 <= s@.at
                < s@.commands.len() && 0 <= i < p@.rows.len() && p@.rows[i].id
                == s@.commands[s@.at].id && (p@.rows[i].status == "queued"@ || p@.rows[i].status
                == "running"@) ==> {
                let age = s@.asked_at - s@.commands[s@.at].created_at;
                &&& age >= cfg.stale_after_secs && age >= 0 ==> final(p)@.rows[i].status
                    == "timed_out"@ && final(p)@.rows[i].finished_at == Some(now)
                &&& age < cfg.stale_after_secs && cfg.stale_after_secs > 0 ==> final(p)@ == p@
            },
        forall|s: &mut Sweep, p: &mut Db| #[trigger]
            call_ensures(Sweep::answer, (s, p, Ok(None), now, cfg), told) && 0 <= s@.at
                < s@.commands.len() && 0 <= i < p@.rows.len() && p@.rows[i].id
                == s@.commands[s@.at].id && (p@.rows[i].status == "queued"@ || p@.rows[i].status
                == "running"@) ==> final(p)@.rows[i].status == "failed"@
                && final(p)@.rows[i].finished_at == Some(now),
{
    assert forall|s: &mut Sweep, p: &mut Db| #[trigger]
        call_ensures(Sweep::answer, (s, p, Err(error), now, cfg), told) && 0 <= s@.at
            < s@.commands.len() && 0 <= i < p@.rows.len() && p@.rows[i].id
            == s@.commands[s@.at].id && (p@.rows[i].status == "queued"@ || p@.rows[i].status
            == "running"@) implies {
        let age = s@.asked_at - s@.commands[s@.at].created_at;
        &&& age >= cfg.stale_after_secs && age >= 0 ==> final(p)@.rows[i].status == "timed_out"@
            && final(p)@.rows[i].finished_at == Some(now)
        &&& age < cfg.stale_after_secs && cfg.stale_after_secs > 0 ==> final(p)@ == p@
    } by {
        let c = s@.commands[s@.at];
        law_only_a_stale_command_is_given_up_on(p@, c, error, s@.asked_at, cfg, now, i);
    }
    assert forall|s: &mut Sweep, p: &mut Db| #[trigger]
        call_ensures(Sweep::answer, (s, p, Ok(None), now, cfg), told) && 0 <= s@.at
            < s@.commands.len() && 0 <= i < p@.rows.len() && p@.rows[i].id
            == s@.commands[s@.at].id && (p@.rows[i].status == "queued"@ || p@.rows[i].status
            == "running"@) implies final(p)@.rows[i].status == "failed"@
        && final(p)@.rows[i].finished_at == Some(now) by {
        law_a_missing_turn_fails_its_command(p@, s@.commands[s@.at], s@.asked_at, cfg, now, i);
    }
}

/// The submitter goes on as long as it can: with no submission out and a command waiting
/// it takes that command, and submits it where the log has it, with a status that is
/// known; with a submission out, or nothing waiting, it waits.
pub proof fn law_the_submitter_goes_on(db: &Db, r: Next, i: int)
    requires
        0 <= i < db@.rows.len(),
        unique_ids(db@.rows),
        db@.rows[i].status == "queued"@ || db@.rows[i].status == "running"@ || db@.rows[i].status
            == "done"@ || db@.rows[i].status == "timed_out"@ || db@.rows[i].status == "failed"@
            || db@.rows[i].status == "cancelled"@ || db@.rows[i].status == "held"@,
    ensures
        forall|q: &mut Queue| #[trigger]
            call_ensures(Queue::next, (q, db), r) && q@.current is None && q@.waiting.len() > 0
                && q@.waiting[0] == db@.rows[i].id ==> (r matches Next::Submit { id, text } && id@
                == db@.rows[i].id && text@ == db@.rows[i].text),
        forall|q: &mut Queue| #[trigger]
            call_ensures(Queue::next, (q, db), r) && (q@.current is Some || q@.waiting.len() == 0)
                ==> r is Wait && final(q)@ == q@,
        forall|q: &mut Queue| #[trigger]
            call_ensures(Queue::next, (q, db), r) && q@.current is None && q@.waiting.len() > 0 && (
            forall|k: int|
                0 <= k < db@.rows.len() ==> (#[trigger] db@.rows[k]).id != q@.waiting[0]) ==> (
            r matches Next::Vanished(id) && id@ == q@.waiting[0]) && final(q)@.waiting
                == q@.waiting.skip(1) && final(q)@.current is None,
{
    law_news_is_the_command_as_it_stands(db@.rows, i);
    assert forall|k: int| 0 <= k < i implies (#[trigger] db@.rows[k]).id != db@.rows[i].id by {}
    crate::db::lemma_position_is(db@.rows, db@.rows[i].id, i);
    assert(has_id(db@.rows, db@.rows[i].id));
}

/// A pass comes to every command in turn: as long as there is one, a command with a turn
/// is asked about and one without is dealt with at once.
pub proof fn law_a_pass_comes_to_every_command(now: i64, cfg: SweepConfig, r: SweepStep)
    ensures
        forall|s: &mut Sweep, p: &mut Db| #[trigger]
            call_ensures(Sweep::step, (s, p, now, cfg), r) && 0 <= s@.at < s@.commands.len() ==> {
                &&& s@.commands[s@.at].turn_id matches Some(t) ==> (r matches SweepStep::Ask(turn)
                    && turn@ == t)
                &&& s@.commands[s@.at].turn_id is None ==> r is Tell && final(s)@.at == s@.at + 1
            },
{
}

/// The console is told of a command by its row.
pub proof fn law_what_is_published(db: &Db, id: &str, r: Option<Event>, i: int)
    requires
        call_ensures(publish, (db, id), r),
        unique_ids(db@.rows),
        0 <= i < db@.rows.len(),
        db@.rows[i].id == id@,
        db@.rows[i].status == "queued"@ || db@.rows[i].status == "running"@ || db@.rows[i].status
            == "done"@ || db@.rows[i].status == "timed_out"@ || db@.rows[i].status == "failed"@
            || db@.rows[i].status == "cancelled"@ || db@.rows[i].status == "held"@,
    ensures
        r matches Some(e) && e@ == EventView::Command(db@.rows[i]),
{
    law_news_is_the_command_as_it_stands(db@.rows, i);
}

} // verus!
