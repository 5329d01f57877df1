//! `POST /internal/turn-done`: `internd` telling us a turn finished.
//!
//! The route has a loopback listener of its own, because a route on the main
//! port is reachable from the internet whether or not it looks local.
//!
//! `internd` retries a callback, and the sweeper polls for the same outcome
//! independently. Both are meant to be able to fire for one turn, so settling a
//! command twice is a no-op: a command that already has an outcome keeps it.

use vstd::prelude::*;

use crate::db::{
    finished_row, has_outcome, status_of, terminal, turn_position, unique_ids, word, Db, DbView,
    RowView,
};
use crate::events::{opt_event, Event};
use crate::intern::{map_status, mapped};
use crate::text;
use crate::worker;

verus! {

/// The body `internd`'s dispatcher posts.
#[derive(Debug)]
pub struct TurnDone {
    pub turn_id: String,
    pub status: String,
    pub reply_md: Option<String>,
    pub error: Option<String>,
}

/// What became of a callback.
#[derive(Debug, Clone, Copy, PartialEq, Eq, Structural)]
pub enum Outcome {
    /// No command runs as that turn: most likely its ids have not landed yet,
    /// and the sweeper settles it once they have.
    UnknownTurn,
    /// The command could not be read.
    LookupFailed,
    /// The command has its outcome.
    AlreadySettled,
    /// The status is none, known or not.
    NotAnOutcome,
    /// The command was settled.
    Settled,
}

/// The status of the answer: `internd` is never asked to fix what it cannot.
pub open spec fn answer_code(o: Outcome) -> u16 {
    200
}

impl Outcome {
    /// The status of the answer, the same whatever became of the callback.
    pub fn code(&self) -> (r: u16)
        ensures
            r == answer_code(*self),
            r == 200,
    {
        200
    }

    /// The text of the answer.
    pub fn body(&self) -> (r: &'static str)
        ensures
            r@ == match *self {
                Outcome::UnknownTurn => "unknown turn\n"@,
                Outcome::LookupFailed => "lookup failed\n"@,
                Outcome::AlreadySettled => "already settled\n"@,
                Outcome::NotAnOutcome => "not an outcome\n"@,
                Outcome::Settled => "ok\n"@,
            },
    {
        match self {
            Outcome::UnknownTurn => "unknown turn\n",
            Outcome::LookupFailed => "lookup failed\n",
            Outcome::AlreadySettled => "already settled\n",
            Outcome::NotAnOutcome => "not an outcome\n",
            Outcome::Settled => "ok\n",
        }
    }
}

/// What becomes of a callback.
pub open spec fn outcome_of(rows: Seq<RowView>, turn_id: Seq<char>, status: Seq<char>) -> Outcome {
    let i = turn_position(rows, turn_id);
    if i >= rows.len() {
        Outcome::UnknownTurn
    } else {
        match status_of(rows[i].status) {
            None => Outcome::LookupFailed,
            Some(s) => if terminal(s) {
                Outcome::AlreadySettled
            } else if mapped(status) is None {
                Outcome::NotAnOutcome
            } else {
                Outcome::Settled
            },
        }
    }
}

/// The log after a callback.
pub open spec fn after_callback(before: DbView, body: TurnDone, now: i64) -> DbView {
    let rows = before.rows;
    match outcome_of(rows, body.turn_id@, body.status@) {
        Outcome::Settled => DbView {
            rows: worker::settled(
                rows,
                rows[turn_position(rows, body.turn_id@)].id,
                mapped(body.status@)->0,
                text::opt_view(body.reply_md),
                text::opt_view(body.error),
                now,
            ),
            ..before
        },
        _ => before,
    }
}

/// Take a callback. Once the token gate has been passed the answer is always
/// `200`: none of the refusals is `internd`'s to fix, and all of them are covered
/// by the sweeper.
pub fn turn_done(db: &mut Db, body: &TurnDone, now: i64) -> (r: (Outcome, Option<Event>))
    ensures
        r.0 == outcome_of(old(db)@.rows, body.turn_id@, body.status@),
        final(db)@ == after_callback(old(db)@, *body, now),
        opt_event(r.1) == if r.0 == Outcome::Settled {
            worker::news(
                final(db)@.rows,
                old(db)@.rows[turn_position(old(db)@.rows, body.turn_id@)].id,
            )
        } else {
            None
        },
{
    let command = match db.by_turn_id(body.turn_id.as_str()) {
        Ok(Some(c)) => c,
        Ok(None) => return (Outcome::UnknownTurn, None),
        Err(_) => return (Outcome::LookupFailed, None),
    };
    proof {
        crate::db::law_status_words_round_trip(command.status, word(command.status));
    }
    if command.status.is_terminal() {
        return (Outcome::AlreadySettled, None);
    }
    let status = match map_status(body.status.as_str()) {
        Some(s) => s,
        None => return (Outcome::NotAnOutcome, None),
    };
    let reply: Option<&str> = match &body.reply_md {
        Some(s) => Some(s.as_str()),
        None => None,
    };
    let error: Option<&str> = match &body.error {
        Some(s) => Some(s.as_str()),
        None => None,
    };
    proof {
        let i = turn_position(db@.rows, body.turn_id@);
        lemma_turn_position(db@.rows, db@.rows, body.turn_id@);
        assert(db@.rows[i].id == command.id@ && !has_outcome(db@.rows[i]));
        assert(worker::open_command(db@.rows, command.id@));
    }
    let event = worker::finish(db, command.id.as_str(), status, reply, error, now);
    (Outcome::Settled, event)
}

/// A callback is answered with 200, whatever it says. The log changes exactly where a
/// command runs as that turn, can be read and has no outcome yet, and the callback
/// brings one; then that command has the outcome, and no other command changes.
pub proof fn law_a_callback_settles_its_own_turn(before: DbView, body: TurnDone, now: i64)
    requires
        unique_ids(before.rows),
    ensures
        ({
            let rows = before.rows;
            let i = turn_position(rows, body.turn_id@);
            let settles = 0 <= i < rows.len() && status_of(rows[i].status) is Some && !has_outcome(
                rows[i],
            ) && mapped(body.status@) is Some;
            let after = after_callback(before, body, now);
            &&& answer_code(outcome_of(rows, body.turn_id@, body.status@)) == 200
            &&& settles == (outcome_of(rows, body.turn_id@, body.status@) == Outcome::Settled)
            &&& !settles ==> after == before
            &&& settles ==> {
                &&& rows[i].turn_id == Some(body.turn_id@)
                &&& after == (DbView {
                    rows: rows.update(
                        i,
                        finished_row(
                            rows[i],
                            mapped(body.status@)->0,
                            text::opt_view(body.reply_md),
                            text::opt_view(body.error),
                            now,
                        ),
                    ),
                    ..before
                })
                &&& after != before
            }
        }),
{
    let rows = before.rows;
    let i = turn_position(rows, body.turn_id@);
    lemma_turn_found(rows, body.turn_id@);
    if outcome_of(rows, body.turn_id@, body.status@) == Outcome::Settled {
        let after = after_callback(before, body, now);
        let row = finished_row(
            rows[i],
            mapped(body.status@)->0,
            text::opt_view(body.reply_md),
            text::opt_view(body.error),
            now,
        );
        assert forall|j: int| 0 <= j < rows.len() implies after.rows[j] == rows.update(i, row)[j] by {
            if j < i {
                assert(rows[j].id != rows[i].id);
            } else if j > i {
                assert(rows[i].id != rows[j].id);
            }
        }
        assert(after.rows =~= rows.update(i, row));
        crate::intern::law_mapped_statuses_are_outcomes(body.status@);
        let status = mapped(body.status@)->0;
        crate::db::law_status_words_round_trip(status, word(status));
        assert(after.rows[i] != rows[i]);
    }
}

proof fn lemma_turn_found(rows: Seq<RowView>, turn_id: Seq<char>)
    ensures
        0 <= turn_position(rows, turn_id) <= rows.len(),
        turn_position(rows, turn_id) < rows.len() ==> rows[turn_position(rows, turn_id)].turn_id
            == Some(turn_id),
    decreases rows.len(),
{
    if rows.len() > 0 && rows[0].turn_id != Some(turn_id) {
        lemma_turn_found(rows.skip(1), turn_id);
    }
}

/// A callback that comes again changes nothing, and says that the command is
/// settled.
pub proof fn law_a_duplicate_callback_is_a_no_op(
    before: DbView,
    body: TurnDone,
    again: TurnDone,
    now: i64,
    later: i64,
)
    requires
        outcome_of(before.rows, body.turn_id@, body.status@) == Outcome::Settled,
        again.turn_id@ == body.turn_id@,
    ensures
        ({
            let once = after_callback(before, body, now);
            &&& outcome_of(once.rows, again.turn_id@, again.status@) == Outcome::AlreadySettled
            &&& after_callback(once, again, later) == once
        }),
{
    let once = after_callback(before, body, now);
    let i = turn_position(before.rows, body.turn_id@);
    lemma_turn_position(before.rows, once.rows, body.turn_id@);
    crate::intern::law_mapped_statuses_are_outcomes(body.status@);
    let status = mapped(body.status@)->0;
    crate::db::law_status_words_round_trip(status, word(status));
}

proof fn lemma_turn_position(a: Seq<RowView>, b: Seq<RowView>, turn_id: Seq<char>)
    requires
        a.len() == b.len(),
        forall|k: int| 0 <= k < a.len() ==> (#[trigger] b[k]).turn_id == a[k].turn_id,
    ensures
        turn_position(a, turn_id) == turn_position(b, turn_id),
        0 <= turn_position(a, turn_id) <= a.len(),
    decreases a.len(),
{
    if a.len() > 0 {
        assert(b[0].turn_id == a[0].turn_id);
        assert forall|k: int| 0 <= k < a.skip(1).len() implies (#[trigger] b.skip(1)[k]).turn_id
            == a.skip(1)[k].turn_id by {
            assert(b[k + 1].turn_id == a[k + 1].turn_id);
        }
        lemma_turn_position(a.skip(1), b.skip(1), turn_id);
    }
}

/// A callback for a turn that some command runs as, with one of the four words that are
/// outcomes, gives that command exactly that word, the reply and the error of the
/// callback, and its time, where the command was queued or running; no other command
/// changes. A command that has an outcome keeps it, and any other word changes nothing.
pub proof fn law_a_callback_is_written_as_it_came(
    before: DbView,
    body: TurnDone,
    now: i64,
    i: int,
    j: int,
)
    requires
        unique_ids(before.rows),
        0 <= i < before.rows.len(),
        before.rows[i].turn_id == Some(body.turn_id@),
        forall|k: int|
            0 <= k < i ==> (#[trigger] before.rows[k]).turn_id != Some(body.turn_id@),
        0 <= j < before.rows.len() && j != i,
    ensures
        ({
            let row = before.rows[i];
            let word = body.status@;
            let after = after_callback(before, body, now);
            let outcome = outcome_of(before.rows, body.turn_id@, body.status@);
            let waits = row.status == "queued"@ || row.status == "running"@;
            let over = row.status == "done"@ || row.status == "failed"@ || row.status
                == "timed_out"@ || row.status == "cancelled"@ || row.status == "held"@;
            let outcome_word = word == "done"@ || word == "failed"@ || word == "timed_out"@ || word
                == "cancelled"@;
            &&& waits && outcome_word ==> {
                &&& outcome == Outcome::Settled
                &&& after.rows.len() == before.rows.len()
                &&& after.injecting == before.injecting
                &&& after.rows[j] == before.rows[j]
                &&& after.rows[i] == RowView {
                    status: word,
                    reply: (match body.reply_md {
                        Some(s) => Some(s@),
                        None => None,
                    }),
                    error: (match body.error {
                        Some(s) => Some(s@),
                        None => None,
                    }),
                    finished_at: Some(now),
                    ..row
                }
            }
            &&& waits && !outcome_word ==> outcome == Outcome::NotAnOutcome && after == before
            &&& over ==> outcome == Outcome::AlreadySettled && after == before
            &&& !waits && !over ==> outcome == Outcome::LookupFailed && after == before
        }),
{
    let rows = before.rows;
    let p = turn_position(rows, body.turn_id@);
    crate::db::law_a_command_is_found_by_its_turn(rows, body.turn_id@);
    assert(p == i) by {
        if p < i {
            assert(rows[p].turn_id != Some(body.turn_id@));
        }
    }
    law_a_callback_settles_its_own_turn(before, body, now);
    crate::db::law_five_words_are_outcomes(rows[i]);
    crate::intern::law_four_words_are_outcomes(body.status@);
    crate::intern::law_mapped_statuses_are_outcomes(body.status@);
    crate::db::law_status_words_round_trip(
        crate::db::Status::Queued,
        word(crate::db::Status::Queued),
    );
    crate::db::law_status_words_round_trip(
        crate::db::Status::Running,
        word(crate::db::Status::Running),
    );
    crate::db::law_status_words_round_trip(crate::db::Status::Queued, rows[i].status);
}

/// A callback for a turn that no command runs as changes nothing.
pub proof fn law_an_unknown_turn_changes_nothing(before: DbView, body: TurnDone, now: i64)
    requires
        forall|k: int|
            0 <= k < before.rows.len() ==> (#[trigger] before.rows[k]).turn_id != Some(
                body.turn_id@,
            ),
    ensures
        outcome_of(before.rows, body.turn_id@, body.status@) == Outcome::UnknownTurn,
        after_callback(before, body, now) == before,
{
    crate::db::law_a_command_is_found_by_its_turn(before.rows, body.turn_id@);
}

/// A callback is answered with what became of it, always as received; and where it
/// settled a command the console is told of the command as it then is.
pub proof fn law_a_callback_is_answered(
    o: &Outcome,
    code: u16,
    body: &'static str,
    done: TurnDone,
    now: i64,
    r: (Outcome, Option<Event>),
    i: int,
)
    ensures
        call_ensures(Outcome::code, (o,), code) ==> code == 200,
        call_ensures(Outcome::body, (o,), body) ==> {
            &&& *o == Outcome::Settled ==> body@ == "ok\n"@
            &&& *o == Outcome::UnknownTurn ==> body@ == "unknown turn\n"@
            &&& *o == Outcome::AlreadySettled ==> body@ == "already settled\n"@
            &&& *o == Outcome::NotAnOutcome ==> body@ == "not an outcome\n"@
            &&& *o == Outcome::LookupFailed ==> body@ == "lookup failed\n"@
        },
        forall|p: &mut Db| #[trigger]
            call_ensures(turn_done, (p, &done, now), r) && unique_ids(p@.rows) && 0 <= i
                < p@.rows.len() && p@.rows[i].turn_id == Some(done.turn_id@) && (forall|k: int|
                0 <= k < i ==> (#[trigger] p@.rows[k]).turn_id != Some(done.turn_id@)) && (
            p@.rows[i].status == "queued"@ || p@.rows[i].status == "running"@) && (done.status@
                == "done"@ || done.status@ == "failed"@ || done.status@ == "timed_out"@
                || done.status@ == "cancelled"@) ==> {
                let after = final(p)@.rows[i];
                &&& r.0 == Outcome::Settled
                &&& after.status == done.status@
                &&& after.reply == (match done.reply_md {
                    Some(t) => Some(t@),
                    None => None,
                })
                &&& after.error == (match done.error {
                    Some(t) => Some(t@),
                    None => None,
                })
                &&& after.finished_at == Some(now)
                &&& after.text == p@.rows[i].text
                &&& r.1 matches Some(e) && e@ == crate::events::EventView::Command(after)
            },
{
    assert forall|p: &mut Db| #[trigger]
        call_ensures(turn_done, (p, &done, now), r) && unique_ids(p@.rows) && 0 <= i < p@.rows.len()
            && p@.rows[i].turn_id == Some(done.turn_id@) && (forall|k: int|
            0 <= k < i ==> (#[trigger] p@.rows[k]).turn_id != Some(done.turn_id@)) && (
        p@.rows[i].status == "queued"@ || p@.rows[i].status == "running"@) && (done.status@
            == "done"@ || done.status@ == "failed"@ || done.status@ == "timed_out"@ || done.status@
            == "cancelled"@) implies {
        let after = final(p)@.rows[i];
        &&& r.0 == Outcome::Settled
        &&& after.status == done.status@
        &&& after.reply == text::opt_view(done.reply_md)
        &&& after.error == text::opt_view(done.error)
        &&& after.finished_at == Some(now)
        &&& after.text == p@.rows[i].text
        &&& r.1 matches Some(e) && e@ == crate::events::EventView::Command(after)
    } by {
        let rows = p@.rows;
        let after = final(p)@.rows;
        crate::db::law_a_command_is_found_by_its_turn(rows, done.turn_id@);
        let t = turn_position(rows, done.turn_id@);
        assert(t == i) by {
            if t < i {
                assert(rows[t].turn_id != Some(done.turn_id@));
            }
        }
        law_a_callback_settles_its_own_turn(p@, done, now);
        crate::db::law_five_words_are_outcomes(rows[i]);
        crate::intern::law_four_words_are_outcomes(done.status@);
        crate::intern::law_mapped_statuses_are_outcomes(done.status@);
        crate::db::law_status_words_round_trip(
            crate::db::Status::Queued,
            word(crate::db::Status::Queued),
        );
        crate::db::law_status_words_round_trip(
            crate::db::Status::Running,
            word(crate::db::Status::Running),
        );
        assert(after[i].id == rows[i].id);
        assert forall|k: int| 0 <= k < i implies (#[trigger] after[k]).id != rows[i].id by {
            assert(rows[k].id != rows[i].id);
        }
        crate::db::lemma_position_is(after, rows[i].id, i);
        assert(crate::db::has_id(after, rows[i].id));
        let status = mapped(done.status@)->0;
        crate::db::law_status_words_round_trip(status, word(status));
    }
}

} // verus!
