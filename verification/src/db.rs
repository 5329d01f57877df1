//! The command log: one row per spoken turn, from `queued` to a terminal state.
//!
//! The log is the only place an outcome is ever recorded: the webhook's answer
//! carries nothing but `queued a1b2`. Rows stand in the order in which they were
//! inserted, and their status is kept as the word that the database file holds,
//! so a word that this library does not know is reported and never guessed at.

use std::time::UNIX_EPOCH;

use vstd::prelude::*;
use vstd::string::*;

use crate::text;

verus! {

/// What a row left in flight by a restart is settled with.
pub const STRANDED_ERROR: &'static str = "interrupted by a restart";

/// The schema of the database file that a log is kept in. `IF NOT EXISTS`
/// throughout, so applying it again changes nothing. What the agent's daemon
/// answered to a submission stands in a table of its own.
pub const SCHEMA: &'static str = "
CREATE TABLE IF NOT EXISTS commands (
  id          TEXT PRIMARY KEY,
  text        TEXT NOT NULL,
  status      TEXT NOT NULL,
  reply       TEXT,
  error       TEXT,
  created_at  INTEGER NOT NULL,
  started_at  INTEGER,
  finished_at INTEGER
);
CREATE INDEX IF NOT EXISTS commands_created_idx ON commands(created_at DESC);
CREATE TABLE IF NOT EXISTS submissions (
  command_id  TEXT PRIMARY KEY REFERENCES commands(id),
  project_id  TEXT NOT NULL,
  turn_id     TEXT NOT NULL,
  project_url TEXT
);
CREATE TABLE IF NOT EXISTS settings (
  key   TEXT PRIMARY KEY,
  value TEXT NOT NULL
);
";

// ---------------------------------------------------------------------------
// Status
// ---------------------------------------------------------------------------

/// The lifecycle of one spoken turn. The words are the same in the database, the
/// JSON API and the console.
#[derive(Debug, Clone, Copy, PartialEq, Eq, Structural)]
pub enum Status {
    Queued,
    Running,
    Done,
    TimedOut,
    Failed,
    /// Someone pressed stop. Nothing went wrong, so it is not `Failed`.
    Cancelled,
    /// Arrived while the kill switch was off: kept in the log, never sent.
    /// Terminal: flipping the switch back on does not replay held commands.
    Held,
}

/// The word for a status.
pub open spec fn word(s: Status) -> Seq<char> {
    match s {
        Status::Queued => "queued"@,
        Status::Running => "running"@,
        Status::Done => "done"@,
        Status::TimedOut => "timed_out"@,
        Status::Failed => "failed"@,
        Status::Cancelled => "cancelled"@,
        Status::Held => "held"@,
    }
}

/// The status that a word stands for.
pub open spec fn status_of(s: Seq<char>) -> Option<Status> {
    if s == "queued"@ {
        Some(Status::Queued)
    } else if s == "running"@ {
        Some(Status::Running)
    } else if s == "done"@ {
        Some(Status::Done)
    } else if s == "timed_out"@ {
        Some(Status::TimedOut)
    } else if s == "failed"@ {
        Some(Status::Failed)
    } else if s == "cancelled"@ {
        Some(Status::Cancelled)
    } else if s == "held"@ {
        Some(Status::Held)
    } else {
        None
    }
}

/// Whether nothing further happens to a command in this status.
pub open spec fn terminal(s: Status) -> bool {
    s != Status::Queued && s != Status::Running
}

impl Status {
    /// The wire string.
    pub fn as_str(&self) -> (r: &'static str)
        ensures
            r@ == word(*self),
    {
        match self {
            Status::Queued => "queued",
            Status::Running => "running",
            Status::Done => "done",
            Status::TimedOut => "timed_out",
            Status::Failed => "failed",
            Status::Cancelled => "cancelled",
            Status::Held => "held",
        }
    }

    /// Inverse of [`Status::as_str`]. `None` for anything else: a value in the
    /// database that this binary does not know is a bug worth surfacing, not
    /// something to coerce into `failed`.
    pub fn from_str(s: &str) -> (r: Option<Status>)
        ensures
            r == status_of(s@),
    {
        if text::same(s, "queued") {
            Some(Status::Queued)
        } else if text::same(s, "running") {
            Some(Status::Running)
        } else if text::same(s, "done") {
            Some(Status::Done)
        } else if text::same(s, "timed_out") {
            Some(Status::TimedOut)
        } else if text::same(s, "failed") {
            Some(Status::Failed)
        } else if text::same(s, "cancelled") {
            Some(Status::Cancelled)
        } else if text::same(s, "held") {
            Some(Status::Held)
        } else {
            None
        }
    }

    /// Is this an end state? `queued` and `running` are the two that a restart
    /// can strand; everything else is settled forever.
    pub fn is_terminal(&self) -> (r: bool)
        ensures
            r == terminal(*self),
    {
        match self {
            Status::Queued => false,
            Status::Running => false,
            _ => true,
        }
    }
}

/// No two of the words start with the same letter.
proof fn lemma_words()
    ensures
        "queued"@[0] == 'q',
        "running"@[0] == 'r',
        "done"@[0] == 'd',
        "timed_out"@[0] == 't',
        "failed"@[0] == 'f',
        "cancelled"@[0] == 'c',
        "held"@[0] == 'h',
{
    reveal_strlit("queued");
    reveal_strlit("running");
    reveal_strlit("done");
    reveal_strlit("timed_out");
    reveal_strlit("failed");
    reveal_strlit("cancelled");
    reveal_strlit("held");
}

/// The words and the statuses stand for each other, one to one.
pub proof fn law_status_words_round_trip(s: Status, w: Seq<char>)
    ensures
        status_of(word(s)) == Some(s),
        status_of(w) == Some(s) ==> w == word(s),
{
    lemma_words();
}

// ---------------------------------------------------------------------------
// The clock
// ---------------------------------------------------------------------------

/// The seconds on the system clock since the Unix epoch, from
/// `std::time::SystemTime::elapsed`; `None` where the clock stands before the epoch.
/// Nothing is claimed of the time.
#[verifier::external_body]
pub(crate) fn epoch_secs() -> (r: Option<u64>) {
    UNIX_EPOCH.elapsed().ok().map(|d| d.as_secs())
}

/// A reading of the clock as the unit of every `*_at` column: a clock before the
/// epoch reads 0.
pub fn unix_of(secs: Option<u64>) -> (r: i64)
    ensures
        r == match secs {
            Some(s) => s as i64,
            None => 0i64,
        },
{
    match secs {
        Some(s) => #[verifier::truncate]
        (s as i64),
        None => 0,
    }
}

/// Seconds since the Unix epoch, the unit every `*_at` column uses.
pub fn now_unix() -> i64 {
    unix_of(epoch_secs())
}

// ---------------------------------------------------------------------------
// Rows
// ---------------------------------------------------------------------------

/// One row as the database file holds it.
pub struct Row {
    pub id: String,
    pub text: String,
    /// The word for the status, known or not.
    pub status: String,
    pub reply: Option<String>,
    pub error: Option<String>,
    /// Unix seconds, like every other `*_at` here.
    pub created_at: i64,
    pub started_at: Option<i64>,
    pub finished_at: Option<i64>,
    /// What the agent's daemon answered to the submission.
    pub project_id: Option<String>,
    pub turn_id: Option<String>,
    pub project_url: Option<String>,
}

/// A row, over the views of its texts.
pub struct RowView {
    pub id: Seq<char>,
    pub text: Seq<char>,
    pub status: Seq<char>,
    pub reply: Option<Seq<char>>,
    pub error: Option<Seq<char>>,
    pub created_at: i64,
    pub started_at: Option<i64>,
    pub finished_at: Option<i64>,
    pub project_id: Option<Seq<char>>,
    pub turn_id: Option<Seq<char>>,
    pub project_url: Option<Seq<char>>,
}

impl View for Row {
    type V = RowView;

    open spec fn view(&self) -> RowView {
        RowView {
            id: self.id@,
            text: self.text@,
            status: self.status@,
            reply: text::opt_view(self.reply),
            error: text::opt_view(self.error),
            created_at: self.created_at,
            started_at: self.started_at,
            finished_at: self.finished_at,
            project_id: text::opt_view(self.project_id),
            turn_id: text::opt_view(self.turn_id),
            project_url: text::opt_view(self.project_url),
        }
    }
}

/// One command, as the console reads it.
#[derive(Debug, Clone)]
pub struct Command {
    pub id: String,
    pub text: String,
    pub status: Status,
    pub reply: Option<String>,
    pub error: Option<String>,
    pub created_at: i64,
    pub started_at: Option<i64>,
    pub finished_at: Option<i64>,
    pub project_id: Option<String>,
    pub turn_id: Option<String>,
    /// A link that a browser can open.
    pub project_url: Option<String>,
}

impl View for Command {
    type V = RowView;

    /// A command, seen as the row that holds it.
    open spec fn view(&self) -> RowView {
        RowView {
            id: self.id@,
            text: self.text@,
            status: word(self.status),
            reply: text::opt_view(self.reply),
            error: text::opt_view(self.error),
            created_at: self.created_at,
            started_at: self.started_at,
            finished_at: self.finished_at,
            project_id: text::opt_view(self.project_id),
            turn_id: text::opt_view(self.turn_id),
            project_url: text::opt_view(self.project_url),
        }
    }
}

/// Why the log could not answer.
#[derive(Debug, Clone)]
pub struct DbError {
    /// What was being done.
    pub doing: String,
    /// What was in the way.
    pub cause: String,
}

impl DbError {
    /// The error in one line, as it is shown to a person.
    pub fn message(&self) -> (r: String)
        ensures
            r@ == self.doing@,
    {
        self.doing.clone()
    }

    /// The error with its cause.
    pub fn detail(&self) -> (r: String)
        ensures
            r@ == self.doing@ + ": "@ + self.cause@,
    {
        text::cat3(self.doing.as_str(), ": ", self.cause.as_str())
    }
}

/// Whether an error reports a status word that is not known.
pub open spec fn unknown_status(e: DbError, doing: Seq<char>, status: Seq<char>) -> bool {
    &&& e.doing@ == doing
    &&& e.cause@ == "commands.status = "@ + text::quoted(status)
        + " is not one of queued|running|done|timed_out|failed|cancelled|held"@
}

fn copy_opt(o: &Option<String>) -> (r: Option<String>)
    ensures
        text::opt_view(r) == text::opt_view(*o),
{
    match o {
        Some(s) => Some(s.clone()),
        None => None,
    }
}

pub(crate) fn own(o: Option<&str>) -> (r: Option<String>)
    ensures
        text::opt_view(r) == text::opt_str(o),
{
    match o {
        Some(s) => Some(s.to_owned()),
        None => None,
    }
}

/// The command that a row holds.
pub fn decode(row: &Row, doing: &str) -> (r: Result<Command, DbError>)
    ensures
        match r {
            Ok(c) => status_of(row@.status) is Some && c@ == row@,
            Err(e) => status_of(row@.status) is None && unknown_status(e, doing@, row@.status),
        },
{
    let status = match Status::from_str(row.status.as_str()) {
        Some(s) => s,
        None => return Err(
            DbError {
                doing: doing.to_owned(),
                cause: text::cat3(
                    "commands.status = ",
                    text::quote(row.status.as_str()).as_str(),
                    " is not one of queued|running|done|timed_out|failed|cancelled|held",
                ),
            },
        ),
    };
    proof {
        law_status_words_round_trip(status, row.status@);
    }
    Ok(
        Command {
            id: row.id.clone(),
            text: row.text.clone(),
            status,
            reply: copy_opt(&row.reply),
            error: copy_opt(&row.error),
            created_at: row.created_at,
            started_at: row.started_at,
            finished_at: row.finished_at,
            project_id: copy_opt(&row.project_id),
            turn_id: copy_opt(&row.turn_id),
            project_url: copy_opt(&row.project_url),
        },
    )
}

// ---------------------------------------------------------------------------
// The log
// ---------------------------------------------------------------------------

/// The command log.
pub struct Db {
    rows: Vec<Row>,
    injecting: Option<String>,
}

/// What a log holds.
#[verifier::ext_equal]
pub struct DbView {
    /// The rows, in the order in which they were inserted.
    pub rows: Seq<RowView>,
    /// The stored state of the kill switch, if it was ever set.
    pub injecting: Option<Seq<char>>,
}

/// The views of a list of rows.
pub open spec fn row_views(v: Seq<Row>) -> Seq<RowView> {
    v.map_values(|r: Row| r@)
}

/// The views of a list of commands.
pub open spec fn command_views(v: Seq<Command>) -> Seq<RowView> {
    v.map_values(|c: Command| c@)
}

impl View for Db {
    type V = DbView;

    closed spec fn view(&self) -> DbView {
        DbView { rows: row_views(self.rows@), injecting: text::opt_view(self.injecting) }
    }
}

/// The position of the first row with that id, or the number of rows.
pub open spec fn position(rows: Seq<RowView>, id: Seq<char>) -> int
    decreases rows.len(),
{
    if rows.len() == 0 || rows[0].id == id {
        0
    } else {
        1 + position(rows.skip(1), id)
    }
}

/// The position of the first row that runs as that turn, or the number of rows.
pub open spec fn turn_position(rows: Seq<RowView>, turn_id: Seq<char>) -> int
    decreases rows.len(),
{
    if rows.len() == 0 || rows[0].turn_id == Some(turn_id) {
        0
    } else {
        1 + turn_position(rows.skip(1), turn_id)
    }
}

/// Whether some row has that id.
pub open spec fn has_id(rows: Seq<RowView>, id: Seq<char>) -> bool {
    exists|i: int| 0 <= i < rows.len() && #[trigger] rows[i].id == id
}

/// A newly accepted command.
pub open spec fn queued_row(id: Seq<char>, text: Seq<char>, now: i64) -> RowView {
    RowView {
        id,
        text,
        status: "queued"@,
        reply: None,
        error: None,
        created_at: now,
        started_at: None,
        finished_at: None,
        project_id: None,
        turn_id: None,
        project_url: None,
    }
}

/// A row that was queued, once its command runs.
pub open spec fn running_row(r: RowView, now: i64) -> RowView {
    RowView { status: "running"@, started_at: Some(now), ..r }
}

/// A row that was queued, once its command was accepted by the agent's daemon.
pub open spec fn submitted_row(
    r: RowView,
    project_id: Seq<char>,
    turn_id: Seq<char>,
    url: Option<Seq<char>>,
    now: i64,
) -> RowView {
    RowView {
        project_id: Some(project_id),
        turn_id: Some(turn_id),
        project_url: url,
        ..running_row(r, now)
    }
}

/// A row with an outcome.
pub open spec fn finished_row(
    r: RowView,
    status: Status,
    reply: Option<Seq<char>>,
    error: Option<Seq<char>>,
    now: i64,
) -> RowView {
    RowView { status: word(status), reply, error, finished_at: Some(now), ..r }
}

/// Whether a row has an outcome.
pub open spec fn has_outcome(r: RowView) -> bool {
    match status_of(r.status) {
        Some(s) => terminal(s),
        None => false,
    }
}

/// A row once an outcome arrived for it: the first one stays.
pub open spec fn settled_row(
    r: RowView,
    status: Status,
    reply: Option<Seq<char>>,
    error: Option<Seq<char>>,
    now: i64,
) -> RowView {
    if has_outcome(r) {
        r
    } else {
        finished_row(r, status, reply, error, now)
    }
}

/// Whether a row still waits for an outcome.
pub open spec fn in_flight(r: RowView) -> bool {
    r.status == "queued"@ || r.status == "running"@
}

/// A row after a restart: one in flight is failed, any other is as it was.
pub open spec fn reconciled_row(r: RowView, now: i64) -> RowView {
    if in_flight(r) {
        RowView {
            status: "failed"@,
            error: Some(STRANDED_ERROR@),
            finished_at: Some(now),
            ..r
        }
    } else {
        r
    }
}

/// How many rows are in flight.
pub open spec fn in_flight_count(rows: Seq<RowView>) -> nat
    decreases rows.len(),
{
    if rows.len() == 0 {
        0
    } else {
        in_flight_count(rows.drop_last()) + if in_flight(rows.last()) {
            1nat
        } else {
            0nat
        }
    }
}

/// The rows, with those of that id replaced.
pub open spec fn with_id(rows: Seq<RowView>, id: Seq<char>, f: spec_fn(RowView) -> RowView) -> Seq<
    RowView,
> {
    rows.map_values(
        |r: RowView|
            if r.id == id {
                f(r)
            } else {
                r
            },
    )
}

/// `f` on a row that is queued, nothing on any other.
pub open spec fn if_queued(r: RowView, f: spec_fn(RowView) -> RowView) -> RowView {
    if r.status == "queued"@ {
        f(r)
    } else {
        r
    }
}

/// Whether the kill switch lets commands through: it does unless it was set
/// otherwise.
pub open spec fn is_injecting(setting: Option<Seq<char>>) -> bool {
    match setting {
        Some(v) => v == "1"@,
        None => true,
    }
}

impl Db {
    /// An empty log.
    pub fn open_in_memory() -> (r: Db)
        ensures
            r@ == (DbView { rows: Seq::empty(), injecting: None }),
    {
        let r = Db { rows: Vec::new(), injecting: None };
        assert(r@.rows =~= Seq::<RowView>::empty());
        r
    }

    /// A log of the rows and of the setting that a database file holds.
    pub fn from_rows(rows: Vec<Row>, injecting: Option<String>) -> (r: Db)
        ensures
            r@ == (DbView { rows: row_views(rows@), injecting: text::opt_view(injecting) }),
    {
        Db { rows, injecting }
    }

    /// Where the row of that id stands.
    fn find(&self, id: &str) -> (r: Option<usize>)
        ensures
            match r {
                Some(i) => i == position(self@.rows, id@) && i < self@.rows.len()
                    && self@.rows[i as int].id == id@ && has_id(self@.rows, id@),
                None => position(self@.rows, id@) == self@.rows.len() && !has_id(
                    self@.rows,
                    id@,
                ),
            },
    {
        let ghost rows = self@.rows;
        let mut i: usize = 0;
        assert(rows.skip(0) =~= rows);
        while i < self.rows.len()
            invariant
                i <= rows.len(),
                rows == self@.rows,
                i + position(rows.skip(i as int), id@) == position(rows, id@),
                forall|j: int| 0 <= j < i ==> #[trigger] rows[j].id != id@,
            decreases self.rows@.len() - i,
        {
            assert(rows[i as int] == self.rows@[i as int]@);
            assert(rows.skip(i as int)[0] == rows[i as int]);
            if text::same(self.rows[i].id.as_str(), id) {
                return Some(i);
            }
            assert(rows.skip(i as int).skip(1) =~= rows.skip(i + 1));
            i = i + 1;
        }
        None
    }

    /// Record a newly accepted command as `queued`.
    ///
    /// A duplicate `id` is an error rather than an overwrite: ids are four
    /// characters, collisions are possible, and clobbering a live turn's row
    /// would lose its reply.
    pub fn insert(&mut self, id: &str, text: &str, now: i64) -> (r: Result<(), DbError>)
        ensures
            match r {
                Ok(_) => {
                    &&& !has_id(old(self)@.rows, id@)
                    &&& final(self)@ == (DbView {
                        rows: old(self)@.rows.push(queued_row(id@, text@, now)),
                        ..old(self)@
                    })
                },
                Err(e) => {
                    &&& has_id(old(self)@.rows, id@)
                    &&& final(self)@ == old(self)@
                    &&& e.doing@ == "queueing command "@ + id@
                    &&& e.cause@ == "UNIQUE constraint failed: commands.id"@
                },
            },
    {
        match self.find(id) {
            Some(_) => Err(
                DbError {
                    doing: text::cat("queueing command ", id),
                    cause: "UNIQUE constraint failed: commands.id".to_owned(),
                },
            ),
            None => {
                let ghost before = self.rows@;
                self.rows.push(
                    Row {
                        id: id.to_owned(),
                        text: text.to_owned(),
                        status: "queued".to_owned(),
                        reply: None,
                        error: None,
                        created_at: now,
                        started_at: None,
                        finished_at: None,
                        project_id: None,
                        turn_id: None,
                        project_url: None,
                    },
                );
                assert(row_views(self.rows@) =~= row_views(before).push(
                    queued_row(id@, text@, now),
                ));
                Ok(())
            },
        }
    }

    /// The worker has picked this command up.
    ///
    /// Only a `queued` row moves: running this against a row that has already
    /// finished would otherwise resurrect it as `running` and leave the console
    /// showing a turn nothing will ever complete. The result says whether a row
    /// moved.
    pub fn mark_running(&mut self, id: &str, now: i64) -> (r: bool)
        ensures
            final(self)@ == (DbView {
                rows: with_id(
                    old(self)@.rows,
                    id@,
                    |x: RowView| if_queued(x, |y: RowView| running_row(y, now)),
                ),
                ..old(self)@
            }),
            r == (exists|i: int|
                0 <= i < old(self)@.rows.len() && #[trigger] old(self)@.rows[i].id == id@
                    && old(self)@.rows[i].status == "queued"@),
    {
        let ghost before = self@.rows;
        let ghost f = |x: RowView| if_queued(x, |y: RowView| running_row(y, now));
        let mut moved = false;
        let mut i: usize = 0;
        while i < self.rows.len()
            invariant
                i <= self.rows@.len(),
                self.rows@.len() == before.len(),
                self.injecting == old(self).injecting,
                before == old(self)@.rows,
                f == (|x: RowView| if_queued(x, |y: RowView| running_row(y, now))),
                forall|j: int|
                    0 <= j < i ==> (#[trigger] self.rows@[j])@ == (if before[j].id == id@ {
                        f(before[j])
                    } else {
                        before[j]
                    }),
                forall|j: int|
                    i <= j < before.len() ==> (#[trigger] self.rows@[j])@ == before[j],
                moved == (exists|j: int|
                    0 <= j < i && #[trigger] before[j].id == id@ && before[j].status
                        == "queued"@),
            decreases self.rows@.len() - i,
        {
            assert(self.rows@[i as int]@ == before[i as int]);
            if text::same(self.rows[i].id.as_str(), id) && text::same(
                self.rows[i].status.as_str(),
                "queued",
            ) {
                self.rows[i].status = "running".to_owned();
                self.rows[i].started_at = Some(now);
                moved = true;
                assert(before[i as int].id == id@);
            }
            i = i + 1;
        }
        assert(self@.rows =~= with_id(before, id@, f));
        moved
    }

    /// The agent's daemon has accepted this command, as that turn of that
    /// project. Only a `queued` row moves, as for [`Db::mark_running`].
    pub fn mark_submitted(
        &mut self,
        id: &str,
        project_id: &str,
        turn_id: &str,
        url: Option<&str>,
        now: i64,
    ) -> (r: bool)
        ensures
            final(self)@ == (DbView {
                rows: with_id(
                    old(self)@.rows,
                    id@,
                    |x: RowView|
                        if_queued(
                            x,
                            |y: RowView|
                                submitted_row(y, project_id@, turn_id@, text::opt_str(url), now),
                        ),
                ),
                ..old(self)@
            }),
            r == (exists|i: int|
                0 <= i < old(self)@.rows.len() && #[trigger] old(self)@.rows[i].id == id@
                    && old(self)@.rows[i].status == "queued"@),
    {
        let ghost before = self@.rows;
        let ghost f = |x: RowView|
            if_queued(
                x,
                |y: RowView| submitted_row(y, project_id@, turn_id@, text::opt_str(url), now),
            );
        let mut moved = false;
        let mut i: usize = 0;
        while i < self.rows.len()
            invariant
                i <= self.rows@.len(),
                self.rows@.len() == before.len(),
                self.injecting == old(self).injecting,
                before == old(self)@.rows,
                f == (|x: RowView|
                    if_queued(
                        x,
                        |y: RowView|
                            submitted_row(y, project_id@, turn_id@, text::opt_str(url), now),
                    )),
                forall|j: int|
                    0 <= j < i ==> (#[trigger] self.rows@[j])@ == (if before[j].id == id@ {
                        f(before[j])
                    } else {
                        before[j]
                    }),
                forall|j: int|
                    i <= j < before.len() ==> (#[trigger] self.rows@[j])@ == before[j],
                moved == (exists|j: int|
                    0 <= j < i && #[trigger] before[j].id == id@ && before[j].status
                        == "queued"@),
            decreases self.rows@.len() - i,
        {
            assert(self.rows@[i as int]@ == before[i as int]);
            if text::same(self.rows[i].id.as_str(), id) && text::same(
                self.rows[i].status.as_str(),
                "queued",
            ) {
                self.rows[i].status = "running".to_owned();
                self.rows[i].started_at = Some(now);
                self.rows[i].project_id = Some(project_id.to_owned());
                self.rows[i].turn_id = Some(turn_id.to_owned());
                self.rows[i].project_url = own(url);
                moved = true;
                assert(before[i as int].id == id@);
            }
            i = i + 1;
        }
        assert(self@.rows =~= with_id(before, id@, f));
        moved
    }

    /// Settle a command.
    ///
    /// `reply` and `error` are written as given, absent ones included, so a
    /// retry path cannot leave a stale error next to a good reply. The result
    /// says whether a row has that id.
    pub fn finish(
        &mut self,
        id: &str,
        status: Status,
        reply: Option<&str>,
        error: Option<&str>,
        now: i64,
    ) -> (r: bool)
        ensures
            final(self)@ == (DbView {
                rows: with_id(
                    old(self)@.rows,
                    id@,
                    |x: RowView|
                        finished_row(x, status, text::opt_str(reply), text::opt_str(error), now),
                ),
                ..old(self)@
            }),
            r == has_id(old(self)@.rows, id@),
    {
        let ghost before = self@.rows;
        let ghost f = |x: RowView|
            finished_row(x, status, text::opt_str(reply), text::opt_str(error), now);
        let mut matched = false;
        let mut i: usize = 0;
        while i < self.rows.len()
            invariant
                i <= self.rows@.len(),
                self.rows@.len() == before.len(),
                self.injecting == old(self).injecting,
                before == old(self)@.rows,
                f == (|x: RowView|
                    finished_row(x, status, text::opt_str(reply), text::opt_str(error), now)),
                forall|j: int|
                    0 <= j < i ==> (#[trigger] self.rows@[j])@ == (if before[j].id == id@ {
                        f(before[j])
                    } else {
                        before[j]
                    }),
                forall|j: int|
                    i <= j < before.len() ==> (#[trigger] self.rows@[j])@ == before[j],
                matched == (exists|j: int| 0 <= j < i && #[trigger] before[j].id == id@),
            decreases self.rows@.len() - i,
        {
            assert(self.rows@[i as int]@ == before[i as int]);
            if text::same(self.rows[i].id.as_str(), id) {
                self.rows[i].status = status.as_str().to_owned();
                self.rows[i].reply = own(reply);
                self.rows[i].error = own(error);
                self.rows[i].finished_at = Some(now);
                matched = true;
                assert(before[i as int].id == id@);
            }
            i = i + 1;
        }
        assert(self@.rows =~= with_id(before, id@, f));
        matched
    }

    /// Settle a command that has no outcome yet; one that has an outcome keeps
    /// it. The result says whether a row was settled.
    pub fn settle(
        &mut self,
        id: &str,
        status: Status,
        reply: Option<&str>,
        error: Option<&str>,
        now: i64,
    ) -> (r: bool)
        ensures
            final(self)@ == (DbView {
                rows: with_id(
                    old(self)@.rows,
                    id@,
                    |x: RowView|
                        settled_row(x, status, text::opt_str(reply), text::opt_str(error), now),
                ),
                ..old(self)@
            }),
            r == (exists|i: int|
                0 <= i < old(self)@.rows.len() && #[trigger] old(self)@.rows[i].id == id@
                    && !has_outcome(old(self)@.rows[i])),
    {
        let ghost before = self@.rows;
        let ghost f = |x: RowView|
            settled_row(x, status, text::opt_str(reply), text::opt_str(error), now);
        let mut settled = false;
        let mut i: usize = 0;
        while i < self.rows.len()
            invariant
                i <= self.rows@.len(),
                self.rows@.len() == before.len(),
                self.injecting == old(self).injecting,
                before == old(self)@.rows,
                f == (|x: RowView|
                    settled_row(x, status, text::opt_str(reply), text::opt_str(error), now)),
                forall|j: int|
                    0 <= j < i ==> (#[trigger] self.rows@[j])@ == (if before[j].id == id@ {
                        f(before[j])
                    } else {
                        before[j]
                    }),
                forall|j: int|
                    i <= j < before.len() ==> (#[trigger] self.rows@[j])@ == before[j],
                settled == (exists|j: int|
                    0 <= j < i && #[trigger] before[j].id == id@ && !has_outcome(before[j])),
            decreases self.rows@.len() - i,
        {
            assert(self.rows@[i as int]@ == before[i as int]);
            if text::same(self.rows[i].id.as_str(), id) {
                assert(before[i as int].id == id@);
                let over = match Status::from_str(self.rows[i].status.as_str()) {
                    Some(s) => s.is_terminal(),
                    None => false,
                };
                if !over {
                    self.rows[i].status = status.as_str().to_owned();
                    self.rows[i].reply = own(reply);
                    self.rows[i].error = own(error);
                    self.rows[i].finished_at = Some(now);
                    settled = true;
                }
            }
            i = i + 1;
        }
        assert(self@.rows =~= with_id(before, id@, f));
        settled
    }

    /// One command by id, or `None` if there is no such row.
    pub fn get(&self, id: &str) -> (r: Result<Option<Command>, DbError>)
        ensures
            match r {
                Ok(Some(c)) => has_id(self@.rows, id@) && c@ == self@.rows[position(
                    self@.rows,
                    id@,
                )] && c@.id == id@,
                Ok(None) => !has_id(self@.rows, id@),
                Err(e) => {
                    let row = self@.rows[position(self@.rows, id@)];
                    &&& has_id(self@.rows, id@)
                    &&& status_of(row.status) is None
                    &&& unknown_status(e, "reading command "@ + id@, row.status)
                },
            },
    {
        match self.find(id) {
            Some(i) => {
                assert(self.rows@[i as int]@ == self@.rows[i as int]);
                match decode(&self.rows[i], text::cat("reading command ", id).as_str()) {
                    Ok(c) => Ok(Some(c)),
                    Err(e) => Err(e),
                }
            },
            None => Ok(None),
        }
    }

    /// The command that runs as that turn, or `None` if there is no such row. Of
    /// two, the one inserted first.
    pub fn by_turn_id(&self, turn_id: &str) -> (r: Result<Option<Command>, DbError>)
        ensures
            match r {
                Ok(Some(c)) => {
                    let i = turn_position(self@.rows, turn_id@);
                    &&& i < self@.rows.len()
                    &&& c@ == self@.rows[i]
                    &&& c@.turn_id == Some(turn_id@)
                },
                Ok(None) => turn_position(self@.rows, turn_id@) == self@.rows.len(),
                Err(e) => {
                    let i = turn_position(self@.rows, turn_id@);
                    &&& i < self@.rows.len()
                    &&& status_of(self@.rows[i].status) is None
                    &&& unknown_status(e, "reading turn "@ + turn_id@, self@.rows[i].status)
                },
            },
    {
        let ghost rows = self@.rows;
        let mut i: usize = 0;
        assert(rows.skip(0) =~= rows);
        while i < self.rows.len()
            invariant
                i <= rows.len(),
                rows == self@.rows,
                i + turn_position(rows.skip(i as int), turn_id@) == turn_position(rows, turn_id@),
            decreases self.rows@.len() - i,
        {
            assert(rows[i as int] == self.rows@[i as int]@);
            assert(rows.skip(i as int)[0] == rows[i as int]);
            let hit = match &self.rows[i].turn_id {
                Some(t) => text::same(t.as_str(), turn_id),
                None => false,
            };
            if hit {
                return match decode(&self.rows[i], text::cat("reading turn ", turn_id).as_str()) {
                    Ok(c) => Ok(Some(c)),
                    Err(e) => Err(e),
                };
            }
            assert(rows.skip(i as int).skip(1) =~= rows.skip(i + 1));
            i = i + 1;
        }
        Ok(None)
    }

    /// Fail every command a previous process left in flight, and say how many.
    ///
    /// Nothing will ever finish those rows, and the console would show them
    /// spinning forever. They are failed rather than queued again: sending a
    /// command to a tool-capable session minutes or hours later is a worse
    /// surprise than an honest failure.
    pub fn reconcile_stranded(&mut self, now: i64) -> (r: usize)
        ensures
            final(self)@ == (DbView {
                rows: old(self)@.rows.map_values(|x: RowView| reconciled_row(x, now)),
                ..old(self)@
            }),
            r == in_flight_count(old(self)@.rows),
    {
        let ghost before = self@.rows;
        let mut n: usize = 0;
        let mut i: usize = 0;
        assert(before.take(0) =~= Seq::<RowView>::empty());
        while i < self.rows.len()
            invariant
                i <= self.rows@.len(),
                n <= i,
                self.rows@.len() == before.len(),
                self.injecting == old(self).injecting,
                before == old(self)@.rows,
                forall|j: int|
                    0 <= j < i ==> (#[trigger] self.rows@[j])@ == reconciled_row(before[j], now),
                forall|j: int|
                    i <= j < before.len() ==> (#[trigger] self.rows@[j])@ == before[j],
                n == in_flight_count(before.take(i as int)),
            decreases self.rows@.len() - i,
        {
            assert(self.rows@[i as int]@ == before[i as int]);
            assert(before.take(i + 1).drop_last() =~= before.take(i as int));
            if text::same(self.rows[i].status.as_str(), "queued") || text::same(
                self.rows[i].status.as_str(),
                "running",
            ) {
                self.rows[i].status = "failed".to_owned();
                self.rows[i].error = Some(STRANDED_ERROR.to_owned());
                self.rows[i].finished_at = Some(now);
                n = n + 1;
            }
            i = i + 1;
        }
        assert(before.take(i as int) =~= before);
        assert(self@.rows =~= before.map_values(|x: RowView| reconciled_row(x, now)));
        n
    }

    /// What is stored of the kill switch: nothing until it was moved.
    pub fn stored_switch(&self) -> (r: Option<&str>)
        ensures
            text::opt_str(r) == self@.injecting,
    {
        match &self.injecting {
            Some(v) => Some(v.as_str()),
            None => None,
        }
    }

    /// Whether the kill switch lets commands through.
    ///
    /// It is kept in the log rather than in memory so that switching it off
    /// survives a restart. A switch that was never set is on.
    pub fn injecting(&self) -> (r: bool)
        ensures
            r == is_injecting(self@.injecting),
    {
        match &self.injecting {
            Some(v) => text::same(v.as_str(), "1"),
            None => true,
        }
    }

    /// Move the kill switch.
    pub fn set_injecting(&mut self, enabled: bool)
        ensures
            final(self)@ == (DbView {
                injecting: Some(
                    if enabled {
                        "1"@
                    } else {
                        "0"@
                    },
                ),
                ..old(self)@
            }),
            is_injecting(final(self)@.injecting) == enabled,
    {
        proof {
            reveal_strlit("0");
            reveal_strlit("1");
            assert("0"@[0] != "1"@[0]);
        }
        self.injecting = Some(
            if enabled {
                "1".to_owned()
            } else {
                "0".to_owned()
            },
        );
    }
}

// ---------------------------------------------------------------------------
// Lists
// ---------------------------------------------------------------------------

/// Where a row of that time goes among `order[..k]`: behind the last one that is
/// not younger.
pub open spec fn slot(rows: Seq<RowView>, order: Seq<int>, at: i64, k: int) -> int
    decreases k,
{
    if k <= 0 {
        0
    } else if rows[order[k - 1]].created_at <= at {
        k
    } else {
        slot(rows, order, at, k - 1)
    }
}

/// The positions of the first `n` rows, oldest row first; rows of the same second
/// stand in the order in which they were inserted.
pub open spec fn oldest_order(rows: Seq<RowView>, n: int) -> Seq<int>
    decreases n,
{
    if n <= 0 {
        Seq::empty()
    } else {
        let order = oldest_order(rows, n - 1);
        order.insert(slot(rows, order, rows[n - 1].created_at, order.len() as int), n - 1)
    }
}

/// The rows, oldest first.
pub open spec fn oldest_first(rows: Seq<RowView>) -> Seq<RowView> {
    oldest_order(rows, rows.len() as int).map_values(|i: int| rows[i])
}

/// The rows, newest first, at most `limit` of them.
pub open spec fn recent_rows(rows: Seq<RowView>, limit: nat) -> Seq<RowView> {
    let all = oldest_first(rows).reverse();
    if limit < all.len() {
        all.take(limit as int)
    } else {
        all
    }
}

/// The queued rows of a list, and the running ones too if that is wanted.
pub open spec fn waiting(rows: Seq<RowView>, running_too: bool) -> Seq<RowView>
    decreases rows.len(),
{
    if rows.len() == 0 {
        Seq::empty()
    } else {
        let rest = waiting(rows.drop_last(), running_too);
        let r = rows.last();
        if r.status == "queued"@ || (running_too && r.status == "running"@) {
            rest.push(r)
        } else {
            rest
        }
    }
}

proof fn lemma_slot(rows: Seq<RowView>, order: Seq<int>, at: i64, k: int)
    requires
        0 <= k <= order.len(),
    ensures
        0 <= slot(rows, order, at, k) <= k,
        forall|j: int|
            slot(rows, order, at, k) <= j < k ==> rows[#[trigger] order[j]].created_at > at,
        slot(rows, order, at, k) > 0 ==> rows[order[slot(rows, order, at, k) - 1]].created_at <= at,
    decreases k,
{
    if k > 0 && rows[order[k - 1]].created_at > at {
        lemma_slot(rows, order, at, k - 1);
    }
}

/// Whether row `i` comes before row `j`, oldest first.
pub open spec fn older(rows: Seq<RowView>, i: int, j: int) -> bool {
    rows[i].created_at < rows[j].created_at || (rows[i].created_at == rows[j].created_at && i < j)
}

/// The order has every row exactly once, and each row before all that are
/// younger or, of the same second, were inserted later.
pub proof fn law_oldest_order(rows: Seq<RowView>, n: int)
    requires
        0 <= n <= rows.len(),
    ensures
        oldest_order(rows, n).len() == n,
        forall|k: int| 0 <= k < n ==> 0 <= #[trigger] oldest_order(rows, n)[k] < n,
        forall|i: int| 0 <= i < n ==> oldest_order(rows, n).contains(i),
        forall|a: int, b: int|
            0 <= a < b < n ==> older(
                rows,
                #[trigger] oldest_order(rows, n)[a],
                #[trigger] oldest_order(rows, n)[b],
            ),
    decreases n,
{
    if n > 0 {
        law_oldest_order(rows, n - 1);
        let order = oldest_order(rows, n - 1);
        let at = rows[n - 1].created_at;
        let p = slot(rows, order, at, order.len() as int);
        lemma_slot(rows, order, at, order.len() as int);
        let next = order.insert(p, n - 1);
        assert(next == oldest_order(rows, n));
        assert forall|i: int| 0 <= i < n implies next.contains(i) by {
            if i == n - 1 {
                assert(next[p] == i);
            } else {
                assert(order.contains(i));
                let k = choose|k: int| 0 <= k < order.len() && order[k] == i;
                if k < p {
                    assert(next[k] == i);
                } else {
                    assert(next[k + 1] == i);
                }
            }
        }
        assert forall|a: int, b: int| 0 <= a < b < n implies older(
            rows,
            #[trigger] next[a],
            #[trigger] next[b],
        ) by {
            if a < p && b < p {
                assert(older(rows, order[a], order[b]));
            } else if a > p {
                assert(older(rows, order[a - 1], order[b - 1]));
            } else if b > p && a < p {
                assert(older(rows, order[a], order[b - 1]));
            } else if a == p {
                assert(rows[order[b - 1]].created_at > at);
            } else {
                // b == p: everything before the slot is not younger.
                if a < p - 1 {
                    assert(older(rows, order[a], order[p - 1]));
                }
            }
        }
    }
}

impl Db {
    /// The positions of the rows, oldest first.
    fn order(&self) -> (r: Vec<usize>)
        ensures
            r@.len() == self@.rows.len(),
            forall|k: int| 0 <= k < r@.len() ==> (#[trigger] r@[k]) < self@.rows.len(),
            r@.map_values(|i: usize| i as int) == oldest_order(
                self@.rows,
                self@.rows.len() as int,
            ),
    {
        let ghost rows = self@.rows;
        let mut r: Vec<usize> = Vec::new();
        let mut n: usize = 0;
        assert(r@.map_values(|i: usize| i as int) =~= Seq::<int>::empty());
        while n < self.rows.len()
            invariant
                n <= rows.len(),
                rows == self@.rows,
                r@.len() == n,
                forall|k: int| 0 <= k < n ==> (#[trigger] r@[k]) < n,
                r@.map_values(|i: usize| i as int) == oldest_order(rows, n as int),
            decreases self.rows@.len() - n,
        {
            let ghost order = oldest_order(rows, n as int);
            let at: i64 = self.rows[n].created_at;
            assert(rows[n as int] == self.rows@[n as int]@);
            let mut k: usize = r.len();
            while k > 0 && self.rows[r[k - 1]].created_at > at
                invariant
                    k <= r@.len(),
                    n < rows.len(),
                    rows == self@.rows,
                    r@.len() == n,
                    order == oldest_order(rows, n as int),
                    r@.map_values(|i: usize| i as int) == order,
                    forall|j: int| 0 <= j < n ==> (#[trigger] r@[j]) < n,
                    slot(rows, order, at, k as int) == slot(
                        rows,
                        order,
                        at,
                        order.len() as int,
                    ),
                decreases k,
            {
                assert(order[k - 1] == r@[k - 1]);
                assert(rows[order[k - 1]] == self.rows@[order[k - 1]]@);
                k = k - 1;
            }
            proof {
                if k > 0 {
                    assert(order[k - 1] == r@[k - 1]);
                    assert(rows[order[k - 1]] == self.rows@[order[k - 1]]@);
                }
            }
            let ghost before = r@;
            r.insert(k, n);
            assert(r@.map_values(|i: usize| i as int) =~= order.insert(k as int, n as int));
            assert forall|j: int| 0 <= j < r@.len() implies (#[trigger] r@[j]) < n + 1 by {
                if j < k {
                    assert(r@[j] == before[j]);
                } else if j > k {
                    assert(r@[j] == before[j - 1]);
                }
            }
            n = n + 1;
        }
        r
    }

    /// The console's list: newest first, capped at `limit`.
    ///
    /// The times have one-second resolution and two commands spoken in the same
    /// second are entirely ordinary: of these the one inserted last comes first.
    pub fn recent(&self, limit: usize) -> (r: Result<Vec<Command>, DbError>)
        ensures
            ({
                let want = recent_rows(self@.rows, limit as nat);
                match r {
                    Ok(v) => command_views(v@) == want,
                    // The first row whose status is not known is the one reported.
                    Err(e) => exists|k: int|
                        #![trigger want[k]]
                        0 <= k < want.len() && status_of(want[k].status) is None && (forall|j: int|
                            0 <= j < k ==> status_of((#[trigger] want[j]).status) is Some)
                            && unknown_status(e, "reading recent commands"@, want[k].status),
                }
            }),
            r is Ok == (forall|k: int|
                0 <= k < recent_rows(self@.rows, limit as nat).len() ==> status_of(
                    (#[trigger] recent_rows(self@.rows, limit as nat)[k]).status,
                ) is Some),
    {
        let ghost rows = self@.rows;
        let order = self.order();
        let ghost all = oldest_first(rows).reverse();
        let ghost want = recent_rows(rows, limit as nat);
        let total: usize = order.len();
        let n: usize = if limit < total {
            limit
        } else {
            total
        };
        assert(oldest_first(rows).len() == total) by {
            assert(order@.map_values(|i: usize| i as int).len() == total);
        }
        assert(want.len() == n);
        let mut v: Vec<Command> = Vec::new();
        let mut k: usize = 0;
        assert(command_views(v@) =~= want.take(0));
        while k < n
            invariant
                k <= n <= total,
                total == order@.len() == rows.len() == all.len(),
                rows == self@.rows,
                all == oldest_first(rows).reverse(),
                want == recent_rows(rows, limit as nat),
                want.len() == n,
                n == (if limit < total {
                    limit
                } else {
                    total
                }),
                order@.map_values(|i: usize| i as int) == oldest_order(rows, rows.len() as int),
                forall|j: int| 0 <= j < order@.len() ==> (#[trigger] order@[j]) < rows.len(),
                command_views(v@) == want.take(k as int),
                forall|j: int|
                    0 <= j < k ==> status_of((#[trigger] want[j]).status) is Some,
            decreases n - k,
        {
            let i: usize = order[total - 1 - k];
            let ghost idx = (total - 1 - k) as int;
            proof {
                let o = order@.map_values(|i: usize| i as int);
                assert(o[idx] == i as int);
                assert(oldest_first(rows)[idx] == rows[i as int]);
                assert(all[k as int] == oldest_first(rows)[idx]);
                assert(want[k as int] == all[k as int]);
                assert(rows[i as int] == self.rows@[i as int]@);
            }
            let ghost before = v@;
            match decode(&self.rows[i], "reading recent commands") {
                Ok(c) => {
                    v.push(c);
                    assert(command_views(v@) =~= command_views(before).push(want[k as int]));
                    assert(want.take(k + 1) =~= want.take(k as int).push(want[k as int]));
                },
                Err(e) => {
                    assert(status_of(want[k as int].status) is None);
                    return Err(e);
                },
            }
            k = k + 1;
        }
        assert(want.take(k as int) =~= want);
        Ok(v)
    }

    /// The queued commands, oldest first, and the running ones among them if that
    /// is wanted.
    fn list_waiting(&self, running_too: bool) -> (r: Vec<Command>)
        ensures
            command_views(r@) == waiting(oldest_first(self@.rows), running_too),
    {
        let ghost rows = self@.rows;
        let order = self.order();
        let ghost all = oldest_first(rows);
        let mut v: Vec<Command> = Vec::new();
        let mut k: usize = 0;
        assert(all.len() == order@.len()) by {
            assert(order@.map_values(|i: usize| i as int).len() == order@.len());
        }
        assert(all.take(0) =~= Seq::<RowView>::empty());
        assert(command_views(v@) =~= Seq::<RowView>::empty());
        while k < order.len()
            invariant
                k <= order@.len() == rows.len() == all.len(),
                rows == self@.rows,
                all == oldest_first(rows),
                order@.map_values(|i: usize| i as int) == oldest_order(rows, rows.len() as int),
                forall|j: int| 0 <= j < order@.len() ==> (#[trigger] order@[j]) < rows.len(),
                command_views(v@) == waiting(all.take(k as int), running_too),
            decreases order@.len() - k,
        {
            let i: usize = order[k];
            proof {
                let o = order@.map_values(|i: usize| i as int);
                assert(o[k as int] == i as int);
                assert(all[k as int] == rows[i as int]);
                assert(rows[i as int] == self.rows@[i as int]@);
                assert(all.take(k + 1).drop_last() =~= all.take(k as int));
                lemma_words();
            }
            let ghost before = v@;
            if text::same(self.rows[i].status.as_str(), "queued") || (running_too && text::same(
                self.rows[i].status.as_str(),
                "running",
            )) {
                match decode(&self.rows[i], "reading waiting commands") {
                    Ok(c) => {
                        v.push(c);
                        assert(command_views(v@) =~= command_views(before).push(all[k as int]));
                    },
                    Err(_) => {},
                }
            }
            k = k + 1;
        }
        assert(all.take(k as int) =~= all);
        v
    }

    /// Everything still `queued`, oldest first.
    pub fn pending(&self) -> (r: Vec<Command>)
        ensures
            command_views(r@) == waiting(oldest_first(self@.rows), false),
    {
        self.list_waiting(false)
    }

    /// Everything without an outcome, `queued` or `running`, oldest first.
    pub fn unsettled(&self) -> (r: Vec<Command>)
        ensures
            command_views(r@) == waiting(oldest_first(self@.rows), true),
    {
        self.list_waiting(true)
    }
}

// ---------------------------------------------------------------------------
// Laws
// ---------------------------------------------------------------------------

/// Whether no two rows have the same id.
pub open spec fn unique_ids(rows: Seq<RowView>) -> bool {
    forall|i: int, j: int|
        0 <= i < j < rows.len() ==> (#[trigger] rows[i]).id != (#[trigger] rows[j]).id
}

/// Whether a change of a row keeps its id.
pub open spec fn keeps_id(f: spec_fn(RowView) -> RowView) -> bool {
    forall|r: RowView| (#[trigger] f(r)).id == r.id
}

pub(crate) proof fn lemma_position(rows: Seq<RowView>, id: Seq<char>)
    ensures
        0 <= position(rows, id) <= rows.len(),
        forall|i: int| 0 <= i < position(rows, id) ==> (#[trigger] rows[i]).id != id,
        position(rows, id) < rows.len() ==> rows[position(rows, id)].id == id,
    decreases rows.len(),
{
    if rows.len() > 0 && rows[0].id != id {
        lemma_position(rows.skip(1), id);
        assert forall|i: int| 0 <= i < position(rows, id) implies (#[trigger] rows[i]).id != id by {
            if i > 0 {
                assert(rows.skip(1)[i - 1] == rows[i]);
            }
        }
    }
}

pub(crate) proof fn lemma_position_is(rows: Seq<RowView>, id: Seq<char>, k: int)
    requires
        0 <= k < rows.len(),
        rows[k].id == id,
        forall|i: int| 0 <= i < k ==> (#[trigger] rows[i]).id != id,
    ensures
        position(rows, id) == k,
{
    lemma_position(rows, id);
    let p = position(rows, id);
    if p < k {
        assert(rows[p].id != id);
    }
    if p > k {
        assert(rows[k].id != id);
    }
}

/// A command that was accepted is read back as it was inserted, every command
/// that was there is read back as before, and no two commands share an id.
pub proof fn law_insert_adds_one_command(
    rows: Seq<RowView>,
    id: Seq<char>,
    text: Seq<char>,
    now: i64,
    other: Seq<char>,
)
    requires
        unique_ids(rows),
        !has_id(rows, id),
    ensures
        ({
            let after = rows.push(queued_row(id, text, now));
            &&& unique_ids(after)
            &&& has_id(after, id)
            &&& after[position(after, id)] == queued_row(id, text, now)
            &&& has_id(rows, other) ==> has_id(after, other) && after[position(after, other)]
                == rows[position(rows, other)]
        }),
{
    let after = rows.push(queued_row(id, text, now));
    let n = rows.len() as int;
    assert(after[n].id == id);
    assert forall|i: int| 0 <= i < n implies (#[trigger] after[i]).id != id by {
        assert(rows[i].id != id);
    }
    lemma_position_is(after, id, n);
    if has_id(rows, other) {
        lemma_position(rows, other);
        let i = choose|i: int| 0 <= i < rows.len() && #[trigger] rows[i].id == other;
        assert(rows[i].id == other);
        let p = position(rows, other);
        assert(after[p] == rows[p]);
        lemma_position_is(after, other, p);
    }
}

/// A change of the command of one id is read back under that id, leaves every
/// other command as it was, and keeps the ids and the order of all.
pub proof fn law_update_changes_one_command(
    rows: Seq<RowView>,
    id: Seq<char>,
    f: spec_fn(RowView) -> RowView,
    other: Seq<char>,
)
    requires
        keeps_id(f),
        has_id(rows, other),
    ensures
        ({
            let after = with_id(rows, id, f);
            &&& after.len() == rows.len()
            &&& forall|i: int| 0 <= i < rows.len() ==> (#[trigger] after[i]).id == rows[i].id
            &&& unique_ids(rows) ==> unique_ids(after)
            &&& has_id(after, other)
            &&& after[position(after, other)] == if other == id {
                f(rows[position(rows, other)])
            } else {
                rows[position(rows, other)]
            }
        }),
{
    let after = with_id(rows, id, f);
    assert forall|i: int| 0 <= i < rows.len() implies (#[trigger] after[i]).id == rows[i].id by {
        assert(f(rows[i]).id == rows[i].id);
    }
    lemma_position(rows, other);
    let i = choose|i: int| 0 <= i < rows.len() && #[trigger] rows[i].id == other;
    assert(rows[i].id == other);
    let p = position(rows, other);
    assert(after[p].id == other);
    lemma_position_is(after, other, p);
}

/// Picking up, submitting and settling a command each keep its id, so
/// [`law_update_changes_one_command`] holds of them.
pub proof fn law_updates_keep_ids(
    status: Status,
    reply: Option<Seq<char>>,
    error: Option<Seq<char>>,
    project_id: Seq<char>,
    turn_id: Seq<char>,
    url: Option<Seq<char>>,
    now: i64,
)
    ensures
        keeps_id(|x: RowView| if_queued(x, |y: RowView| running_row(y, now))),
        keeps_id(
            |x: RowView|
                if_queued(x, |y: RowView| submitted_row(y, project_id, turn_id, url, now)),
        ),
        keeps_id(|x: RowView| finished_row(x, status, reply, error, now)),
        keeps_id(|x: RowView| settled_row(x, status, reply, error, now)),
        keeps_id(|x: RowView| reconciled_row(x, now)),
{
}

/// A command that is no longer queued is never dragged back into flight: neither
/// picking it up nor a late answer to its submission changes it.
pub proof fn law_a_settled_command_never_runs_again(
    r: RowView,
    project_id: Seq<char>,
    turn_id: Seq<char>,
    url: Option<Seq<char>>,
    now: i64,
)
    requires
        r.status != "queued"@,
    ensures
        if_queued(r, |y: RowView| running_row(y, now)) == r,
        if_queued(r, |y: RowView| submitted_row(y, project_id, turn_id, url, now)) == r,
{
}

/// Settling a command twice is a no-op: with an outcome recorded, whatever arrives
/// later changes nothing.
pub proof fn law_settling_twice_is_a_no_op(
    r: RowView,
    status: Status,
    reply: Option<Seq<char>>,
    error: Option<Seq<char>>,
    now: i64,
    status2: Status,
    reply2: Option<Seq<char>>,
    error2: Option<Seq<char>>,
    now2: i64,
)
    requires
        terminal(status),
    ensures
        ({
            let once = settled_row(r, status, reply, error, now);
            &&& has_outcome(once)
            &&& settled_row(once, status2, reply2, error2, now2) == once
        }),
{
    law_status_words_round_trip(status, word(status));
}

/// Settling a command keeps its transcript and the time it started.
pub proof fn law_finish_keeps_the_transcript(
    r: RowView,
    status: Status,
    reply: Option<Seq<char>>,
    error: Option<Seq<char>>,
    now: i64,
)
    ensures
        finished_row(r, status, reply, error, now).text == r.text,
        finished_row(r, status, reply, error, now).created_at == r.created_at,
        finished_row(r, status, reply, error, now).started_at == r.started_at,
        finished_row(r, status, reply, error, now).reply == reply,
        finished_row(r, status, reply, error, now).error == error,
{
}

/// The waiting list has the queued rows, and the running ones if wanted, and no
/// others: a command that is held or has any other outcome is never in it.
pub proof fn law_waiting_is_exact(rows: Seq<RowView>, running_too: bool, r: RowView)
    ensures
        waiting(rows, running_too).contains(r) == (rows.contains(r) && (r.status == "queued"@ || (
        running_too && r.status == "running"@))),
    decreases rows.len(),
{
    let w = waiting(rows, running_too);
    if rows.len() > 0 {
        let init = rows.drop_last();
        law_waiting_is_exact(init, running_too, r);
        let rest = waiting(init, running_too);
        let last = rows.last();
        assert(rows =~= init.push(last));
        assert(rows.contains(r) == (init.contains(r) || r == last)) by {
            if init.contains(r) {
                let i = choose|i: int| 0 <= i < init.len() && init[i] == r;
                assert(rows[i] == r);
            }
            if r == last {
                assert(rows[rows.len() - 1] == r);
            }
        }
        assert(rest.push(last).contains(r) == (rest.contains(r) || r == last)) by {
            if rest.contains(r) {
                let i = choose|i: int| 0 <= i < rest.len() && rest[i] == r;
                assert(rest.push(last)[i] == r);
            }
            if r == last {
                assert(rest.push(last)[rest.len() as int] == r);
            }
        }
    }
}

proof fn lemma_nothing_in_flight(rows: Seq<RowView>)
    requires
        forall|i: int| 0 <= i < rows.len() ==> !in_flight(#[trigger] rows[i]),
    ensures
        in_flight_count(rows) == 0,
        waiting(rows, true).len() == 0,
        waiting(rows, false).len() == 0,
    decreases rows.len(),
{
    if rows.len() > 0 {
        lemma_nothing_in_flight(rows.drop_last());
    }
}

/// After a restart nothing is in flight, nothing waits, and settling the stranded
/// rows once more changes nothing; a row that had an outcome keeps it.
pub proof fn law_reconcile_settles_everything_once(rows: Seq<RowView>, now: i64, later: i64)
    ensures
        ({
            let after = rows.map_values(|x: RowView| reconciled_row(x, now));
            &&& in_flight_count(after) == 0
            &&& waiting(oldest_first(after), true).len() == 0
            &&& waiting(oldest_first(after), false).len() == 0
            &&& after.map_values(|x: RowView| reconciled_row(x, later)) == after
            &&& forall|i: int|
                0 <= i < rows.len() && !in_flight(rows[i]) ==> #[trigger] after[i] == rows[i]
        }),
{
    let after = rows.map_values(|x: RowView| reconciled_row(x, now));
    lemma_words();
    assert forall|i: int| 0 <= i < after.len() implies !in_flight(#[trigger] after[i]) by {
        assert(after[i] == reconciled_row(rows[i], now));
    }
    lemma_nothing_in_flight(after);
    law_oldest_order(after, after.len() as int);
    let sorted = oldest_first(after);
    assert forall|i: int| 0 <= i < sorted.len() implies !in_flight(#[trigger] sorted[i]) by {
        let k = oldest_order(after, after.len() as int)[i];
        assert(sorted[i] == after[k]);
    }
    lemma_nothing_in_flight(sorted);
    assert(after.map_values(|x: RowView| reconciled_row(x, later)) =~= after);
}

/// The console's list has every row once, newest first, and a limit takes the
/// newest of them. Rows of the same second come in the reverse of the order in
/// which they were inserted.
pub proof fn law_recent_is_newest_first(rows: Seq<RowView>, limit: nat)
    ensures
        ({
            let order = oldest_order(rows, rows.len() as int).reverse();
            let all = recent_rows(rows, rows.len());
            &&& all.len() == rows.len()
            &&& forall|k: int| 0 <= k < all.len() ==> #[trigger] all[k] == rows[order[k]]
            &&& forall|i: int| 0 <= i < rows.len() ==> order.contains(i)
            &&& forall|a: int, b: int|
                0 <= a < b < all.len() ==> older(rows, #[trigger] order[b], #[trigger] order[a])
            &&& recent_rows(rows, limit) == if limit < all.len() {
                all.take(limit as int)
            } else {
                all
            }
        }),
{
    let n = rows.len() as int;
    law_oldest_order(rows, n);
    let oldest = oldest_order(rows, n);
    let order = oldest.reverse();
    assert(oldest_first(rows).len() == n);
    assert forall|i: int| 0 <= i < n implies order.contains(i) by {
        assert(oldest.contains(i));
        let k = choose|k: int| 0 <= k < oldest.len() && oldest[k] == i;
        assert(order[n - 1 - k] == i);
    }
}

/// The words for the statuses, and which of them are outcomes.
pub proof fn law_status_words(s: Status)
    ensures
        word(Status::Queued) == "queued"@ && !terminal(Status::Queued),
        word(Status::Running) == "running"@ && !terminal(Status::Running),
        word(Status::Done) == "done"@ && terminal(Status::Done),
        word(Status::TimedOut) == "timed_out"@ && terminal(Status::TimedOut),
        word(Status::Failed) == "failed"@ && terminal(Status::Failed),
        word(Status::Cancelled) == "cancelled"@ && terminal(Status::Cancelled),
        word(Status::Held) == "held"@ && terminal(Status::Held),
{
}

/// A row has an outcome exactly where its status is one of five words, so a row that is
/// queued or running, or whose status is no word that is known, has none.
pub proof fn law_five_words_are_outcomes(r: RowView)
    ensures
        has_outcome(r) == (r.status == "done"@ || r.status == "timed_out"@ || r.status
            == "failed"@ || r.status == "cancelled"@ || r.status == "held"@),
        r.status == "queued"@ || r.status == "running"@ ==> !has_outcome(r),
{
    lemma_words();
}

/// A command that was just accepted: its id, its words and its time, queued, and
/// nothing else yet.
pub proof fn law_an_accepted_command_is_queued(id: Seq<char>, text: Seq<char>, now: i64)
    ensures
        ({
            let r = queued_row(id, text, now);
            &&& r.id == id
            &&& r.text == text
            &&& r.created_at == now
            &&& r.status == "queued"@
            &&& r.reply is None && r.error is None
            &&& r.started_at is None && r.finished_at is None
            &&& r.project_id is None && r.turn_id is None && r.project_url is None
        }),
{
}

/// Picking a queued command up marks it as running from that time on, and changes
/// nothing else of it.
pub proof fn law_a_queued_command_starts(r: RowView, now: i64)
    requires
        r.status == "queued"@,
    ensures
        ({
            let after = if_queued(r, |y: RowView| running_row(y, now));
            &&& after.status == "running"@
            &&& after.started_at == Some(now)
            &&& after.id == r.id && after.text == r.text && after.created_at == r.created_at
            &&& after.reply == r.reply && after.error == r.error
            &&& after.finished_at == r.finished_at
            &&& after.project_id == r.project_id && after.turn_id == r.turn_id
            &&& after.project_url == r.project_url
        }),
{
}

/// A queued command whose submission was answered runs from that time on, as the turn
/// of the project that the answer names, and nothing else of it changes.
pub proof fn law_a_submitted_command_names_its_turn(
    r: RowView,
    project_id: Seq<char>,
    turn_id: Seq<char>,
    url: Option<Seq<char>>,
    now: i64,
)
    requires
        r.status == "queued"@,
    ensures
        ({
            let after = if_queued(r, |y: RowView| submitted_row(y, project_id, turn_id, url, now));
            &&& after.status == "running"@
            &&& after.started_at == Some(now)
            &&& after.project_id == Some(project_id)
            &&& after.turn_id == Some(turn_id)
            &&& after.project_url == url
            &&& after.id == r.id && after.text == r.text && after.created_at == r.created_at
            &&& after.reply == r.reply && after.error == r.error
            &&& after.finished_at == r.finished_at
        }),
{
}

/// Finishing a command writes the word for the status, the reply, the error and the
/// time, each as it was given, and changes nothing else.
pub proof fn law_finishing_writes_the_outcome(
    r: RowView,
    status: Status,
    reply: Option<Seq<char>>,
    error: Option<Seq<char>>,
    now: i64,
)
    ensures
        ({
            let after = finished_row(r, status, reply, error, now);
            &&& after.reply == reply
            &&& after.error == error
            &&& after.finished_at == Some(now)
            &&& status == Status::Done ==> after.status == "done"@
            &&& status == Status::Failed ==> after.status == "failed"@
            &&& status == Status::TimedOut ==> after.status == "timed_out"@
            &&& status == Status::Cancelled ==> after.status == "cancelled"@
            &&& status == Status::Held ==> after.status == "held"@
            &&& status == Status::Queued ==> after.status == "queued"@
            &&& status == Status::Running ==> after.status == "running"@
            &&& after.id == r.id && after.text == r.text && after.created_at == r.created_at
            &&& after.started_at == r.started_at
            &&& after.project_id == r.project_id && after.turn_id == r.turn_id
            &&& after.project_url == r.project_url
        }),
{
}

/// Settling a command that is queued or running, or whose status is not known, writes
/// the outcome; one that is done, failed, timed out, cancelled or held stays as it is.
pub proof fn law_the_first_outcome_settles(
    r: RowView,
    status: Status,
    reply: Option<Seq<char>>,
    error: Option<Seq<char>>,
    now: i64,
)
    ensures
        ({
            let after = settled_row(r, status, reply, error, now);
            if r.status == "done"@ || r.status == "timed_out"@ || r.status == "failed"@ || r.status
                == "cancelled"@ || r.status == "held"@ {
                after == r
            } else {
                &&& after.reply == reply && after.error == error && after.finished_at == Some(now)
                &&& status == Status::Done ==> after.status == "done"@
                &&& status == Status::Failed ==> after.status == "failed"@
                &&& status == Status::TimedOut ==> after.status == "timed_out"@
                &&& status == Status::Cancelled ==> after.status == "cancelled"@
                &&& status == Status::Held ==> after.status == "held"@
                &&& after.id == r.id && after.text == r.text && after.created_at == r.created_at
                &&& after.started_at == r.started_at
                &&& after.project_id == r.project_id && after.turn_id == r.turn_id
                &&& after.project_url == r.project_url
            }
        }),
{
    lemma_words();
}

/// A change of the command of one id changes exactly the rows of that id, each by
/// itself.
pub proof fn law_a_change_is_of_one_id(
    rows: Seq<RowView>,
    id: Seq<char>,
    f: spec_fn(RowView) -> RowView,
    i: int,
)
    requires
        0 <= i < rows.len(),
    ensures
        with_id(rows, id, f).len() == rows.len(),
        rows[i].id == id ==> with_id(rows, id, f)[i] == f(rows[i]),
        rows[i].id != id ==> with_id(rows, id, f)[i] == rows[i],
{
}

/// The command of an id is the first row that has it.
pub proof fn law_a_command_is_found_by_its_id(rows: Seq<RowView>, id: Seq<char>, i: int)
    requires
        0 <= i < rows.len(),
    ensures
        has_id(rows, id) == (exists|k: int| 0 <= k < rows.len() && #[trigger] rows[k].id == id),
        rows[i].id == id && (forall|k: int| 0 <= k < i ==> (#[trigger] rows[k]).id != id)
            ==> position(rows, id) == i,
{
    if rows[i].id == id && (forall|k: int| 0 <= k < i ==> (#[trigger] rows[k]).id != id) {
        lemma_position_is(rows, id, i);
    }
}

/// The command of a turn is the first row that runs as that turn, if there is one.
pub proof fn law_a_command_is_found_by_its_turn(rows: Seq<RowView>, turn_id: Seq<char>)
    ensures
        ({
            let p = turn_position(rows, turn_id);
            &&& 0 <= p <= rows.len()
            &&& p < rows.len() ==> rows[p].turn_id == Some(turn_id)
            &&& forall|i: int|
                0 <= i < p ==> (#[trigger] rows[i]).turn_id != Some(turn_id)
        }),
    decreases rows.len(),
{
    if rows.len() > 0 && rows[0].turn_id != Some(turn_id) {
        law_a_command_is_found_by_its_turn(rows.skip(1), turn_id);
        let p = turn_position(rows, turn_id);
        assert forall|i: int| 0 <= i < p implies (#[trigger] rows[i]).turn_id != Some(turn_id) by {
            if i > 0 {
                assert(rows.skip(1)[i - 1] == rows[i]);
            }
        }
    }
}

/// A restart fails what was queued or running, with one fixed reason, and leaves every
/// other row as it was; it counts the rows that it failed, one by one.
pub proof fn law_a_restart_fails_what_was_in_flight(rows: Seq<RowView>, r: RowView, now: i64)
    ensures
        r.status == "queued"@ || r.status == "running"@ ==> ({
            let after = reconciled_row(r, now);
            &&& after.status == "failed"@
            &&& after.error == Some("interrupted by a restart"@)
            &&& after.finished_at == Some(now)
            &&& after.reply == r.reply
            &&& after.id == r.id && after.text == r.text && after.created_at == r.created_at
            &&& after.started_at == r.started_at
            &&& after.project_id == r.project_id && after.turn_id == r.turn_id
            &&& after.project_url == r.project_url
        }),
        r.status != "queued"@ && r.status != "running"@ ==> reconciled_row(r, now) == r,
        in_flight_count(Seq::empty()) == 0,
        in_flight_count(rows.push(r)) == in_flight_count(rows) + (if r.status == "queued"@
            || r.status == "running"@ {
            1int
        } else {
            0
        }),
{
    assert(rows.push(r).drop_last() =~= rows);
}

/// The kill switch is on until it was set, and then on exactly where it was set to one.
pub proof fn law_the_switch_is_on_unless_set_off(v: Seq<char>)
    ensures
        is_injecting(None),
        is_injecting(Some("1"@)),
        !is_injecting(Some("0"@)),
        v != "1"@ ==> !is_injecting(Some(v)),
{
    reveal_strlit("0");
    reveal_strlit("1");
    assert("0"@[0] != "1"@[0]);
}

/// The waiting list takes the rows one by one, in their order: a queued one, and a
/// running one if wanted, goes to its end, and any other is passed over.
pub proof fn law_waiting_takes_rows_in_order(rows: Seq<RowView>, running_too: bool, r: RowView)
    ensures
        waiting(Seq::empty(), running_too) == Seq::<RowView>::empty(),
        r.status == "queued"@ ==> waiting(rows.push(r), running_too) == waiting(
            rows,
            running_too,
        ).push(r),
        r.status == "running"@ ==> waiting(rows.push(r), true) == waiting(rows, true).push(r),
        r.status == "running"@ ==> waiting(rows.push(r), false) == waiting(rows, false),
        r.status != "queued"@ && r.status != "running"@ ==> waiting(rows.push(r), running_too)
            == waiting(rows, running_too),
{
    lemma_words();
    assert(rows.push(r).drop_last() =~= rows);
}

proof fn lemma_waiting_order(rows: Seq<RowView>, running_too: bool)
    requires
        forall|a: int, b: int|
            0 <= a < b < rows.len() ==> (#[trigger] rows[a]).created_at <= (
            #[trigger] rows[b]).created_at,
    ensures
        ({
            let w = waiting(rows, running_too);
            &&& forall|a: int, b: int|
                0 <= a < b < w.len() ==> (#[trigger] w[a]).created_at <= (
                #[trigger] w[b]).created_at
            &&& w.len() > 0 ==> rows.len() > 0 && forall|a: int|
                0 <= a < w.len() ==> (#[trigger] w[a]).created_at <= rows.last().created_at
        }),
    decreases rows.len(),
{
    if rows.len() > 0 {
        let init = rows.drop_last();
        lemma_waiting_order(init, running_too);
        let rest = waiting(init, running_too);
        if rest.len() > 0 {
            assert(init.last() == rows[rows.len() - 2]);
            assert(rows[rows.len() - 2].created_at <= rows[rows.len() - 1].created_at);
        }
    }
}

/// What waits is listed oldest first: nothing in the list was spoken after what comes
/// behind it.
pub proof fn law_what_waits_is_listed_oldest_first(rows: Seq<RowView>, running_too: bool)
    ensures
        ({
            let w = waiting(oldest_first(rows), running_too);
            forall|a: int, b: int|
                0 <= a < b < w.len() ==> (#[trigger] w[a]).created_at <= (
                #[trigger] w[b]).created_at
        }),
        oldest_first(rows).len() == rows.len(),
        forall|i: int| 0 <= i < rows.len() ==> oldest_first(rows).contains(#[trigger] rows[i]),
{
    let n = rows.len() as int;
    law_oldest_order(rows, n);
    let order = oldest_order(rows, n);
    let sorted = oldest_first(rows);
    assert forall|a: int, b: int| 0 <= a < b < sorted.len() implies (
    #[trigger] sorted[a]).created_at <= (#[trigger] sorted[b]).created_at by {
        assert(sorted[a] == rows[order[a]]);
        assert(sorted[b] == rows[order[b]]);
        assert(older(rows, order[a], order[b]));
    }
    lemma_waiting_order(sorted, running_too);
    assert forall|i: int| 0 <= i < n implies sorted.contains(#[trigger] rows[i]) by {
        assert(order.contains(i));
        let k = choose|k: int| 0 <= k < order.len() && order[k] == i;
        assert(sorted[k] == rows[i]);
    }
}

/// The console's list is as long as the limit, or has every row; nothing in it was
/// spoken before what comes behind it, nor before a row that the limit left out; and
/// of two rows of the same second the one inserted later comes first.
pub proof fn law_recent_lists_the_newest(rows: Seq<RowView>, limit: nat)
    ensures
        ({
            let r = recent_rows(rows, limit);
            let all = recent_rows(rows, rows.len());
            &&& r.len() == (if limit < rows.len() {
                limit
            } else {
                rows.len()
            })
            &&& all.len() == rows.len()
            &&& forall|i: int| 0 <= i < rows.len() ==> all.contains(#[trigger] rows[i])
            &&& forall|k: int| 0 <= k < r.len() ==> #[trigger] r[k] == all[k]
            &&& forall|a: int, b: int|
                0 <= a < b < all.len() ==> (#[trigger] all[a]).created_at >= (
                #[trigger] all[b]).created_at
            &&& forall|i: int, j: int|
                #![trigger rows[i], rows[j]]
                0 <= i < j < rows.len() && rows[i].created_at == rows[j].created_at ==> exists|
                    a: int,
                    b: int,
                |
                    0 <= a < b < all.len() && #[trigger] all[a] == rows[j] && #[trigger] all[b]
                        == rows[i]
        }),
{
    let n = rows.len() as int;
    law_oldest_order(rows, n);
    law_recent_is_newest_first(rows, limit);
    let order = oldest_order(rows, n).reverse();
    let all = recent_rows(rows, rows.len());
    assert forall|i: int| 0 <= i < n implies all.contains(#[trigger] rows[i]) by {
        assert(order.contains(i));
        let k = choose|k: int| 0 <= k < order.len() && order[k] == i;
        assert(all[k] == rows[order[k]]);
    }
    assert forall|a: int, b: int| 0 <= a < b < all.len() implies (#[trigger] all[a]).created_at >= (
    #[trigger] all[b]).created_at by {
        assert(older(rows, order[b], order[a]));
    }
    assert forall|i: int, j: int|
        #![trigger rows[i], rows[j]]
        0 <= i < j < rows.len() && rows[i].created_at == rows[j].created_at implies exists|
        a: int,
        b: int,
    |
        0 <= a < b < all.len() && #[trigger] all[a] == rows[j] && #[trigger] all[b] == rows[i] by {
        assert(order.contains(i) && order.contains(j));
        let b = choose|k: int| 0 <= k < order.len() && order[k] == i;
        let a = choose|k: int| 0 <= k < order.len() && order[k] == j;
        if b < a {
            assert(older(rows, order[a], order[b]));
        }
        assert(all[a] == rows[j] && all[b] == rows[i]);
    }
}

/// A status that is not known is reported with the word itself, quoted, and the words
/// that are known.
pub proof fn law_an_unknown_status_is_named(e: DbError, doing: Seq<char>, status: Seq<char>)
    requires
        unknown_status(e, doing, status),
    ensures
        e.doing@ == doing,
        e.cause@ == "commands.status = "@ + text::quoted(status)
            + " is not one of queued|running|done|timed_out|failed|cancelled|held"@,
{
}

/// What is inserted is read back: the command with its words, its time and nothing else
/// yet, queued; and it is listed as pending. Inserting under an id that some command has
/// fails and changes nothing.
pub proof fn law_what_is_inserted_is_read_back(id: &str, text: &str, now: i64)
    ensures
        forall|p: &mut Db|
            #![trigger call_ensures(Db::insert, (p, id, text, now), Ok(()))]
            call_ensures(Db::insert, (p, id, text, now), Ok(())) ==> forall|
                q: &Db,
                r: Result<Option<Command>, DbError>,
            |
                q@ == final(p)@ && #[trigger] call_ensures(Db::get, (q, id), r) ==> {
                    &&& r matches Ok(Some(c))
                    &&& c.id@ == id@
                    &&& c.text@ == text@
                    &&& c.status == Status::Queued
                    &&& c.created_at == now
                    &&& c.reply is None && c.error is None && c.turn_id is None
                },
        forall|p: &mut Db, e: DbError| #[trigger]
            call_ensures(Db::insert, (p, id, text, now), Err(e)) ==> final(p)@ == p@ && exists|
                i: int,
            |
                0 <= i < p@.rows.len() && #[trigger] p@.rows[i].id == id@,
{
    assert forall|p: &mut Db|
        #![trigger call_ensures(Db::insert, (p, id, text, now), Ok(()))]
        call_ensures(Db::insert, (p, id, text, now), Ok(())) implies forall|
        q: &Db,
        r: Result<Option<Command>, DbError>,
    |
        q@ == final(p)@ && #[trigger] call_ensures(Db::get, (q, id), r) ==> {
            &&& r matches Ok(Some(c))
            &&& c.id@ == id@
            &&& c.text@ == text@
            &&& c.status == Status::Queued
            &&& c.created_at == now
            &&& c.reply is None && c.error is None && c.turn_id is None
        } by {
        let rows = p@.rows;
        let after = rows.push(queued_row(id@, text@, now));
        assert(after[rows.len() as int].id == id@);
        assert forall|i: int| 0 <= i < rows.len() implies (#[trigger] after[i]).id != id@ by {
            assert(rows[i].id != id@);
        }
        lemma_position_is(after, id@, rows.len() as int);
        assert forall|q: &Db, r: Result<Option<Command>, DbError>|
            q@ == final(p)@ && #[trigger] call_ensures(Db::get, (q, id), r) implies {
            &&& r matches Ok(Some(c))
            &&& c.id@ == id@
            &&& c.text@ == text@
            &&& c.status == Status::Queued
            &&& c.created_at == now
            &&& c.reply is None && c.error is None && c.turn_id is None
        } by {
            assert(q@.rows == after);
            law_status_words_round_trip(Status::Queued, word(Status::Queued));
            match r {
                Ok(Some(c)) => {
                    assert(c@ == queued_row(id@, text@, now));
                    law_status_words_round_trip(c.status, word(c.status));
                },
                _ => {},
            }
        }
    }
}

/// Each change of a command, row by row: picking it up, recording its turn, finishing it
/// and settling it touch the rows of its id and no other; the first two only where the
/// row was queued, and settling only where it has no outcome. Each says whether there
/// was such a row.
pub proof fn law_each_change_is_of_its_own_command(
    id: &str,
    project_id: &str,
    turn_id: &str,
    url: Option<&str>,
    status: Status,
    reply: Option<&str>,
    error: Option<&str>,
    now: i64,
    r: bool,
    i: int,
)
    ensures
        forall|p: &mut Db| #[trigger]
            call_ensures(Db::mark_running, (p, id, now), r) && 0 <= i < p@.rows.len() ==> {
                let row = p@.rows[i];
                &&& final(p)@.injecting == p@.injecting
                &&& final(p)@.rows.len() == p@.rows.len()
                &&& row.id == id@ && row.status == "queued"@ ==> r && final(p)@.rows[i] == RowView {
                    status: "running"@,
                    started_at: Some(now),
                    ..row
                }
                &&& row.id != id@ || row.status != "queued"@ ==> final(p)@.rows[i] == row
            },
        forall|p: &mut Db| #[trigger]
            call_ensures(Db::mark_submitted, (p, id, project_id, turn_id, url, now), r) && 0 <= i
                < p@.rows.len() ==> {
                let row = p@.rows[i];
                &&& final(p)@.injecting == p@.injecting
                &&& final(p)@.rows.len() == p@.rows.len()
                &&& row.id == id@ && row.status == "queued"@ ==> r && final(p)@.rows[i] == RowView {
                    status: "running"@,
                    started_at: Some(now),
                    project_id: Some(project_id@),
                    turn_id: Some(turn_id@),
                    project_url: (match url {
                        Some(u) => Some(u@),
                        None => None,
                    }),
                    ..row
                }
                &&& row.id != id@ || row.status != "queued"@ ==> final(p)@.rows[i] == row
            },
        forall|p: &mut Db| #[trigger]
            call_ensures(Db::finish, (p, id, status, reply, error, now), r) && 0 <= i
                < p@.rows.len() ==> {
                let row = p@.rows[i];
                &&& final(p)@.injecting == p@.injecting
                &&& final(p)@.rows.len() == p@.rows.len()
                &&& row.id == id@ ==> r && final(p)@.rows[i] == RowView {
                    status: word(status),
                    reply: (match reply {
                        Some(s) => Some(s@),
                        None => None,
                    }),
                    error: (match error {
                        Some(s) => Some(s@),
                        None => None,
                    }),
                    finished_at: Some(now),
                    ..row
                }
                &&& row.id != id@ ==> final(p)@.rows[i] == row
            },
        forall|p: &mut Db| #[trigger]
            call_ensures(Db::settle, (p, id, status, reply, error, now), r) && 0 <= i
                < p@.rows.len() ==> {
                let row = p@.rows[i];
                let over = row.status == "done"@ || row.status == "timed_out"@ || row.status
                    == "failed"@ || row.status == "cancelled"@ || row.status == "held"@;
                &&& final(p)@.injecting == p@.injecting
                &&& final(p)@.rows.len() == p@.rows.len()
                &&& row.id == id@ && !over ==> r && final(p)@.rows[i] == RowView {
                    status: word(status),
                    reply: (match reply {
                        Some(s) => Some(s@),
                        None => None,
                    }),
                    error: (match error {
                        Some(s) => Some(s@),
                        None => None,
                    }),
                    finished_at: Some(now),
                    ..row
                }
                &&& row.id != id@ || over ==> final(p)@.rows[i] == row
            },
{
    assert forall|row: RowView| #[trigger] has_outcome(row) == (row.status == "done"@ || row.status
        == "timed_out"@ || row.status == "failed"@ || row.status == "cancelled"@ || row.status
        == "held"@) by {
        law_five_words_are_outcomes(row);
    }
}

/// A command that was recorded as a turn is found by that turn.
pub proof fn law_a_submitted_command_is_found_by_its_turn(
    id: &str,
    project_id: &str,
    turn_id: &str,
    url: Option<&str>,
    now: i64,
    r: bool,
    i: int,
)
    ensures
        forall|p: &mut Db|
            #![trigger call_ensures(Db::mark_submitted, (p, id, project_id, turn_id, url, now), r)]
            call_ensures(Db::mark_submitted, (p, id, project_id, turn_id, url, now), r) && 0 <= i
                < p@.rows.len() && p@.rows[i].id == id@ && p@.rows[i].status == "queued"@
                && unique_ids(p@.rows) && (forall|k: int|
                0 <= k < p@.rows.len() ==> (#[trigger] p@.rows[k]).turn_id != Some(turn_id@))
                ==> turn_position(final(p)@.rows, turn_id@) == i,
{
    assert forall|p: &mut Db|
        #![trigger call_ensures(Db::mark_submitted, (p, id, project_id, turn_id, url, now), r)]
        call_ensures(Db::mark_submitted, (p, id, project_id, turn_id, url, now), r) && 0 <= i
            < p@.rows.len() && p@.rows[i].id == id@ && p@.rows[i].status == "queued"@ && unique_ids(
            p@.rows,
        ) && (forall|k: int|
            0 <= k < p@.rows.len() ==> (#[trigger] p@.rows[k]).turn_id != Some(
                turn_id@,
            )) implies turn_position(final(p)@.rows, turn_id@) == i by {
        let rows = p@.rows;
        let after = final(p)@.rows;
        law_a_command_is_found_by_its_turn(after, turn_id@);
        let k = turn_position(after, turn_id@);
        assert(after[i].turn_id == Some(turn_id@));
        if k < i {
            assert(rows[k].id != rows[i].id);
            assert(after[k] == rows[k]);
        }
    }
}

/// The kill switch is as it was last set, and setting it touches no command.
pub proof fn law_the_switch_is_as_it_was_set(enabled: bool)
    ensures
        forall|p: &mut Db|
            #![trigger call_ensures(Db::set_injecting, (p, enabled), ())]
            call_ensures(Db::set_injecting, (p, enabled), ()) ==> {
                &&& final(p)@.rows == p@.rows
                &&& final(p)@.injecting == Some(
                    if enabled {
                        "1"@
                    } else {
                        "0"@
                    },
                )
                &&& forall|q: &Db, r: bool|
                    q@ == final(p)@ && #[trigger] call_ensures(Db::injecting, (q,), r) ==> r
                        == enabled
            },
        forall|q: &Db, r: bool|
            q@.injecting is None && #[trigger] call_ensures(Db::injecting, (q,), r) ==> r,
{
    law_the_switch_is_on_unless_set_off("1"@);
}

/// What is wrong with the log is said with what was being done.
pub proof fn law_an_error_says_what_was_being_done(e: &DbError, r: String)
    ensures
        call_ensures(DbError::message, (e,), r) ==> r@ == e.doing@,
        call_ensures(DbError::detail, (e,), r) ==> r@ == e.doing@ + ": "@ + e.cause@,
{
}

/// Of two rows of the same second the one inserted first comes first, oldest first.
pub proof fn law_rows_of_a_second_keep_their_order(rows: Seq<RowView>, i: int, j: int)
    requires
        0 <= i < j < rows.len(),
        rows[i].created_at == rows[j].created_at,
    ensures
        exists|a: int, b: int|
            0 <= a < b < oldest_first(rows).len() && #[trigger] oldest_first(rows)[a] == rows[i]
                && #[trigger] oldest_first(rows)[b] == rows[j],
{
    let n = rows.len() as int;
    law_oldest_order(rows, n);
    let order = oldest_order(rows, n);
    let sorted = oldest_first(rows);
    assert(order.contains(i) && order.contains(j));
    let a = choose|k: int| 0 <= k < order.len() && order[k] == i;
    let b = choose|k: int| 0 <= k < order.len() && order[k] == j;
    if b < a {
        assert(older(rows, order[b], order[a]));
    }
    assert(sorted[a] == rows[i] && sorted[b] == rows[j]);
}

/// The views of a row and of a command hold each of their fields.
pub proof fn law_views(r: Row, c: Command)
    ensures
        r@.id == r.id@ && r@.text == r.text@ && r@.status == r.status@,
        r@.reply == text::opt_view(r.reply) && r@.error == text::opt_view(r.error),
        r@.created_at == r.created_at && r@.started_at == r.started_at && r@.finished_at
            == r.finished_at,
        r@.project_id == text::opt_view(r.project_id) && r@.turn_id == text::opt_view(r.turn_id)
            && r@.project_url == text::opt_view(r.project_url),
        c@.id == c.id@ && c@.text == c.text@ && c@.status == word(c.status),
        c@.reply == text::opt_view(c.reply) && c@.error == text::opt_view(c.error),
        c@.created_at == c.created_at && c@.started_at == c.started_at && c@.finished_at
            == c.finished_at,
        c@.project_id == text::opt_view(c.project_id) && c@.turn_id == text::opt_view(c.turn_id)
            && c@.project_url == text::opt_view(c.project_url),
{
}

/// A restart fails each row that was queued or running and touches no other, and says
/// how many it failed.
pub proof fn law_a_restart_settles_what_was_left(now: i64, r: usize, i: int)
    ensures
        forall|p: &mut Db| #[trigger]
            call_ensures(Db::reconcile_stranded, (p, now), r) && 0 <= i < p@.rows.len() ==> {
                let row = p@.rows[i];
                &&& final(p)@.rows.len() == p@.rows.len()
                &&& final(p)@.injecting == p@.injecting
                &&& r == in_flight_count(p@.rows)
                &&& row.status == "queued"@ || row.status == "running"@ ==> final(p)@.rows[i]
                    == RowView {
                    status: "failed"@,
                    error: Some("interrupted by a restart"@),
                    finished_at: Some(now),
                    ..row
                }
                &&& row.status != "queued"@ && row.status != "running"@ ==> final(p)@.rows[i] == row
            },
{
}

/// Pending are exactly the commands that are queued, and unsettled those that are queued
/// or running, each oldest first.
pub proof fn law_what_is_pending_and_what_is_unsettled(
    db: &Db,
    pending: Vec<Command>,
    unsettled: Vec<Command>,
    i: int,
)
    requires
        call_ensures(Db::pending, (db,), pending),
        call_ensures(Db::unsettled, (db,), unsettled),
    ensures
        forall|k: int| 0 <= k < pending@.len() ==> (#[trigger] pending@[k]).status == Status::Queued,
        forall|k: int|
            0 <= k < unsettled@.len() ==> ((#[trigger] unsettled@[k]).status == Status::Queued
                || unsettled@[k].status == Status::Running),
        forall|a: int, b: int|
            0 <= a < b < pending@.len() ==> (#[trigger] pending@[a]).created_at <= (
            #[trigger] pending@[b]).created_at,
        forall|a: int, b: int|
            0 <= a < b < unsettled@.len() ==> (#[trigger] unsettled@[a]).created_at <= (
            #[trigger] unsettled@[b]).created_at,
        0 <= i < db@.rows.len() && db@.rows[i].status == "queued"@ ==> command_views(
            pending@,
        ).contains(db@.rows[i]),
        0 <= i < db@.rows.len() && (db@.rows[i].status == "queued"@ || db@.rows[i].status
            == "running"@) ==> command_views(unsettled@).contains(db@.rows[i]),
{
    let sorted = oldest_first(db@.rows);
    let p = command_views(pending@);
    let u = command_views(unsettled@);
    law_what_waits_is_listed_oldest_first(db@.rows, false);
    law_what_waits_is_listed_oldest_first(db@.rows, true);
    assert forall|k: int| 0 <= k < pending@.len() implies (#[trigger] pending@[k]).status
        == Status::Queued by {
        assert(p[k] == pending@[k]@);
        assert(p.contains(p[k]));
        law_waiting_is_exact(sorted, false, p[k]);
        law_status_words_round_trip(pending@[k].status, word(pending@[k].status));
        law_status_words_round_trip(Status::Queued, word(Status::Queued));
    }
    assert forall|k: int| 0 <= k < unsettled@.len() implies ((#[trigger] unsettled@[k]).status
        == Status::Queued || unsettled@[k].status == Status::Running) by {
        assert(u[k] == unsettled@[k]@);
        assert(u.contains(u[k]));
        law_waiting_is_exact(sorted, true, u[k]);
        law_status_words_round_trip(unsettled@[k].status, word(unsettled@[k].status));
        law_status_words_round_trip(Status::Queued, word(Status::Queued));
        law_status_words_round_trip(Status::Running, word(Status::Running));
    }
    assert forall|a: int, b: int| 0 <= a < b < pending@.len() implies (
    #[trigger] pending@[a]).created_at <= (#[trigger] pending@[b]).created_at by {
        assert(p[a] == pending@[a]@ && p[b] == pending@[b]@);
    }
    assert forall|a: int, b: int| 0 <= a < b < unsettled@.len() implies (
    #[trigger] unsettled@[a]).created_at <= (#[trigger] unsettled@[b]).created_at by {
        assert(u[a] == unsettled@[a]@ && u[b] == unsettled@[b]@);
    }
    if 0 <= i < db@.rows.len() {
        law_waiting_is_exact(sorted, false, db@.rows[i]);
        law_waiting_is_exact(sorted, true, db@.rows[i]);
        assert(sorted.contains(db@.rows[i]));
    }
}

/// A command is read by its id and by its turn as the first row that has it stands.
pub proof fn law_a_command_is_read_as_it_stands(
    db: &Db,
    id: &str,
    turn_id: &str,
    r: Result<Option<Command>, DbError>,
    i: int,
)
    requires
        0 <= i < db@.rows.len(),
        db@.rows[i].status == "queued"@ || db@.rows[i].status == "running"@ || db@.rows[i].status
            == "done"@ || db@.rows[i].status == "timed_out"@ || db@.rows[i].status == "failed"@
            || db@.rows[i].status == "cancelled"@ || db@.rows[i].status == "held"@,
    ensures
        call_ensures(Db::get, (db, id), r) && db@.rows[i].id == id@ && (forall|k: int|
            0 <= k < i ==> (#[trigger] db@.rows[k]).id != id@) ==> (r matches Ok(Some(c)) && c@
            == db@.rows[i]),
        call_ensures(Db::by_turn_id, (db, turn_id), r) && db@.rows[i].turn_id == Some(turn_id@) && (
        forall|k: int| 0 <= k < i ==> (#[trigger] db@.rows[k]).turn_id != Some(turn_id@)) ==> (
        r matches Ok(Some(c)) && c@ == db@.rows[i]),
{
    let rows = db@.rows;
    law_status_words_round_trip(Status::Queued, rows[i].status);
    law_status_words_round_trip(Status::Running, rows[i].status);
    law_status_words_round_trip(Status::Done, rows[i].status);
    law_status_words_round_trip(Status::TimedOut, rows[i].status);
    law_status_words_round_trip(Status::Failed, rows[i].status);
    law_status_words_round_trip(Status::Cancelled, rows[i].status);
    law_status_words_round_trip(Status::Held, rows[i].status);
    assert(status_of(rows[i].status) is Some);
    if rows[i].id == id@ && (forall|k: int| 0 <= k < i ==> (#[trigger] rows[k]).id != id@) {
        lemma_position_is(rows, id@, i);
        assert(has_id(rows, id@));
    }
    law_a_command_is_found_by_its_turn(rows, turn_id@);
    if rows[i].turn_id == Some(turn_id@) && (forall|k: int|
        0 <= k < i ==> (#[trigger] rows[k]).turn_id != Some(turn_id@)) {
        let t = turn_position(rows, turn_id@);
        if t < i {
            assert(rows[t].turn_id != Some(turn_id@));
        }
    }
}

/// Seconds since the epoch are the time; a clock before it reads as the epoch.
pub proof fn law_seconds_are_the_time(secs: u64, r: i64)
    ensures
        call_ensures(unix_of, (Some(secs),), r) && secs <= 0x7fff_ffff_ffff_ffff ==> r == secs,
        call_ensures(unix_of, (None,), r) ==> r == 0,
{
}

/// A log has the rows and the switch that it was made of, and a new one has neither.
pub proof fn law_a_log_is_what_it_was_made_of(
    rows: Vec<Row>,
    injecting: Option<String>,
    made: Db,
    empty: Db,
    i: int,
)
    requires
        call_ensures(Db::from_rows, (rows, injecting), made),
        call_ensures(Db::open_in_memory, (), empty),
        0 <= i < rows@.len(),
    ensures
        made@.rows.len() == rows@.len(),
        made@.rows[i] == rows@[i]@,
        made@.injecting == (match injecting {
            Some(s) => Some(s@),
            None => None,
        }),
        empty@.rows.len() == 0,
        empty@.injecting is None,
{
}

} // verus!
