//! The HTTP surface: which gate stands before which path, and what the console's
//! routes answer. [`surface`] decides what becomes of a request before that.

pub mod callback;
pub mod hook;
pub mod surface;

use vstd::prelude::*;

use crate::auth::is_open_path;
use crate::db::{
    command_views, is_injecting, recent_rows, status_of, unknown_status, Command, Db, DbError,
    DbView,
};
use crate::events::{Event, EventView};
use crate::text;

verus! {

// ---------------------------------------------------------------------------
// Gates
// ---------------------------------------------------------------------------

/// What a request has to get past.
#[derive(Debug, Clone, Copy, PartialEq, Eq, Structural)]
pub enum Gate {
    /// Nothing.
    Open,
    /// The list of tokens of the listener.
    Tokens,
    /// The Access gate of the console.
    Access,
}

/// Which gate stands before a path on the listener that the tunnel fronts.
pub open spec fn public_gate_of(path: Seq<char>) -> Gate {
    if path == "/health"@ {
        Gate::Open
    } else if path == "/hook"@ {
        Gate::Tokens
    } else {
        Gate::Access
    }
}

/// Which gate stands before a path on the listener that the tunnel fronts.
///
/// `/hook` cannot have the Access gate: the ring sends a static header and cannot
/// complete a browser login. Everything else, known or not, has it.
pub fn public_gate(path: &str) -> (r: Gate)
    ensures
        r == public_gate_of(path@),
{
    if is_open_path(path) {
        Gate::Open
    } else if text::same(path, "/hook") {
        Gate::Tokens
    } else {
        Gate::Access
    }
}

/// Which gate stands before a path on the callback listener: the token list, but
/// for the health check.
pub fn callback_gate(path: &str) -> (r: Gate)
    ensures
        r == if path@ == "/health"@ {
            Gate::Open
        } else {
            Gate::Tokens
        },
{
    if is_open_path(path) {
        Gate::Open
    } else {
        Gate::Tokens
    }
}

/// One path is open, one takes a token, and every other path of the public
/// listener, that of the callback included, is behind the Access gate.
pub proof fn law_only_health_is_open(path: Seq<char>)
    ensures
        (public_gate_of(path) == Gate::Open) == (path == "/health"@),
        (public_gate_of(path) == Gate::Tokens) == (path == "/hook"@),
        public_gate_of("/internal/turn-done"@) == Gate::Access,
{
    reveal_strlit("/health");
    reveal_strlit("/hook");
    reveal_strlit("/internal/turn-done");
    assert("/health"@.len() == 7 && "/hook"@.len() == 5 && "/internal/turn-done"@.len() == 19);
}

// ---------------------------------------------------------------------------
// The console
// ---------------------------------------------------------------------------

/// Liveness only. It is the one route reachable without authentication, so it
/// says nothing about state.
pub fn health() -> (r: &'static str)
    ensures
        r@ == "ok"@,
{
    "ok"
}

/// The query of `GET /api/commands`.
#[derive(Debug)]
pub struct RecentQuery {
    pub limit: Option<usize>,
}

/// The body of `POST /api/injection`.
#[derive(Debug)]
pub struct InjectionBody {
    pub enabled: bool,
}

/// How many commands a query is answered with at most.
pub open spec fn limit_of(q: RecentQuery) -> nat {
    match q.limit {
        None => 100,
        Some(n) => if n < 1 {
            1
        } else if n > 1000 {
            1000
        } else {
            n as nat
        },
    }
}

/// The most recent commands, newest first: 100 unless the query says otherwise,
/// and between 1 and 1000 whatever it says.
pub fn commands(db: &Db, q: &RecentQuery) -> (r: Result<Vec<Command>, DbError>)
    ensures
        ({
            let want = recent_rows(db@.rows, limit_of(*q));
            match r {
                Ok(v) => command_views(v@) == want,
                Err(e) => exists|k: int|
                    #![trigger want[k]]
                    0 <= k < want.len() && status_of(want[k].status) is None && (forall|j: int|
                        0 <= j < k ==> status_of((#[trigger] want[j]).status) is Some)
                        && unknown_status(e, "reading recent commands"@, want[k].status),
            }
        }),
        r is Ok == (forall|k: int|
            0 <= k < recent_rows(db@.rows, limit_of(*q)).len() ==> status_of(
                (#[trigger] recent_rows(db@.rows, limit_of(*q))[k]).status,
            ) is Some),
{
    let limit: usize = match q.limit {
        None => 100,
        Some(n) => if n < 1 {
            1
        } else if n > 1000 {
            1000
        } else {
            n
        },
    };
    db.recent(limit)
}

/// What the console's masthead shows: what this daemon is wired to, and whether the
/// kill switch lets commands through.
#[derive(Debug)]
pub struct Info {
    pub intern_url: String,
    pub window: String,
    pub cwd: String,
    pub injecting: bool,
}

/// What the console's masthead shows.
pub fn info(db: &Db, intern_url: &str, window: &str, cwd: &str) -> (r: Info)
    ensures
        r.intern_url@ == intern_url@,
        r.window@ == window@,
        r.cwd@ == cwd@,
        r.injecting == is_injecting(db@.injecting),
{
    Info {
        intern_url: intern_url.to_owned(),
        window: window.to_owned(),
        cwd: cwd.to_owned(),
        injecting: db.injecting(),
    }
}

/// The kill switch, once it was flipped.
#[derive(Debug)]
pub struct Flipped {
    /// What is answered: whether it lets commands through.
    pub injecting: bool,
    /// What to tell every open console.
    pub event: Event,
}

/// Flip the kill switch.
pub fn set_injection(db: &mut Db, body: &InjectionBody) -> (r: Flipped)
    ensures
        is_injecting(final(db)@.injecting) == body.enabled,
        final(db)@ == (DbView {
            injecting: Some(
                if body.enabled {
                    "1"@
                } else {
                    "0"@
                },
            ),
            ..old(db)@
        }),
        r.injecting == body.enabled,
        r.event@ == EventView::Injection(body.enabled),
{
    db.set_injecting(body.enabled);
    Flipped { injecting: body.enabled, event: Event::Injection { enabled: body.enabled } }
}

/// A list without a limit has a hundred commands at most, and a limit counts as it is
/// written, from one up to a thousand.
pub proof fn law_limits(n: usize)
    ensures
        limit_of(RecentQuery { limit: None }) == 100,
        1 <= n <= 1000 ==> limit_of(RecentQuery { limit: Some(n) }) == n,
        n == 0 ==> limit_of(RecentQuery { limit: Some(n) }) == 1,
        n > 1000 ==> limit_of(RecentQuery { limit: Some(n) }) == 1000,
{
}

/// The console's list has as many commands as it was asked for, at most, and the newest
/// of them first.
pub proof fn law_the_list_is_as_long_as_asked(db: &Db, n: usize, v: Vec<Command>)
    requires
        call_ensures(commands, (db, &RecentQuery { limit: Some(n) }), Ok(v)),
        1 <= n <= 1000,
    ensures
        v@.len() == (if n < db@.rows.len() {
            n as nat
        } else {
            db@.rows.len()
        }),
        forall|a: int, b: int|
            0 <= a < b < v@.len() ==> (#[trigger] v@[a]).created_at >= (
            #[trigger] v@[b]).created_at,
        v@.len() > 0 ==> forall|i: int|
            0 <= i < db@.rows.len() ==> (#[trigger] db@.rows[i]).created_at <= v@[0].created_at,
{
    let rows = db@.rows;
    crate::db::law_recent_lists_the_newest(rows, n as nat);
    let all = recent_rows(rows, rows.len());
    let want = recent_rows(rows, n as nat);
    let shown = command_views(v@);
    assert(shown == want);
    assert forall|a: int, b: int| 0 <= a < b < v@.len() implies (#[trigger] v@[a]).created_at >= (
    #[trigger] v@[b]).created_at by {
        assert(shown[a] == v@[a]@ && shown[b] == v@[b]@);
        assert(want[a] == all[a] && want[b] == all[b]);
    }
    if v@.len() > 0 {
        assert(shown[0] == v@[0]@);
        assert(want[0] == all[0]);
        assert forall|i: int| 0 <= i < rows.len() implies (#[trigger] rows[i]).created_at
            <= v@[0].created_at by {
            assert(all.contains(rows[i]));
            let k = choose|k: int| 0 <= k < all.len() && all[k] == rows[i];
            if k > 0 {
                assert(all[0].created_at >= all[k].created_at);
            }
        }
    }
}

/// A switch that was moved is shown as it was moved, in the answer, in what the console
/// hears and in what it asks for next; and no command changes.
pub proof fn law_a_moved_switch_shows(body: &InjectionBody, r: Flipped)
    ensures
        forall|p: &mut Db|
            #![trigger call_ensures(set_injection, (p, body), r)]
            call_ensures(set_injection, (p, body), r) ==> {
                &&& r.injecting == body.enabled
                &&& r.event@ == EventView::Injection(body.enabled)
                &&& final(p)@.rows == p@.rows
                &&& forall|q: &Db, url: &str, window: &str, cwd: &str, i: Info|
                    q@ == final(p)@ && #[trigger] call_ensures(info, (q, url, window, cwd), i)
                        ==> i.injecting == body.enabled && i.intern_url@ == url@ && i.window@
                        == window@ && i.cwd@ == cwd@
            },
{
}

/// On the callback listener everything but the health check asks for a token.
pub proof fn law_callbacks_ask_for_a_token(path: &str, gate: Gate, alive: &'static str)
    ensures
        call_ensures(callback_gate, (path,), gate) ==> gate == (if path@ == "/health"@ {
            Gate::Open
        } else {
            Gate::Tokens
        }),
        call_ensures(health, (), alive) ==> alive@ == "ok"@,
{
}

} // verus!
