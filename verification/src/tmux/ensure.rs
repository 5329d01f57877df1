//! Auto-create the `index MASTER` window, only when it is absent.
//!
//! An existing window is never touched, killed or recreated: it is a live agent
//! session with context that a human and other daemons may depend on.

use vstd::prelude::*;
use vstd::string::*;

use crate::text;
use crate::tmux::extract::{strip_ansi, stripped};
use crate::tmux::pane::{find_line, window_line};
use crate::tmux::{default_cwd, home_cwd, DEFAULT_WINDOW};

verus! {

/// How long to wait for a freshly created window to have a usable agent in it.
pub const READY_TIMEOUT_MS: u64 = 20000;

/// How long to wait between two looks at a freshly created window.
pub const READY_POLL_MS: u64 = 250;

/// Which window is wanted, and how to create it.
#[derive(Debug, Clone)]
pub struct EnsureConfig {
    pub window: String,
    pub cwd: String,
    /// What to launch in a window this daemon creates. Empty means "never
    /// create a window": guessing at someone's agent and launching the wrong
    /// process in a terminal is worse than refusing and saying why.
    pub agent_command: Vec<String>,
}

impl EnsureConfig {
    /// The defaults for a home directory, or for none.
    pub fn for_home(home: Option<&str>) -> (r: EnsureConfig)
        ensures
            r.window@ == DEFAULT_WINDOW@,
            r.cwd@ == home_cwd(text::opt_str(home)),
            r.agent_command@.len() == 0,
    {
        EnsureConfig {
            window: DEFAULT_WINDOW.to_owned(),
            cwd: default_cwd(home),
            agent_command: Vec::new(),
        }
    }
}

/// The session in which a listing has the window.
pub open spec fn session_in(listing: Seq<char>, want: Seq<char>) -> Option<Seq<char>> {
    let lines = text::lines_of(listing);
    match window_line(lines, want, 0) {
        Some(i) => match text::split_at_first(lines[i], ':') {
            Some((session, window)) => Some(session),
            None => None,
        },
        None => None,
    }
}

/// The session a window lives in, or `None` if no session has it.
///
/// The window name is everything after the first colon, compared exactly: a
/// window literally named `index` must never satisfy a search for
/// `index MASTER`.
pub fn session_of(listing: &str, want: &str) -> (r: Option<String>)
    ensures
        text::opt_view(r) == session_in(listing@, want@),
{
    match find_line(listing, want) {
        Some((session, _)) => Some(session),
        None => None,
    }
}

/// The session a window lives in, given what `list-windows` answered.
pub fn window_exists(windows: Result<String, String>, window: &str) -> (r: Result<
    Option<String>,
    String,
>)
    ensures
        match windows {
            Ok(listing) => r is Ok && text::opt_view(r->Ok_0) == session_in(listing@, window@),
            Err(e) => r == Err::<Option<String>, String>(e),
        },
{
    match windows {
        Ok(listing) => Ok(session_of(listing.as_str(), window)),
        Err(e) => Err(e),
    }
}

/// The first line from `i` on that is not blank, trimmed.
pub open spec fn first_named(lines: Seq<Seq<char>>, i: int) -> Option<Seq<char>>
    decreases lines.len() - i,
{
    if i < 0 || i >= lines.len() {
        None
    } else if text::trimmed(lines[i]).len() > 0 {
        Some(text::trimmed(lines[i]))
    } else {
        first_named(lines, i + 1)
    }
}

/// Whether a line names the session `main`.
pub open spec fn lists_main(lines: Seq<Seq<char>>) -> bool {
    exists|i: int| 0 <= i < lines.len() && text::trimmed(#[trigger] lines[i]) == "main"@
}

/// The session to create a window in.
pub open spec fn session_for(listing: Seq<char>) -> Option<Seq<char>> {
    let lines = text::lines_of(listing);
    if lists_main(lines) {
        Some("main"@)
    } else {
        first_named(lines, 0)
    }
}

/// Which session to create the window in: prefer `main`, else the first listed.
pub fn pick_session(listing: &str) -> (r: Option<String>)
    ensures
        text::opt_view(r) == session_for(listing@),
{
    let lines = text::lines(listing);
    let ghost all = text::lines_of(listing@);
    let mut first: Option<String> = None;
    let mut i: usize = 0;
    proof {
        reveal_strlit("main");
    }
    while i < lines.len()
        invariant
            i <= lines@.len(),
            "main"@.len() > 0,
            all == text::lines_of(listing@),
            text::views(lines@) == all,
            forall|j: int| 0 <= j < i ==> text::trimmed(#[trigger] all[j]) != "main"@,
            first_named(all, 0) == match first {
                Some(f) => Some(f@),
                None => first_named(all, i as int),
            },
        decreases lines@.len() - i,
    {
        assert(all[i as int] == lines@[i as int]@);
        let name = text::trim(lines[i].as_str());
        if !name.as_str().is_empty() {
            if text::same(name.as_str(), "main") {
                return Some(name);
            }
            if first.is_none() {
                first = Some(name);
            }
        }
        i = i + 1;
    }
    first
}

/// The argument vector that lists the sessions.
pub fn list_sessions_args() -> (r: Vec<String>)
    ensures
        text::views(r@) == seq!["list-sessions"@, "-F"@, "#{session_name}"@],
{
    let r = vec!["list-sessions".to_owned(), "-F".to_owned(), "#{session_name}".to_owned()];
    assert(text::views(r@) =~= seq!["list-sessions"@, "-F"@, "#{session_name}"@]);
    r
}

/// The `new-window` argument vector for a session.
pub open spec fn new_window(session: Seq<char>, cfg: EnsureConfig) -> Seq<Seq<char>> {
    seq![
        "new-window"@,
        "-d"@,
        "-t"@,
        session + ":"@,
        "-n"@,
        cfg.window@,
        "-c"@,
        cfg.cwd@,
    ] + text::views(cfg.agent_command@)
}

/// The `new-window` argument vector.
///
/// The trailing colon on `-t` names the session and lets tmux pick the next free
/// index: for a session literally named `0`, `-t 0` would be read as the window
/// index 0. The agent command is launched unattended, so it must not stall on a
/// prompt that nothing answers.
pub fn new_window_args(session: &str, cfg: &EnsureConfig) -> (r: Vec<String>)
    ensures
        text::views(r@) == new_window(session@, *cfg),
{
    let mut r = vec![
        "new-window".to_owned(),
        "-d".to_owned(),
        "-t".to_owned(),
        text::cat(session, ":"),
        "-n".to_owned(),
        cfg.window.clone(),
        "-c".to_owned(),
        cfg.cwd.clone(),
    ];
    let ghost head = r@;
    let mut i: usize = 0;
    assert(text::views(cfg.agent_command@).take(0) =~= Seq::<Seq<char>>::empty());
    while i < cfg.agent_command.len()
        invariant
            i <= cfg.agent_command@.len(),
            text::views(r@) == text::views(head) + text::views(cfg.agent_command@).take(i as int),
        decreases cfg.agent_command@.len() - i,
    {
        let ghost before = r@;
        r.push(cfg.agent_command[i].clone());
        assert(text::views(r@) =~= text::views(before).push(cfg.agent_command@[i as int]@));
        assert(text::views(cfg.agent_command@).take(i + 1) =~= text::views(cfg.agent_command@).take(
            i as int,
        ).push(cfg.agent_command@[i as int]@));
        i = i + 1;
    }
    assert(text::views(r@) =~= new_window(session@, *cfg));
    r
}

/// What to do next about the window.
pub enum EnsureStep {
    /// The window exists, in this session: leave it completely alone.
    LeaveAlone(String),
    /// Ask for the sessions, and decide again with the answer.
    ListSessions,
    /// Run tmux with these arguments, then wait until the window is ready.
    Create(Vec<String>),
    /// Give up, and say why.
    Fail(String),
}

/// The step, over the views of its contents.
pub enum EnsureStepView {
    LeaveAlone(Seq<char>),
    ListSessions,
    Create(Seq<Seq<char>>),
    Fail(Seq<char>),
}

impl View for EnsureStep {
    type V = EnsureStepView;

    open spec fn view(&self) -> EnsureStepView {
        match self {
            EnsureStep::LeaveAlone(s) => EnsureStepView::LeaveAlone(s@),
            EnsureStep::ListSessions => EnsureStepView::ListSessions,
            EnsureStep::Create(args) => EnsureStepView::Create(text::views(args@)),
            EnsureStep::Fail(e) => EnsureStepView::Fail(e@),
        }
    }
}

/// What is reported when the window is missing and nothing can be launched.
pub open spec fn nothing_to_launch(window: Seq<char>) -> Seq<char> {
    "no window named "@ + text::quoted(window)
        + " exists and no agent_command is configured, so there is nothing to launch in a new one. Either create the window yourself (tools/ensure-window.sh) or set agent_command / INDEXD_AGENT_COMMAND."@
}

/// The step that the answers of tmux so far lead to.
pub open spec fn ensure_step(
    cfg: EnsureConfig,
    windows: Result<String, String>,
    sessions: Option<Result<String, String>>,
) -> EnsureStepView {
    match windows {
        Err(e) => EnsureStepView::Fail(e@),
        Ok(listing) => match session_in(listing@, cfg.window@) {
            Some(session) => EnsureStepView::LeaveAlone(session),
            None => match sessions {
                None => EnsureStepView::ListSessions,
                Some(Err(e)) => EnsureStepView::Fail(e@),
                Some(Ok(names)) => match session_for(names@) {
                    None => EnsureStepView::Fail(
                        "no tmux sessions exist — start one first (tmux new -d -s main)"@,
                    ),
                    Some(session) => if cfg.agent_command@.len() == 0 {
                        EnsureStepView::Fail(nothing_to_launch(cfg.window@))
                    } else {
                        EnsureStepView::Create(new_window(session, cfg))
                    },
                },
            },
        },
    }
}

/// Make sure the window exists, creating it only if it is absent: the next step,
/// given what `list-windows` answered and, once it was asked, `list-sessions`.
pub fn ensure_window(
    cfg: &EnsureConfig,
    windows: Result<String, String>,
    sessions: Option<Result<String, String>>,
) -> (r: EnsureStep)
    ensures
        r@ == ensure_step(*cfg, windows, sessions),
{
    match window_exists(windows, cfg.window.as_str()) {
        Err(e) => return EnsureStep::Fail(e),
        Ok(Some(session)) => return EnsureStep::LeaveAlone(session),
        Ok(None) => {},
    }
    let names = match sessions {
        None => return EnsureStep::ListSessions,
        Some(Err(e)) => return EnsureStep::Fail(e),
        Some(Ok(names)) => names,
    };
    let session = match pick_session(names.as_str()) {
        Some(session) => session,
        None => return EnsureStep::Fail(
            "no tmux sessions exist — start one first (tmux new -d -s main)".to_owned(),
        ),
    };
    if cfg.agent_command.len() == 0 {
        return EnsureStep::Fail(
            text::cat3(
                "no window named ",
                text::quote(cfg.window.as_str()).as_str(),
                " exists and no agent_command is configured, so there is nothing to launch in a new one. Either create the window yourself (tools/ensure-window.sh) or set agent_command / INDEXD_AGENT_COMMAND.",
            ),
        );
    }
    EnsureStep::Create(new_window_args(session.as_str(), cfg))
}

/// Whether a clean screen shows that the agent has painted its UI and is reading
/// keys.
pub open spec fn ready_screen(clean: Seq<char>) -> bool {
    ||| text::has(clean, "bypass permissions"@)
    ||| text::has(clean, "esc to interrupt"@)
    ||| text::has(clean, "❯"@)
    ||| text::has(clean, "Welcome to the agent"@)
}

/// Whether a captured screen shows that the agent is ready.
pub fn shows_ready(content: &str) -> (r: bool)
    ensures
        r == ready_screen(stripped(content@)),
{
    let clean = strip_ansi(content);
    let c = clean.as_str();
    text::contains(c, "bypass permissions") || text::contains(c, "esc to interrupt")
        || text::contains(c, "❯") || text::contains(c, "Welcome to the agent")
}

/// What to do next about a freshly created window.
#[derive(Debug, Clone, Copy, PartialEq, Eq, Structural)]
pub enum ReadyStep {
    /// Look at the window.
    Look,
    /// The agent is ready.
    Ready,
    /// Wait that many milliseconds, then go on.
    Sleep(u64),
    /// The window showed no readiness marker in time: go on anyway.
    GiveUp,
}

/// Give the freshly launched agent time to paint before anything is injected.
///
/// `looked` is `None` before a look at the window, and afterwards the screen that
/// it showed, if it showed one. Best effort: a slow start is no failure.
pub fn wait_ready(elapsed_ms: u64, looked: Option<Option<String>>) -> (r: ReadyStep)
    ensures
        r == match looked {
            None => if elapsed_ms < READY_TIMEOUT_MS {
                ReadyStep::Look
            } else {
                ReadyStep::GiveUp
            },
            Some(Some(content)) => if ready_screen(stripped(content@)) {
                ReadyStep::Ready
            } else {
                ReadyStep::Sleep(READY_POLL_MS)
            },
            Some(None) => ReadyStep::Sleep(READY_POLL_MS),
        },
{
    match looked {
        None => if elapsed_ms < READY_TIMEOUT_MS {
            ReadyStep::Look
        } else {
            ReadyStep::GiveUp
        },
        Some(Some(content)) => if shows_ready(content.as_str()) {
            ReadyStep::Ready
        } else {
            ReadyStep::Sleep(READY_POLL_MS)
        },
        Some(None) => ReadyStep::Sleep(READY_POLL_MS),
    }
}

/// A window that exists is left alone, whatever else tmux answers; a window is
/// created only if it is absent and there is something to launch in it.
pub proof fn law_existing_window_is_never_touched(
    cfg: EnsureConfig,
    windows: Result<String, String>,
    sessions: Option<Result<String, String>>,
)
    ensures
        (windows matches Ok(listing) && session_in(listing@, cfg.window@) is Some) ==> ensure_step(
            cfg,
            windows,
            sessions,
        ) is LeaveAlone,
        ensure_step(cfg, windows, sessions) is Create ==> {
            &&& windows matches Ok(listing)
            &&& session_in(listing@, cfg.window@) is None
            &&& cfg.agent_command@.len() > 0
        },
{
}

/// The session that holds a window is the one that the first line with its name gives.
pub proof fn law_the_session_of_a_window(
    listing: Seq<char>,
    session: Seq<char>,
    want: Seq<char>,
    i: int,
)
    requires
        0 <= i < text::lines_of(listing).len(),
        !session.contains(':'),
        text::lines_of(listing)[i] == session + seq![':'] + want,
        forall|j: int, s: Seq<char>|
            0 <= j < i && !s.contains(':') ==> #[trigger] text::lines_of(listing)[j] != #[trigger] (s
                + seq![':'] + want),
    ensures
        session_in(listing, want) == Some(session),
{
    crate::tmux::pane::law_the_first_window_of_the_name_is_the_target(listing, session, want, i);
    text::law_pieces(session, ':', want);
}

/// A window that no line names is in no session.
pub proof fn law_no_session_of_a_window_that_is_not_there(listing: Seq<char>, want: Seq<char>)
    requires
        forall|j: int, s: Seq<char>|
            0 <= j < text::lines_of(listing).len() && !s.contains(':')
                ==> #[trigger] text::lines_of(listing)[j] != #[trigger] (s + seq![':'] + want),
    ensures
        session_in(listing, want) is None,
        crate::tmux::pane::target_in(listing, want) is None,
{
    let lines = text::lines_of(listing);
    crate::tmux::pane::law_window_names_match_exactly(listing, want);
    assert forall|i: int| 0 <= i < lines.len() implies !crate::tmux::pane::names_window(
        #[trigger] lines[i],
        want,
    ) by {
        crate::tmux::pane::law_a_line_names_its_window(lines[i], want);
    }
}

proof fn lemma_first_named_is(lines: Seq<Seq<char>>, from: int, i: int)
    requires
        0 <= from <= i < lines.len(),
        text::trimmed(lines[i]).len() > 0,
        forall|j: int| from <= j < i ==> text::trimmed(#[trigger] lines[j]).len() == 0,
    ensures
        first_named(lines, from) == Some(text::trimmed(lines[i])),
    decreases i - from,
{
    if from < i {
        assert(text::trimmed(lines[from]).len() == 0);
        lemma_first_named_is(lines, from + 1, i);
    }
}

proof fn lemma_none_named(lines: Seq<Seq<char>>, from: int)
    requires
        0 <= from <= lines.len(),
        forall|j: int| from <= j < lines.len() ==> text::trimmed(#[trigger] lines[j]).len() == 0,
    ensures
        first_named(lines, from) is None,
    decreases lines.len() - from,
{
    if from < lines.len() {
        assert(text::trimmed(lines[from]).len() == 0);
        lemma_none_named(lines, from + 1);
    }
}

/// A new window goes to the session called main, at whatever place it is listed, or else
/// to the first that is listed; blank lines are none, and without a session there is
/// none.
pub proof fn law_main_is_preferred(listing: Seq<char>, i: int)
    ensures
        ({
            let lines = text::lines_of(listing);
            &&& 0 <= i < lines.len() && text::trimmed(lines[i]) == "main"@ ==> session_for(listing)
                == Some("main"@)
            &&& 0 <= i < lines.len() && text::trimmed(lines[i]).len() > 0 && (forall|j: int|
                0 <= j < i ==> text::trimmed(#[trigger] lines[j]).len() == 0) && (forall|j: int|
                0 <= j < lines.len() ==> text::trimmed(#[trigger] lines[j]) != "main"@)
                ==> session_for(listing) == Some(text::trimmed(lines[i]))
            &&& (forall|j: int|
                0 <= j < lines.len() ==> text::trimmed(#[trigger] lines[j]).len() == 0)
                ==> session_for(listing) is None
        }),
{
    reveal_strlit("main");
    let lines = text::lines_of(listing);
    if 0 <= i < lines.len() && text::trimmed(lines[i]).len() > 0 && (forall|j: int|
        0 <= j < i ==> text::trimmed(#[trigger] lines[j]).len() == 0) {
        lemma_first_named_is(lines, 0, i);
    }
    if forall|j: int| 0 <= j < lines.len() ==> text::trimmed(#[trigger] lines[j]).len() == 0 {
        lemma_none_named(lines, 0);
    }
}

/// How a window is made: detached, in that session, under the name and in the directory
/// that are set, running the agent's command word by word.
pub proof fn law_a_new_window(session: Seq<char>, cfg: EnsureConfig, k: int)
    requires
        0 <= k < cfg.agent_command@.len(),
    ensures
        new_window(session, cfg).len() == 8 + cfg.agent_command@.len(),
        new_window(session, cfg).take(8) == seq![
            "new-window"@,
            "-d"@,
            "-t"@,
            session + ":"@,
            "-n"@,
            cfg.window@,
            "-c"@,
            cfg.cwd@,
        ],
        new_window(session, cfg)[8 + k] == cfg.agent_command@[k]@,
{
    assert(new_window(session, cfg).take(8) =~= seq![
        "new-window"@,
        "-d"@,
        "-t"@,
        session + ":"@,
        "-n"@,
        cfg.window@,
        "-c"@,
        cfg.cwd@,
    ]);
}

/// Step by step: a window that is listed is left alone, under its session; otherwise the
/// sessions are listed, and a window is made in the one that [`session_for`] picks, unless
/// there is no command to run in it; what cannot be listed is reported as it came.
pub proof fn law_a_window_is_made_only_where_it_is_missing(
    cfg: EnsureConfig,
    windows: String,
    names: String,
    error: String,
    sessions: Option<Result<String, String>>,
)
    ensures
        ensure_step(cfg, Err(error), sessions) == EnsureStepView::Fail(error@),
        session_in(windows@, cfg.window@) matches Some(session) ==> ensure_step(
            cfg,
            Ok(windows),
            sessions,
        ) == EnsureStepView::LeaveAlone(session),
        session_in(windows@, cfg.window@) is None ==> {
            &&& ensure_step(cfg, Ok(windows), None) is ListSessions
            &&& ensure_step(cfg, Ok(windows), Some(Err(error))) == EnsureStepView::Fail(error@)
            &&& session_for(names@) is None ==> ensure_step(cfg, Ok(windows), Some(Ok(names)))
                == EnsureStepView::Fail(
                "no tmux sessions exist — start one first (tmux new -d -s main)"@,
            )
            &&& session_for(names@) is Some && cfg.agent_command@.len() == 0 ==> ensure_step(
                cfg,
                Ok(windows),
                Some(Ok(names)),
            ) is Fail
            &&& cfg.agent_command@.len() > 0 ==> (session_for(names@) matches Some(session)
                ==> ensure_step(cfg, Ok(windows), Some(Ok(names))) == EnsureStepView::Create(
                new_window(session, cfg),
            ))
        },
{
}

/// A screen is ready where it shows one of four things, and is looked at every quarter
/// of a second for twenty seconds.
pub proof fn law_a_ready_screen(clean: Seq<char>)
    ensures
        ready_screen(clean) == ({
            ||| exists|a: Seq<char>, b: Seq<char>|
                clean == #[trigger] (a + "bypass permissions"@ + b)
            ||| exists|a: Seq<char>, b: Seq<char>| clean == #[trigger] (a + "esc to interrupt"@ + b)
            ||| exists|a: Seq<char>, b: Seq<char>| clean == #[trigger] (a + "❯"@ + b)
            ||| exists|a: Seq<char>, b: Seq<char>|
                clean == #[trigger] (a + "Welcome to the agent"@ + b)
        }),
        READY_TIMEOUT_MS == 20_000,
        READY_POLL_MS == 250,
{
    text::law_has(clean, "bypass permissions"@);
    text::law_has(clean, "esc to interrupt"@);
    text::law_has(clean, "❯"@);
    text::law_has(clean, "Welcome to the agent"@);
}

/// A new window is waited for: looked at for twenty seconds, every quarter of one, and
/// ready as soon as its screen, without escape sequences, shows that it is.
pub proof fn law_a_new_window_is_waited_for(
    elapsed_ms: u64,
    content: String,
    r: ReadyStep,
    args: Vec<String>,
)
    ensures
        call_ensures(wait_ready, (elapsed_ms, None), r) ==> r == (if elapsed_ms < 20_000 {
            ReadyStep::Look
        } else {
            ReadyStep::GiveUp
        }),
        call_ensures(wait_ready, (elapsed_ms, Some(None)), r) ==> r == ReadyStep::Sleep(250),
        call_ensures(wait_ready, (elapsed_ms, Some(Some(content))), r) ==> r == (if ready_screen(
            stripped(content@),
        ) {
            ReadyStep::Ready
        } else {
            ReadyStep::Sleep(250)
        }),
        call_ensures(list_sessions_args, (), args) ==> text::views(args@) == seq![
            "list-sessions"@,
            "-F"@,
            "#{session_name}"@,
        ],
{
}

/// A window that the listing names, at whatever place, is left alone under its session.
pub proof fn law_a_listed_window_is_left_alone(
    cfg: EnsureConfig,
    windows: String,
    sessions: Option<Result<String, String>>,
    r: EnsureStep,
    session: Seq<char>,
    i: int,
)
    requires
        call_ensures(ensure_window, (&cfg, Ok(windows), sessions), r),
        0 <= i < text::lines_of(windows@).len(),
        !session.contains(':'),
        text::lines_of(windows@)[i] == session + seq![':'] + cfg.window@,
        forall|j: int, s: Seq<char>|
            0 <= j < i && !s.contains(':') ==> #[trigger] text::lines_of(windows@)[j]
                != #[trigger] (s + seq![':'] + cfg.window@),
    ensures
        r matches EnsureStep::LeaveAlone(found) && found@ == session,
{
    law_the_session_of_a_window(windows@, session, cfg.window@, i);
}

/// The window's defaults: its name, a directory below the home directory, and nothing to
/// launch.
pub proof fn law_window_defaults(home: &str, c: EnsureConfig)
    requires
        call_ensures(EnsureConfig::for_home, (Some(home),), c),
        home@.len() > 0 && home@.last() != '/',
    ensures
        c.window@ == "index MASTER"@,
        c.cwd@ == home@ + "/"@ + "m"@,
        c.agent_command@.len() == 0,
{
    reveal_strlit("m");
    crate::paths::law_below(home@, "m"@);
}

} // verus!
