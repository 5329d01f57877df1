//! The tmux engine: inject a turn into `index MASTER`, poll the pane, decide
//! when the turn is over.
//!
//! A turn is a state machine. [`Turn::action`] says what to do next, the caller
//! does it on the pane or waits, and [`Turn::advance`] takes what came back. The
//! worker is the sole owner of the pane and runs one turn after the other, so
//! two presses of the ring can never interleave keystrokes.

pub mod ensure;
pub mod extract;
pub mod pane;

use vstd::prelude::*;
use vstd::string::*;

use crate::ids;
use crate::paths;
use crate::text;
use crate::tmux::extract::{
    extract_reply, pane_is_idle, scope_after_cmd, strip_ansi, wrap_command,
    DEFAULT_DISMISS_MARKER, STREAMING_MARKER,
};
use crate::tmux::pane::Pane;

verus! {

/// The window the ring talks to.
pub const DEFAULT_WINDOW: &'static str = "index MASTER";

/// Consecutive idle polls required before accepting a reply whose opener is
/// present but whose closer the agent dropped. One idle frame can simply be a
/// spinner frame that has not repainted yet; three in a row cannot.
pub const IDLE_CONFIRM_POLLS: u32 = 3;

/// Gap between the priming and between the submitting Enters.
pub const KEY_GAP_MS: u64 = 100;

/// Settle time after dismissing the permission menu with Tab.
pub const MENU_SETTLE_MS: u64 = 200;

/// The working directory below a home directory.
pub open spec fn home_cwd(home: Option<Seq<char>>) -> Seq<char> {
    match home {
        Some(h) => paths::below(h, "m"@),
        None => "m"@,
    }
}

/// The default working directory for a home directory.
pub fn default_cwd(home: Option<&str>) -> (r: String)
    ensures
        r@ == home_cwd(text::opt_str(home)),
{
    match home {
        Some(h) => paths::join(h, "m"),
        None => "m".to_owned(),
    }
}

/// How to drive a window, and for how long to wait for its answers.
#[derive(Debug, Clone)]
pub struct EngineConfig {
    pub window: String,
    pub cwd: String,
    /// The first wait. Crossing it is noted, not fatal.
    pub primary_timeout_ms: u64,
    /// The hard deadline, measured from the moment the turn was submitted.
    /// Crossing it yields [`TurnOutcome::TimedOut`].
    pub extended_timeout_ms: u64,
    pub poll_interval_ms: u64,
    /// Launched when the target window is missing. Empty = never create one.
    pub agent_command: Vec<String>,
    /// What the agent's TUI shows while a turn is in flight. Absence of this
    /// string is how a turn is judged finished, so it must be something the
    /// agent prints for the whole turn and never afterwards.
    pub streaming_marker: String,
    /// A first-run confirmation this daemon should dismiss with Tab. Empty
    /// disables it.
    pub dismiss_marker: String,
}

/// Whether a configuration holds the defaults for a home directory.
pub open spec fn default_engine(c: EngineConfig, home: Option<Seq<char>>) -> bool {
    &&& c.window@ == DEFAULT_WINDOW@
    &&& c.cwd@ == home_cwd(home)
    &&& c.primary_timeout_ms == 90000
    &&& c.extended_timeout_ms == 600000
    &&& c.poll_interval_ms == 200
    &&& c.agent_command@.len() == 0
    &&& c.streaming_marker@ == STREAMING_MARKER@
    &&& c.dismiss_marker@ == DEFAULT_DISMISS_MARKER@
}

impl EngineConfig {
    /// The defaults for a home directory, or for none.
    pub fn for_home(home: Option<&str>) -> (r: EngineConfig)
        ensures
            default_engine(r, text::opt_str(home)),
    {
        EngineConfig {
            window: DEFAULT_WINDOW.to_owned(),
            cwd: default_cwd(home),
            primary_timeout_ms: 90000,
            extended_timeout_ms: 600000,
            poll_interval_ms: 200,
            agent_command: Vec::new(),
            streaming_marker: STREAMING_MARKER.to_owned(),
            dismiss_marker: DEFAULT_DISMISS_MARKER.to_owned(),
        }
    }
}

/// How a turn ended. `Done` is the same outcome whether or not the closing tag
/// was present: from the console's point of view the answer arrived.
#[derive(Debug, Clone, PartialEq, Eq)]
pub enum TurnOutcome {
    Done(String),
    TimedOut,
    Failed(String),
}

/// The outcome, over the view of its text.
pub enum OutcomeView {
    Done(Seq<char>),
    TimedOut,
    Failed(Seq<char>),
}

impl View for TurnOutcome {
    type V = OutcomeView;

    open spec fn view(&self) -> OutcomeView {
        match self {
            TurnOutcome::Done(s) => OutcomeView::Done(s@),
            TurnOutcome::TimedOut => OutcomeView::TimedOut,
            TurnOutcome::Failed(e) => OutcomeView::Failed(e@),
        }
    }
}

/// A copy of an outcome.
fn copy_outcome(o: &TurnOutcome) -> (r: TurnOutcome)
    ensures
        r@ == o@,
{
    match o {
        TurnOutcome::Done(s) => TurnOutcome::Done(s.clone()),
        TurnOutcome::TimedOut => TurnOutcome::TimedOut,
        TurnOutcome::Failed(e) => TurnOutcome::Failed(e.clone()),
    }
}

/// A 4-char correlation id, unique per turn.
pub fn new_id() -> (r: String)
    ensures
        ids::is_id(r@),
{
    ids::new_id()
}

// ---------------------------------------------------------------------------
// The turn
// ---------------------------------------------------------------------------

/// Where a turn stands.
#[derive(Debug, Clone, Copy, PartialEq, Eq, Structural)]
pub enum Stage {
    /// Ask whether the pane is in a tmux mode, which would swallow every key.
    AskMode,
    /// Cancel that mode.
    LeaveMode,
    /// Prime the prompt: an Enter, and the gap after it, counted from 0.
    Prime(u8),
    PrimeGap(u8),
    /// Look whether a first-run confirmation is up.
    CheckMenu,
    /// Dismiss it with Tab, and let the screen settle.
    DismissMenu,
    MenuSettle,
    /// Type the wrapped command, literally.
    Inject,
    /// Submit it: an Enter, and the gap after it, counted from 0.
    Submit(u8),
    SubmitGap(u8),
    /// Wait, then look for the reply.
    PollGap,
    Poll,
    /// The turn has its outcome.
    Over,
}

/// What to do next.
pub enum TurnAction {
    /// Call `Pane::pane_in_mode`, and answer with [`TurnEvent::Mode`].
    AskMode,
    /// Call `Pane::exit_mode`, and answer with [`TurnEvent::Left`].
    LeaveMode,
    /// Call `Pane::send_key`, and answer with [`TurnEvent::Sent`].
    Key(String),
    /// Call `Pane::send_literal`, and answer with [`TurnEvent::Sent`].
    Literal(String),
    /// Call `Pane::capture`, and answer with [`TurnEvent::Captured`].
    Capture,
    /// Wait that many milliseconds, and answer with [`TurnEvent::Slept`].
    Sleep(u64),
    /// The turn is over.
    Finish(TurnOutcome),
}

/// What came back.
pub enum TurnEvent {
    Mode(Result<bool, String>),
    Left(Result<(), String>),
    Sent(Result<(), String>),
    Captured(Result<String, String>),
    Slept,
}

/// The action, over the views of its texts.
pub enum ActionView {
    AskMode,
    LeaveMode,
    Key(Seq<char>),
    Literal(Seq<char>),
    Capture,
    Sleep(u64),
    Finish(OutcomeView),
}

impl View for TurnAction {
    type V = ActionView;

    open spec fn view(&self) -> ActionView {
        match self {
            TurnAction::AskMode => ActionView::AskMode,
            TurnAction::LeaveMode => ActionView::LeaveMode,
            TurnAction::Key(k) => ActionView::Key(k@),
            TurnAction::Literal(t) => ActionView::Literal(t@),
            TurnAction::Capture => ActionView::Capture,
            TurnAction::Sleep(ms) => ActionView::Sleep(*ms),
            TurnAction::Finish(o) => ActionView::Finish(o@),
        }
    }
}

/// The event, over the views of its texts.
pub enum EventView {
    /// Whether the pane is in a mode, or why that could not be read.
    Mode(Result<bool, Seq<char>>),
    /// Why the pane is still in its mode, if it is.
    Left(Option<Seq<char>>),
    /// Why nothing was sent, if nothing was.
    Sent(Option<Seq<char>>),
    Captured(Result<Seq<char>, Seq<char>>),
    Slept,
}

impl View for TurnEvent {
    type V = EventView;

    open spec fn view(&self) -> EventView {
        match self {
            TurnEvent::Mode(Ok(b)) => EventView::Mode(Ok(*b)),
            TurnEvent::Mode(Err(e)) => EventView::Mode(Err(e@)),
            TurnEvent::Left(Ok(_)) => EventView::Left(None),
            TurnEvent::Left(Err(e)) => EventView::Left(Some(e@)),
            TurnEvent::Sent(Ok(_)) => EventView::Sent(None),
            TurnEvent::Sent(Err(e)) => EventView::Sent(Some(e@)),
            TurnEvent::Captured(c) => EventView::Captured(text::result_view(*c)),
            TurnEvent::Slept => EventView::Slept,
        }
    }
}

/// A turn in progress.
pub struct Turn {
    id: String,
    text: String,
    poll_interval_ms: u64,
    primary_timeout_ms: u64,
    extended_timeout_ms: u64,
    streaming_marker: String,
    dismiss_marker: String,
    stage: Stage,
    started_ms: u64,
    idle_streak: u32,
    crossed_primary: bool,
    outcome: TurnOutcome,
}

/// What a turn holds.
pub struct TurnView {
    pub id: Seq<char>,
    pub text: Seq<char>,
    pub poll_interval_ms: u64,
    pub primary_timeout_ms: u64,
    pub extended_timeout_ms: u64,
    pub streaming_marker: Seq<char>,
    pub dismiss_marker: Seq<char>,
    pub stage: Stage,
    /// When the polling began.
    pub started_ms: u64,
    /// How many polls in a row found the opener on an idle pane.
    pub idle_streak: u32,
    /// Whether a poll came after the first wait.
    pub crossed_primary: bool,
    /// The outcome, once the stage is `Over`.
    pub outcome: OutcomeView,
}

impl View for Turn {
    type V = TurnView;

    closed spec fn view(&self) -> TurnView {
        TurnView {
            id: self.id@,
            text: self.text@,
            poll_interval_ms: self.poll_interval_ms,
            primary_timeout_ms: self.primary_timeout_ms,
            extended_timeout_ms: self.extended_timeout_ms,
            streaming_marker: self.streaming_marker@,
            dismiss_marker: self.dismiss_marker@,
            stage: self.stage,
            started_ms: self.started_ms,
            idle_streak: self.idle_streak,
            crossed_primary: self.crossed_primary,
            outcome: self.outcome@,
        }
    }
}

/// A turn that has not begun.
pub open spec fn fresh(cfg: EngineConfig, id: Seq<char>, text: Seq<char>) -> TurnView {
    TurnView {
        id,
        text,
        poll_interval_ms: cfg.poll_interval_ms,
        primary_timeout_ms: cfg.primary_timeout_ms,
        extended_timeout_ms: cfg.extended_timeout_ms,
        streaming_marker: cfg.streaming_marker@,
        dismiss_marker: cfg.dismiss_marker@,
        stage: Stage::AskMode,
        started_ms: 0,
        idle_streak: 0,
        crossed_primary: false,
        outcome: OutcomeView::TimedOut,
    }
}

/// What a turn wants done next.
pub open spec fn pending(t: TurnView) -> ActionView {
    match t.stage {
        Stage::AskMode => ActionView::AskMode,
        Stage::LeaveMode => ActionView::LeaveMode,
        Stage::Prime(_) => ActionView::Key("Enter"@),
        Stage::PrimeGap(_) => ActionView::Sleep(KEY_GAP_MS),
        Stage::CheckMenu => ActionView::Capture,
        Stage::DismissMenu => ActionView::Key("Tab"@),
        Stage::MenuSettle => ActionView::Sleep(MENU_SETTLE_MS),
        Stage::Inject => ActionView::Literal(extract::wrapped(t.id, t.text)),
        Stage::Submit(_) => ActionView::Key("Enter"@),
        Stage::SubmitGap(_) => ActionView::Sleep(KEY_GAP_MS),
        Stage::PollGap => ActionView::Sleep(t.poll_interval_ms),
        Stage::Poll => ActionView::Capture,
        Stage::Over => ActionView::Finish(t.outcome),
    }
}

/// Whether a clean screen shows no live spinner.
pub open spec fn idle(clean: Seq<char>, marker: Seq<char>) -> bool {
    marker.len() > 0 && !text::has(clean, marker)
}

/// Whether a clean screen shows the opener of the turn's reply.
pub open spec fn shows_open(clean: Seq<char>, id: Seq<char>) -> bool {
    text::has(extract::scoped(clean, id), extract::reply_open(id))
}

/// Whether a clean screen shows both tags of the turn's reply.
pub open spec fn shows_both(clean: Seq<char>, id: Seq<char>) -> bool {
    shows_open(clean, id) && text::has(extract::scoped(clean, id), extract::reply_close(id))
}

/// The streak after one more poll: polls in a row that found the pane idle with the
/// opener on screen. Any other poll ends it.
pub open spec fn next_streak(clean: Seq<char>, id: Seq<char>, marker: Seq<char>, streak: nat) -> nat {
    if shows_open(clean, id) && idle(clean, marker) {
        streak + 1
    } else {
        0
    }
}

/// Whether a poll ends the turn with what is on screen: both tags are there, or
/// the opener is and the pane has been idle for long enough.
pub open spec fn poll_accepts(clean: Seq<char>, id: Seq<char>, marker: Seq<char>, streak: nat) -> bool {
    ||| shows_both(clean, id)
    ||| shows_open(clean, id) && idle(clean, marker) && streak + 1 >= IDLE_CONFIRM_POLLS
}

/// Milliseconds since the polling began.
pub open spec fn elapsed(t: TurnView, now_ms: u64) -> int {
    if now_ms >= t.started_ms {
        now_ms - t.started_ms
    } else {
        0
    }
}

/// The turn, ended.
pub open spec fn ended(t: TurnView, o: OutcomeView) -> TurnView {
    TurnView { stage: Stage::Over, outcome: o, ..t }
}

/// The turn, at another stage.
pub open spec fn at_stage(t: TurnView, stage: Stage) -> TurnView {
    TurnView { stage, ..t }
}

/// The outcome that a capture gives.
pub open spec fn captured_outcome(raw: Seq<char>, id: Seq<char>) -> OutcomeView {
    match extract::reply_in(raw, id) {
        Ok(body) => OutcomeView::Done(body),
        Err(e) => OutcomeView::Failed(e),
    }
}

/// The turn after a poll that captured `raw`.
pub open spec fn polled(t: TurnView, raw: Seq<char>, now_ms: u64) -> TurnView {
    let clean = extract::stripped(raw);
    if poll_accepts(clean, t.id, t.streaming_marker, t.idle_streak as nat) {
        ended(t, captured_outcome(raw, t.id))
    } else {
        let u = TurnView {
            idle_streak: next_streak(
                clean,
                t.id,
                t.streaming_marker,
                t.idle_streak as nat,
            ) as u32,
            crossed_primary: t.crossed_primary || elapsed(t, now_ms) >= t.primary_timeout_ms,
            ..t
        };
        if elapsed(t, now_ms) >= t.extended_timeout_ms {
            ended(u, OutcomeView::TimedOut)
        } else {
            at_stage(u, Stage::PollGap)
        }
    }
}

/// The turn after a key or a text was to be sent.
pub open spec fn after_send(t: TurnView, error: Option<Seq<char>>, then_stage: Stage) -> TurnView {
    match error {
        Some(e) => ended(t, OutcomeView::Failed(e)),
        None => at_stage(t, then_stage),
    }
}

/// The turn after an event. An event that the stage does not wait for changes
/// nothing.
pub open spec fn advanced(t: TurnView, event: EventView, now_ms: u64) -> TurnView {
    match (t.stage, event) {
        (Stage::AskMode, EventView::Mode(Ok(true))) => at_stage(t, Stage::LeaveMode),
        (Stage::AskMode, EventView::Mode(_)) => at_stage(t, Stage::Prime(0)),
        (Stage::LeaveMode, EventView::Left(_)) => at_stage(t, Stage::Prime(0)),
        (Stage::Prime(k), EventView::Sent(e)) => after_send(t, e, Stage::PrimeGap(k)),
        (Stage::PrimeGap(k), EventView::Slept) => if k < 2 {
            at_stage(t, Stage::Prime((k + 1) as u8))
        } else {
            at_stage(t, Stage::CheckMenu)
        },
        (Stage::CheckMenu, EventView::Captured(Ok(raw))) => if t.dismiss_marker.len() > 0
            && text::has(extract::stripped(raw), t.dismiss_marker) {
            at_stage(t, Stage::DismissMenu)
        } else {
            at_stage(t, Stage::Inject)
        },
        (Stage::CheckMenu, EventView::Captured(Err(e))) => ended(t, OutcomeView::Failed(e)),
        (Stage::DismissMenu, EventView::Sent(e)) => after_send(t, e, Stage::MenuSettle),
        (Stage::MenuSettle, EventView::Slept) => at_stage(t, Stage::Inject),
        (Stage::Inject, EventView::Sent(e)) => after_send(t, e, Stage::Submit(0)),
        (Stage::Submit(k), EventView::Sent(e)) => after_send(t, e, Stage::SubmitGap(k)),
        (Stage::SubmitGap(k), EventView::Slept) => if k < 2 {
            at_stage(t, Stage::Submit((k + 1) as u8))
        } else {
            TurnView { stage: Stage::PollGap, started_ms: now_ms, ..t }
        },
        (Stage::PollGap, EventView::Slept) => at_stage(t, Stage::Poll),
        (Stage::Poll, EventView::Captured(Ok(raw))) => polled(t, raw, now_ms),
        (Stage::Poll, EventView::Captured(Err(e))) => ended(t, OutcomeView::Failed(e)),
        _ => t,
    }
}

impl Turn {
    /// A turn that will put `text` to the pane under the correlation id `id`.
    pub fn new(cfg: &EngineConfig, id: &str, text: &str) -> (r: Turn)
        ensures
            r@ == fresh(*cfg, id@, text@),
    {
        Turn {
            id: id.to_owned(),
            text: text.to_owned(),
            poll_interval_ms: cfg.poll_interval_ms,
            primary_timeout_ms: cfg.primary_timeout_ms,
            extended_timeout_ms: cfg.extended_timeout_ms,
            streaming_marker: cfg.streaming_marker.clone(),
            dismiss_marker: cfg.dismiss_marker.clone(),
            stage: Stage::AskMode,
            started_ms: 0,
            idle_streak: 0,
            crossed_primary: false,
            outcome: TurnOutcome::TimedOut,
        }
    }

    /// Whether the turn went on past its first wait without an answer.
    pub fn crossed_primary(&self) -> (r: bool)
        ensures
            r == self@.crossed_primary,
    {
        self.crossed_primary
    }

    /// What to do next:
    ///
    /// 1. leave any tmux pane mode, as best one can: a failure here does not stop
    ///    the turn;
    /// 2. three Enters, with gaps, to prime the prompt;
    /// 3. if a first-run confirmation is up, dismiss it with Tab;
    /// 4. type the wrapped command, literally;
    /// 5. three Enters, with gaps, to submit;
    /// 6. poll until both tags appear, or the opener plus three idle polls do.
    pub fn action(&self) -> (r: TurnAction)
        ensures
            r@ == pending(self@),
    {
        match self.stage {
            Stage::AskMode => TurnAction::AskMode,
            Stage::LeaveMode => TurnAction::LeaveMode,
            Stage::Prime(_) => TurnAction::Key("Enter".to_owned()),
            Stage::PrimeGap(_) => TurnAction::Sleep(KEY_GAP_MS),
            Stage::CheckMenu => TurnAction::Capture,
            Stage::DismissMenu => TurnAction::Key("Tab".to_owned()),
            Stage::MenuSettle => TurnAction::Sleep(MENU_SETTLE_MS),
            Stage::Inject => TurnAction::Literal(
                wrap_command(self.id.as_str(), self.text.as_str()),
            ),
            Stage::Submit(_) => TurnAction::Key("Enter".to_owned()),
            Stage::SubmitGap(_) => TurnAction::Sleep(KEY_GAP_MS),
            Stage::PollGap => TurnAction::Sleep(self.poll_interval_ms),
            Stage::Poll => TurnAction::Capture,
            Stage::Over => TurnAction::Finish(copy_outcome(&self.outcome)),
        }
    }

    fn end(&mut self, outcome: TurnOutcome)
        ensures
            final(self)@ == ended(old(self)@, outcome@),
    {
        self.stage = Stage::Over;
        self.outcome = outcome;
    }

    fn sent(&mut self, result: Result<(), String>, next: Stage)
        ensures
            final(self)@ == after_send(
                old(self)@,
                match result {
                    Ok(_) => None,
                    Err(e) => Some(e@),
                },
                next,
            ),
    {
        match result {
            Ok(_) => {
                self.stage = next;
            },
            Err(e) => self.end(TurnOutcome::Failed(e)),
        }
    }

    fn poll(&mut self, raw: String, now_ms: u64)
        ensures
            final(self)@ == polled(old(self)@, raw@, now_ms),
    {
        let clean = strip_ansi(raw.as_str());
        let id = self.id.clone();
        let scope = scope_after_cmd(clean.as_str(), id.as_str());
        let has_open = text::contains(
            scope,
            text::cat3("[REPLY-", id.as_str(), "]").as_str(),
        );
        let has_close = has_open && text::contains(
            scope,
            text::cat3("[/REPLY-", id.as_str(), "]").as_str(),
        );
        let is_idle = pane_is_idle(clean.as_str(), self.streaming_marker.as_str());
        if (has_open && has_close) || (has_open && is_idle && self.idle_streak
            >= IDLE_CONFIRM_POLLS - 1) {
            match extract_reply(raw.as_str(), id.as_str()) {
                Ok(body) => self.end(TurnOutcome::Done(body)),
                Err(e) => self.end(TurnOutcome::Failed(e)),
            }
            return ;
        }
        if has_open && is_idle {
            self.idle_streak = self.idle_streak + 1;
        } else {
            self.idle_streak = 0;
        }
        let elapsed_ms: u64 = now_ms.saturating_sub(self.started_ms);
        if elapsed_ms >= self.primary_timeout_ms {
            self.crossed_primary = true;
        }
        if elapsed_ms >= self.extended_timeout_ms {
            self.end(TurnOutcome::TimedOut);
        } else {
            self.stage = Stage::PollGap;
        }
    }

    /// Take what came back from the last action, at a time on a clock that never
    /// goes back.
    pub fn advance(&mut self, event: TurnEvent, now_ms: u64)
        ensures
            final(self)@ == advanced(old(self)@, event@, now_ms),
    {
        match (self.stage, event) {
            (Stage::AskMode, TurnEvent::Mode(Ok(true))) => {
                self.stage = Stage::LeaveMode;
            },
            (Stage::AskMode, TurnEvent::Mode(_)) => {
                self.stage = Stage::Prime(0);
            },
            (Stage::LeaveMode, TurnEvent::Left(_)) => {
                self.stage = Stage::Prime(0);
            },
            (Stage::Prime(k), TurnEvent::Sent(r)) => self.sent(r, Stage::PrimeGap(k)),
            (Stage::PrimeGap(k), TurnEvent::Slept) => {
                if k < 2 {
                    self.stage = Stage::Prime(k + 1);
                } else {
                    self.stage = Stage::CheckMenu;
                }
            },
            (Stage::CheckMenu, TurnEvent::Captured(Ok(raw))) => {
                if !self.dismiss_marker.as_str().is_empty() && text::contains(
                    strip_ansi(raw.as_str()).as_str(),
                    self.dismiss_marker.as_str(),
                ) {
                    self.stage = Stage::DismissMenu;
                } else {
                    self.stage = Stage::Inject;
                }
            },
            (Stage::CheckMenu, TurnEvent::Captured(Err(e))) => self.end(TurnOutcome::Failed(e)),
            (Stage::DismissMenu, TurnEvent::Sent(r)) => self.sent(r, Stage::MenuSettle),
            (Stage::MenuSettle, TurnEvent::Slept) => {
                self.stage = Stage::Inject;
            },
            (Stage::Inject, TurnEvent::Sent(r)) => self.sent(r, Stage::Submit(0)),
            (Stage::Submit(k), TurnEvent::Sent(r)) => self.sent(r, Stage::SubmitGap(k)),
            (Stage::SubmitGap(k), TurnEvent::Slept) => {
                if k < 2 {
                    self.stage = Stage::Submit(k + 1);
                } else {
                    self.stage = Stage::PollGap;
                    self.started_ms = now_ms;
                }
            },
            (Stage::PollGap, TurnEvent::Slept) => {
                self.stage = Stage::Poll;
            },
            (Stage::Poll, TurnEvent::Captured(Ok(raw))) => self.poll(raw, now_ms),
            (Stage::Poll, TurnEvent::Captured(Err(e))) => self.end(TurnOutcome::Failed(e)),
            _ => {},
        }
    }
}

/// Do one action on a pane, and hand back exactly what the pane answered to it: one
/// call of the method that the action stands for, with the action's text, takes the
/// pane from what it was to what it is, and gives the answer that the event holds.
/// Waiting and ending are the caller's: for these there is no event, and the pane
/// is not touched.
pub fn perform<P: Pane>(pane: &mut P, action: &TurnAction) -> (r: Option<TurnEvent>)
    ensures
        match action {
            TurnAction::AskMode => r matches Some(TurnEvent::Mode(answer)) && exists|p: &mut P|
                *p == *old(pane) && *final(p) == *final(pane) && #[trigger] call_ensures(
                    P::pane_in_mode,
                    (p,),
                    answer,
                ),
            TurnAction::LeaveMode => r matches Some(TurnEvent::Left(answer)) && exists|p: &mut P|
                *p == *old(pane) && *final(p) == *final(pane) && #[trigger] call_ensures(
                    P::exit_mode,
                    (p,),
                    answer,
                ),
            TurnAction::Key(s) => r matches Some(TurnEvent::Sent(answer)) && exists|
                p: &mut P,
                t: &str,
            |
                *p == *old(pane) && *final(p) == *final(pane) && t@ == s@
                    && #[trigger] call_ensures(P::send_key, (p, t), answer),
            TurnAction::Literal(s) => r matches Some(TurnEvent::Sent(answer)) && exists|
                p: &mut P,
                t: &str,
            |
                *p == *old(pane) && *final(p) == *final(pane) && t@ == s@
                    && #[trigger] call_ensures(P::send_literal, (p, t), answer),
            TurnAction::Capture => r matches Some(TurnEvent::Captured(answer)) && exists|p: &mut P|
                *p == *old(pane) && *final(p) == *final(pane) && #[trigger] call_ensures(
                    P::capture,
                    (p,),
                    answer,
                ),
            TurnAction::Sleep(_) => r is None && *final(pane) == *old(pane),
            TurnAction::Finish(_) => r is None && *final(pane) == *old(pane),
        },
{
    match action {
        TurnAction::AskMode => Some(TurnEvent::Mode(pane.pane_in_mode())),
        TurnAction::LeaveMode => Some(TurnEvent::Left(pane.exit_mode())),
        TurnAction::Key(key) => Some(TurnEvent::Sent(pane.send_key(key.as_str()))),
        TurnAction::Literal(t) => Some(TurnEvent::Sent(pane.send_literal(t.as_str()))),
        TurnAction::Capture => Some(TurnEvent::Captured(pane.capture())),
        TurnAction::Sleep(_) => None,
        TurnAction::Finish(_) => None,
    }
}

// ---------------------------------------------------------------------------
// Laws
// ---------------------------------------------------------------------------

/// A turn after a row of events, each with the time at which it came.
pub open spec fn run(t: TurnView, events: Seq<(EventView, u64)>) -> TurnView
    decreases events.len(),
{
    if events.len() == 0 {
        t
    } else {
        let u = run(t, events.drop_last());
        advanced(u, events.last().0, events.last().1)
    }
}

/// What an event says was typed: the key or the text that was pending, where it
/// was sent.
pub open spec fn typed_by(t: TurnView, event: EventView) -> Seq<Seq<char>> {
    match (pending(t), event) {
        (ActionView::Key(k), EventView::Sent(None)) => seq!["key:"@ + k],
        (ActionView::Literal(s), EventView::Sent(None)) => seq!["literal:"@ + s],
        _ => Seq::empty(),
    }
}

/// Everything typed in the course of a row of events.
pub open spec fn typed_in(t: TurnView, events: Seq<(EventView, u64)>) -> Seq<Seq<char>>
    decreases events.len(),
{
    if events.len() == 0 {
        Seq::empty()
    } else {
        typed_in(t, events.drop_last()) + typed_by(run(t, events.drop_last()), events.last().0)
    }
}

/// The whole of what a turn types: three Enters, Tab if the menu was up, the
/// wrapped command, three Enters.
pub open spec fn script(id: Seq<char>, command: Seq<char>, menu: bool) -> Seq<Seq<char>> {
    let enter = "key:"@ + "Enter"@;
    let prime = seq![enter, enter, enter];
    let tab = if menu {
        seq!["key:"@ + "Tab"@]
    } else {
        Seq::empty()
    };
    prime + tab + seq!["literal:"@ + extract::wrapped(id, command)] + prime
}

/// How much of the script a turn has typed when it stands at a stage.
pub open spec fn typed_at(stage: Stage, menu: bool) -> int {
    let tab: int = if menu {
        1
    } else {
        0
    };
    match stage {
        Stage::AskMode => 0,
        Stage::LeaveMode => 0,
        Stage::Prime(k) => k as int,
        Stage::PrimeGap(k) => k + 1,
        Stage::CheckMenu => 3,
        Stage::DismissMenu => 3,
        Stage::MenuSettle => 4,
        Stage::Inject => 3 + tab,
        Stage::Submit(k) => 4 + tab + k,
        Stage::SubmitGap(k) => 5 + tab + k,
        Stage::PollGap => 7 + tab,
        Stage::Poll => 7 + tab,
        Stage::Over => 0,
    }
}

/// What is true of a turn and of what it typed, whatever happened so far.
pub open spec fn on_script(t: TurnView, typed: Seq<Seq<char>>, menu: bool) -> bool {
    let whole = script(t.id, t.text, menu);
    &&& t.stage matches Stage::Prime(k) ==> k < 3
    &&& t.stage matches Stage::PrimeGap(k) ==> k < 3
    &&& t.stage matches Stage::Submit(k) ==> k < 3
    &&& t.stage matches Stage::SubmitGap(k) ==> k < 3
    &&& t.stage == Stage::DismissMenu ==> menu
    &&& t.stage == Stage::MenuSettle ==> menu
    &&& if t.stage == Stage::Over {
        typed.len() <= whole.len() && typed == whole.take(typed.len() as int)
    } else {
        typed == whole.take(typed_at(t.stage, menu))
    }
}

proof fn lemma_script(t: TurnView)
    ensures
        script(t.id, t.text, true).len() == 8,
        script(t.id, t.text, false).len() == 7,
        script(t.id, t.text, true).take(3) == script(t.id, t.text, false).take(3),
{
    let a = script(t.id, t.text, true);
    let b = script(t.id, t.text, false);
    assert(a.take(3) =~= b.take(3));
}

proof fn lemma_script_step(t: TurnView, typed: Seq<Seq<char>>, menu: bool, e: EventView, now: u64) -> (
after: bool)
    requires
        on_script(t, typed, menu),
    ensures
        on_script(advanced(t, e, now), typed + typed_by(t, e), after),
        advanced(t, e, now).id == t.id,
        advanced(t, e, now).text == t.text,
{
    lemma_script(t);
    let u = advanced(t, e, now);
    let whole = script(t.id, t.text, menu);
    assert(typed + Seq::<Seq<char>>::empty() =~= typed);
    if t.stage == Stage::CheckMenu {
        let after = u.stage == Stage::DismissMenu;
        let next = script(t.id, t.text, after);
        assert(typed + typed_by(t, e) =~= typed);
        assert(next.take(3) =~= whole.take(3));
        after
    } else {
        let n = typed_at(t.stage, menu);
        if t.stage != Stage::Over && typed_by(t, e).len() > 0 {
            assert(whole[n] == typed_by(t, e)[0]);
            assert(typed + typed_by(t, e) =~= whole.take(n + 1));
        } else {
            assert(typed + typed_by(t, e) =~= typed);
        }
        menu
    }
}

proof fn lemma_on_script(t: TurnView, events: Seq<(EventView, u64)>) -> (menu: bool)
    requires
        t.stage == Stage::AskMode,
    ensures
        on_script(run(t, events), typed_in(t, events), menu),
        run(t, events).id == t.id,
        run(t, events).text == t.text,
    decreases events.len(),
{
    if events.len() == 0 {
        assert(script(t.id, t.text, false).take(0) =~= Seq::<Seq<char>>::empty());
        false
    } else {
        let menu = lemma_on_script(t, events.drop_last());
        lemma_script_step(
            run(t, events.drop_last()),
            typed_in(t, events.drop_last()),
            menu,
            events.last().0,
            events.last().1,
        )
    }
}

/// Whatever the pane answers, a turn types its script from the start and nothing
/// else; once it polls it has typed the whole script, and while it polls it
/// types no more.
pub proof fn law_a_turn_types_its_script(t: TurnView, events: Seq<(EventView, u64)>)
    requires
        t.stage == Stage::AskMode,
    ensures
        exists|menu: bool|
            {
                let whole = #[trigger] script(t.id, t.text, menu);
                let typed = typed_in(t, events);
                &&& typed.len() <= whole.len()
                &&& typed == whole.take(typed.len() as int)
                &&& run(t, events).stage == Stage::PollGap || run(t, events).stage == Stage::Poll
                    ==> typed == whole
            },
{
    let menu = lemma_on_script(t, events);
    lemma_script(t);
    let whole = script(t.id, t.text, menu);
    let typed = typed_in(t, events);
    assert(whole.take(whole.len() as int) =~= whole);
    assert(typed.len() <= whole.len() && typed == whole.take(typed.len() as int));
}

/// A reply is accepted only from a capture that holds it, and only where both
/// tags are on screen or the opener is and the pane has been idle for as many
/// polls as it takes.
pub proof fn law_a_turn_is_done_only_with_a_reply(t: TurnView, event: EventView, now_ms: u64)
    requires
        t.stage != Stage::Over,
        advanced(t, event, now_ms).stage == Stage::Over,
        advanced(t, event, now_ms).outcome is Done,
    ensures
        event matches EventView::Captured(Ok(raw)) && {
            let clean = extract::stripped(raw);
            &&& advanced(t, event, now_ms).outcome matches OutcomeView::Done(body)
            &&& extract::reply_in(raw, t.id) == Ok::<Seq<char>, Seq<char>>(body)
            &&& shows_both(clean, t.id) || (shows_open(clean, t.id) && idle(
                clean,
                t.streaming_marker,
            ) && t.idle_streak + 1 >= IDLE_CONFIRM_POLLS)
        },
{
}

/// While the spinner shows, nothing is accepted but a reply with both its tags, and
/// the count of idle polls starts again, whether or not the opener is on screen.
pub proof fn law_a_streaming_pane_is_never_accepted(t: TurnView, raw: Seq<char>, now_ms: u64)
    requires
        t.stage == Stage::Poll,
        !shows_both(extract::stripped(raw), t.id),
        !idle(extract::stripped(raw), t.streaming_marker),
    ensures
        ({
            let u = advanced(t, EventView::Captured(Ok(raw)), now_ms);
            &&& !(u.stage == Stage::Over && u.outcome is Done)
            &&& u.idle_streak == 0
        }),
{
}

/// Both tags on screen end the turn at once, spinner or not.
pub proof fn law_both_tags_end_the_turn(t: TurnView, raw: Seq<char>, now_ms: u64)
    requires
        t.stage == Stage::Poll,
        shows_both(extract::stripped(raw), t.id),
    ensures
        ({
            let u = advanced(t, EventView::Captured(Ok(raw)), now_ms);
            &&& u.stage == Stage::Over
            &&& u.outcome == captured_outcome(raw, t.id)
        }),
{
}

/// A poll that accepts nothing ends the turn, as timed out, exactly from the
/// deadline on; before it the turn goes on, also past the first wait.
pub proof fn law_a_turn_ends_at_its_deadline(t: TurnView, raw: Seq<char>, now_ms: u64)
    requires
        t.stage == Stage::Poll,
        !poll_accepts(extract::stripped(raw), t.id, t.streaming_marker, t.idle_streak as nat),
    ensures
        ({
            let u = advanced(t, EventView::Captured(Ok(raw)), now_ms);
            &&& u.stage == if elapsed(t, now_ms) >= t.extended_timeout_ms {
                Stage::Over
            } else {
                Stage::PollGap
            }
            &&& u.stage == Stage::Over ==> u.outcome is TimedOut
        }),
{
}

/// The streak after a row of polls.
pub open spec fn streak_after(frames: Seq<Seq<char>>, id: Seq<char>, marker: Seq<char>) -> nat
    decreases frames.len(),
{
    if frames.len() == 0 {
        0
    } else {
        next_streak(
            frames.last(),
            id,
            marker,
            streak_after(frames.drop_last(), id, marker),
        )
    }
}

/// A streak of `n` means that the last `n` polls, one after the other, found the
/// pane idle with the opener on screen.
pub proof fn law_a_streak_is_consecutive(frames: Seq<Seq<char>>, id: Seq<char>, marker: Seq<char>)
    ensures
        streak_after(frames, id, marker) <= frames.len(),
        forall|i: int|
            frames.len() - streak_after(frames, id, marker) <= i < frames.len() ==> shows_open(
                #[trigger] frames[i],
                id,
            ) && idle(frames[i], marker),
    decreases frames.len(),
{
    if frames.len() > 0 {
        let init = frames.drop_last();
        law_a_streak_is_consecutive(init, id, marker);
        assert forall|i: int|
            frames.len() - streak_after(frames, id, marker) <= i < frames.len() implies shows_open(
            #[trigger] frames[i],
            id,
        ) && idle(frames[i], marker) by {
            if i < init.len() {
                assert(init[i] == frames[i]);
            }
        }
    }
}

/// The clean screens of the polls in a row of events that ended nothing.
pub open spec fn polls_in(t: TurnView, events: Seq<(EventView, u64)>) -> Seq<Seq<char>>
    decreases events.len(),
{
    if events.len() == 0 {
        Seq::empty()
    } else {
        let before = polls_in(t, events.drop_last());
        let u = run(t, events.drop_last());
        match events.last().0 {
            EventView::Captured(Ok(raw)) => if u.stage == Stage::Poll && !poll_accepts(
                extract::stripped(raw),
                u.id,
                u.streaming_marker,
                u.idle_streak as nat,
            ) {
                before.push(extract::stripped(raw))
            } else {
                before
            },
            _ => before,
        }
    }
}

proof fn lemma_streak(t: TurnView, events: Seq<(EventView, u64)>)
    requires
        t.idle_streak == 0,
    ensures
        run(t, events).id == t.id,
        run(t, events).streaming_marker == t.streaming_marker,
        run(t, events).idle_streak == streak_after(polls_in(t, events), t.id, t.streaming_marker),
        run(t, events).idle_streak < IDLE_CONFIRM_POLLS,
    decreases events.len(),
{
    if events.len() > 0 {
        let init = events.drop_last();
        lemma_streak(t, init);
        let u = run(t, init);
        let before = polls_in(t, init);
        match events.last().0 {
            EventView::Captured(Ok(raw)) => {
                let clean = extract::stripped(raw);
                if u.stage == Stage::Poll && !poll_accepts(
                    clean,
                    u.id,
                    u.streaming_marker,
                    u.idle_streak as nat,
                ) {
                    assert(before.push(clean).drop_last() =~= before);
                }
            },
            _ => {},
        }
    }
}

/// A reply without its closing tag is accepted only where the poll that accepts it
/// and the polls right before it, as many in a row as it takes, all found the pane
/// idle with the opener on screen.
pub proof fn law_a_recovered_reply_was_confirmed(
    t: TurnView,
    events: Seq<(EventView, u64)>,
    raw: Seq<char>,
    now_ms: u64,
)
    requires
        t.idle_streak == 0,
        run(t, events).stage == Stage::Poll,
        advanced(run(t, events), EventView::Captured(Ok(raw)), now_ms).stage == Stage::Over,
        advanced(run(t, events), EventView::Captured(Ok(raw)), now_ms).outcome is Done,
        !shows_both(extract::stripped(raw), t.id),
    ensures
        ({
            let polls = polls_in(t, events).push(extract::stripped(raw));
            &&& polls.len() >= IDLE_CONFIRM_POLLS
            &&& forall|i: int|
                polls.len() - IDLE_CONFIRM_POLLS <= i < polls.len() ==> shows_open(
                    #[trigger] polls[i],
                    t.id,
                ) && idle(polls[i], t.streaming_marker)
        }),
{
    lemma_streak(t, events);
    let before = polls_in(t, events);
    law_a_streak_is_consecutive(before, t.id, t.streaming_marker);
    let polls = before.push(extract::stripped(raw));
    assert forall|i: int| polls.len() - IDLE_CONFIRM_POLLS <= i < polls.len() implies shows_open(
        #[trigger] polls[i],
        t.id,
    ) && idle(polls[i], t.streaming_marker) by {
        if i < before.len() {
            assert(polls[i] == before[i]);
        }
    }
}

/// A turn that was just made: its command, the settings of the engine, and nothing done.
pub proof fn law_a_turn_begins_with_its_settings(
    cfg: EngineConfig,
    id: Seq<char>,
    text: Seq<char>,
)
    ensures
        ({
            let t = fresh(cfg, id, text);
            &&& t.id == id && t.text == text
            &&& t.poll_interval_ms == cfg.poll_interval_ms
            &&& t.primary_timeout_ms == cfg.primary_timeout_ms
            &&& t.extended_timeout_ms == cfg.extended_timeout_ms
            &&& t.streaming_marker == cfg.streaming_marker@
            &&& t.dismiss_marker == cfg.dismiss_marker@
            &&& t.idle_streak == 0 && !t.crossed_primary
            &&& pending(t) is AskMode
        }),
{
}

/// The engine's defaults.
pub proof fn law_engine_defaults(c: EngineConfig, home: Option<Seq<char>>)
    requires
        default_engine(c, home),
    ensures
        c.window@ == "index MASTER"@,
        c.primary_timeout_ms == 90_000,
        c.extended_timeout_ms == 600_000,
        c.poll_interval_ms == 200,
        c.agent_command@.len() == 0,
        c.streaming_marker@ == "esc to interrupt"@,
        c.dismiss_marker@ == "bypass permissions"@,
        home is None ==> c.cwd@ == "m"@,
        home matches Some(h) ==> (h.len() > 0 && h.last() != '/' ==> c.cwd@ == h + "/"@ + "m"@),
{
    reveal_strlit("m");
    match home {
        Some(h) => {
            if h.len() > 0 && h.last() != '/' {
                paths::law_below(h, "m"@);
            }
        },
        None => {},
    }
}

/// What is typed for a command, from the first key to the last.
pub proof fn law_the_script(id: Seq<char>, command: Seq<char>)
    ensures
        ({
            let typed = "literal:"@ + ("[CMD-"@ + id + "]"@ + "[source=index]"@ + command
                + "[/CMD-"@ + id + "]"@);
            &&& script(id, command, false) == seq![
                "key:Enter"@,
                "key:Enter"@,
                "key:Enter"@,
                typed,
                "key:Enter"@,
                "key:Enter"@,
                "key:Enter"@,
            ]
            &&& script(id, command, true) == seq![
                "key:Enter"@,
                "key:Enter"@,
                "key:Enter"@,
                "key:Tab"@,
                typed,
                "key:Enter"@,
                "key:Enter"@,
                "key:Enter"@,
            ]
        }),
{
    reveal_strlit("key:");
    reveal_strlit("Enter");
    reveal_strlit("Tab");
    reveal_strlit("key:Enter");
    reveal_strlit("key:Tab");
    assert("key:"@ + "Enter"@ =~= "key:Enter"@);
    assert("key:"@ + "Tab"@ =~= "key:Tab"@);
    extract::law_tags(id, command);
    let typed = "literal:"@ + extract::wrapped(id, command);
    assert(script(id, command, false) =~= seq![
        "key:Enter"@,
        "key:Enter"@,
        "key:Enter"@,
        typed,
        "key:Enter"@,
        "key:Enter"@,
        "key:Enter"@,
    ]);
    assert(script(id, command, true) =~= seq![
        "key:Enter"@,
        "key:Enter"@,
        "key:Enter"@,
        "key:Tab"@,
        typed,
        "key:Enter"@,
        "key:Enter"@,
        "key:Enter"@,
    ]);
}

/// A pause follows every key: a tenth of a second, and a fifth behind the one that
/// dismisses a menu. Nothing is typed before the pause is over.
pub proof fn law_a_pause_follows_every_key(t: TurnView, key: Seq<char>, now_ms: u64)
    requires
        pending(t) == ActionView::Key(key),
    ensures
        key == "Enter"@ || key == "Tab"@,
        key == "Enter"@ ==> pending(advanced(t, EventView::Sent(None), now_ms))
            == ActionView::Sleep(100),
        key == "Tab"@ ==> pending(advanced(t, EventView::Sent(None), now_ms))
            == ActionView::Sleep(200),
{
    reveal_strlit("Enter");
    reveal_strlit("Tab");
    assert("Enter"@.len() == 5 && "Tab"@.len() == 3);
}

/// What cannot be typed or captured fails the turn, with the reason that was given.
pub proof fn law_a_turn_fails_with_the_reason(t: TurnView, error: Seq<char>, now_ms: u64)
    ensures
        pending(t) is Key || pending(t) is Literal ==> pending(
            advanced(t, EventView::Sent(Some(error)), now_ms),
        ) == ActionView::Finish(OutcomeView::Failed(error)),
        pending(t) is Capture ==> pending(advanced(t, EventView::Captured(Err(error)), now_ms))
            == ActionView::Finish(OutcomeView::Failed(error)),
{
}

/// A pane in a mode is taken out of it before anything is typed; whatever comes of that,
/// and where the pane cannot be asked, the turn goes on.
pub proof fn law_a_mode_is_left_first(t: TurnView, answer: EventView, now_ms: u64)
    ensures
        t.stage == Stage::AskMode ==> pending(t) is AskMode,
        t.stage == Stage::AskMode && answer == EventView::Mode(Ok(true)) ==> pending(
            advanced(t, answer, now_ms),
        ) is LeaveMode,
        t.stage == Stage::AskMode && answer is Mode && answer != EventView::Mode(Ok(true))
            ==> pending(advanced(t, answer, now_ms)) == ActionView::Key("Enter"@),
        pending(t) is LeaveMode && answer is Left ==> pending(advanced(t, answer, now_ms))
            == ActionView::Key("Enter"@),
{
}

/// A menu is dismissed exactly where the screen, without its escape sequences, shows the
/// marker of one; otherwise the command is typed at once, as it is wrapped.
pub proof fn law_a_menu_is_dismissed_where_it_shows(t: TurnView, raw: Seq<char>, now_ms: u64)
    requires
        t.stage == Stage::CheckMenu,
    ensures
        pending(t) is Capture,
        pending(advanced(t, EventView::Captured(Ok(raw)), now_ms)) == (if t.dismiss_marker.len() > 0
            && text::has(extract::stripped(raw), t.dismiss_marker) {
            ActionView::Key("Tab"@)
        } else {
            ActionView::Literal(
                "[CMD-"@ + t.id + "]"@ + "[source=index]"@ + t.text + "[/CMD-"@ + t.id + "]"@,
            )
        }),
{
    extract::law_tags(t.id, t.text);
}

/// The clock of a turn starts when the last key was given its pause, and the pane is
/// captured at the interval that was set.
pub proof fn law_the_clock_starts_behind_the_last_key(t: TurnView, now_ms: u64, later_ms: u64)
    requires
        t.stage == Stage::SubmitGap(2),
    ensures
        ({
            let u = advanced(t, EventView::Slept, now_ms);
            &&& u.started_ms == now_ms
            &&& pending(u) == ActionView::Sleep(t.poll_interval_ms)
            &&& pending(advanced(u, EventView::Slept, later_ms)) is Capture
            &&& advanced(u, EventView::Slept, later_ms).stage == Stage::Poll
            &&& advanced(u, EventView::Slept, later_ms).started_ms == now_ms
        }),
{
}

/// A turn that is over stays as it is, whatever comes.
pub proof fn law_a_turn_that_is_over_stays(t: TurnView, event: EventView, now_ms: u64)
    requires
        t.stage == Stage::Over,
    ensures
        advanced(t, event, now_ms) == t,
        pending(t) == ActionView::Finish(t.outcome),
{
}

/// A reply that stands between its tags behind the command ends the turn, and is what
/// stands between them, without white space at its two ends; replies to earlier commands
/// are not looked at.
pub proof fn law_a_complete_reply_ends_the_turn(
    t: TurnView,
    raw: Seq<char>,
    now_ms: u64,
    before: Seq<char>,
    command: Seq<char>,
    mid: Seq<char>,
    body: Seq<char>,
    after: Seq<char>,
)
    requires
        t.stage == Stage::Poll,
        !t.id.contains('['),
        ({
            let open = "[REPLY-"@ + t.id + "]"@;
            let close = "[/REPLY-"@ + t.id + "]"@;
            &&& extract::stripped(raw) == before + ("[CMD-"@ + t.id + "][source=index]"@ + command
                + "[/CMD-"@ + t.id + "]"@) + (mid + open + (body + close + after))
            &&& !text::has(body, close)
            &&& !text::has(body + close + after, open)
            &&& !text::has(mid + open + (body + close + after), "[/CMD-"@ + t.id + "]"@)
        }),
    ensures
        pending(advanced(t, EventView::Captured(Ok(raw)), now_ms)) == ActionView::Finish(
            OutcomeView::Done(text::trimmed(body)),
        ),
{
    let open = extract::reply_open(t.id);
    let close = extract::reply_close(t.id);
    let rest = mid + open + (body + close + after);
    let clean = extract::stripped(raw);
    extract::law_tags(t.id, command);
    extract::law_typed_command_round_trip(before, command, mid, body, after, t.id);
    let head = before + ("[CMD-"@ + t.id + "][source=index]"@ + command);
    assert(clean =~= head + extract::cmd_close(t.id) + rest);
    extract::law_stale_replies_are_ignored(head, rest, t.id);
    assert(text::has(rest, open)) by {
        text::law_has(rest, open);
        assert(rest == mid + open + (body + close + after));
    }
    assert(text::has(rest, close)) by {
        text::law_has(rest, close);
        assert(rest =~= (mid + open + body) + close + after);
    }
}

/// A reply whose closing tag is missing is taken at the third capture in a row that
/// shows its opening tag and no sign of streaming, and not before.
pub proof fn law_an_unclosed_reply_is_taken_at_the_third_look(
    t: TurnView,
    raw: Seq<char>,
    now_ms: u64,
)
    requires
        t.stage == Stage::Poll,
        now_ms - t.started_ms < t.extended_timeout_ms,
        t.extended_timeout_ms > 0,
        ({
            let clean = extract::stripped(raw);
            &&& text::has(extract::scoped(clean, t.id), "[REPLY-"@ + t.id + "]"@)
            &&& !text::has(extract::scoped(clean, t.id), "[/REPLY-"@ + t.id + "]"@)
            &&& t.streaming_marker.len() > 0
            &&& !text::has(clean, t.streaming_marker)
        }),
    ensures
        ({
            let u = advanced(t, EventView::Captured(Ok(raw)), now_ms);
            &&& t.idle_streak == 0 ==> u.stage == Stage::PollGap && u.idle_streak == 1
            &&& t.idle_streak == 1 ==> u.stage == Stage::PollGap && u.idle_streak == 2
            &&& t.idle_streak == 2 ==> pending(u) == ActionView::Finish(
                match extract::extracted(extract::scoped(extract::stripped(raw), t.id), t.id) {
                    Ok(body) => OutcomeView::Done(body),
                    Err(e) => OutcomeView::Failed(e),
                },
            )
        }),
{
}

/// A capture that shows no opening tag, or that shows streaming and no closing tag,
/// starts the count again. It is waited on until the extended limit and no longer, and
/// the first limit is noted once it is past. Both count from when the clock started.
pub proof fn law_a_turn_waits_until_its_limit(t: TurnView, raw: Seq<char>, now_ms: u64)
    requires
        t.stage == Stage::Poll,
        ({
            let clean = extract::stripped(raw);
            let scope = extract::scoped(clean, t.id);
            ||| !text::has(scope, "[REPLY-"@ + t.id + "]"@)
            ||| !text::has(scope, "[/REPLY-"@ + t.id + "]"@) && (t.streaming_marker.len() == 0
                || text::has(clean, t.streaming_marker))
        }),
    ensures
        ({
            let u = advanced(t, EventView::Captured(Ok(raw)), now_ms);
            let waited = now_ms - t.started_ms;
            &&& u.idle_streak == 0
            &&& waited >= t.extended_timeout_ms && waited >= 0 ==> pending(u) == ActionView::Finish(
                OutcomeView::TimedOut,
            )
            &&& waited < t.extended_timeout_ms && t.extended_timeout_ms > 0 ==> pending(u)
                == ActionView::Sleep(t.poll_interval_ms)
            &&& waited >= t.primary_timeout_ms && waited >= 0 ==> u.crossed_primary
            &&& waited < t.primary_timeout_ms && t.primary_timeout_ms > 0 ==> u.crossed_primary
                == t.crossed_primary
            &&& u.started_ms == t.started_ms
        }),
{
}

/// A turn begins by asking whether the pane is in a mode, says at every stage what to do
/// next, and takes what came of it.
pub proof fn law_the_steps_of_a_turn(
    cfg: &EngineConfig,
    id: &str,
    text: &str,
    first: Turn,
    t: &Turn,
    action: TurnAction,
    event: TurnEvent,
    now_ms: u64,
)
    ensures
        call_ensures(Turn::new, (cfg, id, text), first) ==> first@ == fresh(*cfg, id@, text@)
            && pending(first@) is AskMode,
        call_ensures(Turn::action, (t,), action) ==> action@ == pending(t@),
        forall|p: &mut Turn|
            #![trigger call_ensures(Turn::advance, (p, event, now_ms), ())]
            call_ensures(Turn::advance, (p, event, now_ms), ()) ==> final(p)@ == advanced(
                p@,
                event@,
                now_ms,
            ) && final(p)@.id == p@.id && final(p)@.text == p@.text,
{
}

/// Only the answer to what was asked moves a turn: anything else that comes leaves it as
/// it is.
pub proof fn law_only_an_answer_moves_a_turn(t: TurnView, event: EventView, now_ms: u64)
    requires
        match pending(t) {
            ActionView::AskMode => !(event is Mode),
            ActionView::LeaveMode => !(event is Left),
            ActionView::Key(_) => !(event is Sent),
            ActionView::Literal(_) => !(event is Sent),
            ActionView::Capture => !(event is Captured),
            ActionView::Sleep(_) => !(event is Slept),
            ActionView::Finish(_) => true,
        },
    ensures
        advanced(t, event, now_ms) == t,
{
}

/// Waiting moves a turn on and changes nothing else of it, but that the clock starts
/// behind the last key.
pub proof fn law_waiting_changes_nothing(t: TurnView, now_ms: u64)
    requires
        pending(t) is Sleep,
    ensures
        ({
            let u = advanced(t, EventView::Slept, now_ms);
            &&& u.stage != t.stage
            &&& u.stage != Stage::PollGap ==> u == (TurnView { stage: u.stage, ..t })
            &&& u.stage == Stage::PollGap ==> u == (TurnView {
                stage: u.stage,
                started_ms: now_ms,
                ..t
            })
        }),
{
}

/// Three looks in a row that each show the opening tag of a reply and no sign of
/// streaming end the turn, with what the third of them shows.
pub proof fn law_three_looks_in_a_row_end_the_turn(
    t: TurnView,
    raws: Seq<Seq<char>>,
    now_ms: u64,
)
    requires
        t.stage == Stage::Poll,
        t.idle_streak == 0,
        now_ms - t.started_ms < t.extended_timeout_ms,
        t.extended_timeout_ms > 0,
        t.streaming_marker.len() > 0,
        raws.len() == 3,
        forall|k: int|
            0 <= k < 3 ==> ({
                let clean = extract::stripped(#[trigger] raws[k]);
                &&& text::has(extract::scoped(clean, t.id), "[REPLY-"@ + t.id + "]"@)
                &&& !text::has(extract::scoped(clean, t.id), "[/REPLY-"@ + t.id + "]"@)
                &&& !text::has(clean, t.streaming_marker)
            }),
    ensures
        ({
            let a = advanced(t, EventView::Captured(Ok(raws[0])), now_ms);
            let b = advanced(
                advanced(a, EventView::Slept, now_ms),
                EventView::Captured(Ok(raws[1])),
                now_ms,
            );
            let c = advanced(
                advanced(b, EventView::Slept, now_ms),
                EventView::Captured(Ok(raws[2])),
                now_ms,
            );
            &&& a.stage == Stage::PollGap && b.stage == Stage::PollGap
            &&& pending(c) == ActionView::Finish(
                match extract::extracted(extract::scoped(extract::stripped(raws[2]), t.id), t.id) {
                    Ok(body) => OutcomeView::Done(body),
                    Err(e) => OutcomeView::Failed(e),
                },
            )
        }),
{
    law_an_unclosed_reply_is_taken_at_the_third_look(t, raws[0], now_ms);
    let a = advanced(t, EventView::Captured(Ok(raws[0])), now_ms);
    let a2 = advanced(a, EventView::Slept, now_ms);
    law_an_unclosed_reply_is_taken_at_the_third_look(a2, raws[1], now_ms);
    let b = advanced(a2, EventView::Captured(Ok(raws[1])), now_ms);
    let b2 = advanced(b, EventView::Slept, now_ms);
    law_an_unclosed_reply_is_taken_at_the_third_look(b2, raws[2], now_ms);
}

} // verus!
