//! The `Pane` trait, the argument vectors that drive a real tmux window, and the
//! scripted `FakePane`.
//!
//! A pane stranded in copy- or tree-mode routes `send-keys` to the mode's key
//! table instead of the program underneath, so every keystroke is silently
//! swallowed; `pane_in_mode` and `exit_mode` guard against that.

use std::collections::VecDeque;

use vstd::prelude::*;
use vstd::string::*;

use crate::text;

verus! {

/// How far back `capture-pane` reaches. Both tags of a long reply have to fit
/// inside a single capture.
pub const CAPTURE_SCROLLBACK: &'static str = "-1000";

/// A handle to a tmux pane, which one worker holds for the life of the daemon.
pub trait Pane: Send + Sync {
    /// The visible pane plus scrollback, ANSI included.
    fn capture(&mut self) -> (r: Result<String, String>);

    /// Type text verbatim (`send-keys -l`), never escape-interpreted.
    fn send_literal(&mut self, text: &str) -> (r: Result<(), String>);

    /// Send a named tmux key, e.g. `Enter` or `Tab`.
    fn send_key(&mut self, key: &str) -> (r: Result<(), String>);

    /// True when the pane sits in a tmux mode and would swallow keystrokes.
    fn pane_in_mode(&mut self) -> (r: Result<bool, String>);

    /// Drop the pane out of whatever mode it is in. No-op when it is in none.
    fn exit_mode(&mut self) -> (r: Result<(), String>);
}

// ---------------------------------------------------------------------------
// The tmux command lines
// ---------------------------------------------------------------------------

/// The argument vector for a capture.
///
/// `-J` joins wrapped lines: without it a `[/REPLY-id]` closer that lands on a
/// column boundary is split across two rows and a search misses it forever.
pub fn capture_args(target: &str) -> (r: Vec<String>)
    ensures
        text::views(r@) == seq![
            "capture-pane"@,
            "-t"@,
            target@,
            "-p"@,
            "-J"@,
            "-S"@,
            CAPTURE_SCROLLBACK@,
        ],
{
    let r = vec![
        "capture-pane".to_owned(),
        "-t".to_owned(),
        target.to_owned(),
        "-p".to_owned(),
        "-J".to_owned(),
        "-S".to_owned(),
        CAPTURE_SCROLLBACK.to_owned(),
    ];
    assert(text::views(r@) =~= seq![
        "capture-pane"@,
        "-t"@,
        target@,
        "-p"@,
        "-J"@,
        "-S"@,
        CAPTURE_SCROLLBACK@,
    ]);
    r
}

/// The argument vector that types a text verbatim.
pub fn literal_args(target: &str, text: &str) -> (r: Vec<String>)
    ensures
        text::views(r@) == seq!["send-keys"@, "-t"@, target@, "-l"@, text@],
{
    let r = vec![
        "send-keys".to_owned(),
        "-t".to_owned(),
        target.to_owned(),
        "-l".to_owned(),
        text.to_owned(),
    ];
    assert(text::views(r@) =~= seq!["send-keys"@, "-t"@, target@, "-l"@, text@]);
    r
}

/// The argument vector that sends a named key.
pub fn key_args(target: &str, key: &str) -> (r: Vec<String>)
    ensures
        text::views(r@) == seq!["send-keys"@, "-t"@, target@, key@],
{
    let r = vec!["send-keys".to_owned(), "-t".to_owned(), target.to_owned(), key.to_owned()];
    assert(text::views(r@) =~= seq!["send-keys"@, "-t"@, target@, key@]);
    r
}

/// The argument vector that asks whether the pane is in a mode.
pub fn mode_args(target: &str) -> (r: Vec<String>)
    ensures
        text::views(r@) == seq![
            "display-message"@,
            "-p"@,
            "-t"@,
            target@,
            "#{pane_in_mode}"@,
        ],
{
    let r = vec![
        "display-message".to_owned(),
        "-p".to_owned(),
        "-t".to_owned(),
        target.to_owned(),
        "#{pane_in_mode}".to_owned(),
    ];
    assert(text::views(r@) =~= seq!["display-message"@, "-p"@, "-t"@, target@, "#{pane_in_mode}"@]);
    r
}

/// Whether the answer to [`mode_args`] says that the pane is in a mode.
pub fn mode_answer(out: &str) -> (r: bool)
    ensures
        r == (text::trimmed(out@) == "1"@),
{
    text::same(text::trim(out).as_str(), "1")
}

/// The argument vector that cancels whichever mode is active. A no-op on a pane
/// that is in none, and it still works when the mode was orphaned by a detached
/// client.
pub fn exit_mode_args(target: &str) -> (r: Vec<String>)
    ensures
        text::views(r@) == seq!["copy-mode"@, "-q"@, "-t"@, target@],
{
    let r = vec!["copy-mode".to_owned(), "-q".to_owned(), "-t".to_owned(), target.to_owned()];
    assert(text::views(r@) =~= seq!["copy-mode"@, "-q"@, "-t"@, target@]);
    r
}

/// The argument vector that lists every window as `session:window`.
pub fn list_windows_args() -> (r: Vec<String>)
    ensures
        text::views(r@) == seq!["list-windows"@, "-a"@, "-F"@, "#{session_name}:#{window_name}"@],
{
    let r = vec![
        "list-windows".to_owned(),
        "-a".to_owned(),
        "-F".to_owned(),
        "#{session_name}:#{window_name}".to_owned(),
    ];
    assert(text::views(r@) =~= seq![
        "list-windows"@,
        "-a"@,
        "-F"@,
        "#{session_name}:#{window_name}"@,
    ]);
    r
}

/// What is reported when tmux could not be started.
pub fn tmux_not_run(args: &Vec<String>, error: &str) -> (r: String)
    ensures
        r@ == "failed to run tmux "@ + text::joined(text::views(args@), " "@) + ": "@ + error@,
{
    let mut r = text::cat3("failed to run tmux ", text::join(args, " ").as_str(), ": ");
    r.append(error);
    r
}

/// What is reported when tmux ran and failed.
pub fn tmux_failed(args: &Vec<String>, stderr: &str) -> (r: String)
    ensures
        r@ == "tmux "@ + text::joined(text::views(args@), " "@) + " failed: "@ + text::trimmed(
            stderr@,
        ),
{
    let mut r = text::cat3("tmux ", text::join(args, " ").as_str(), " failed: ");
    r.append(text::trim(stderr).as_str());
    r
}

// ---------------------------------------------------------------------------
// Finding the window
// ---------------------------------------------------------------------------

/// The real pane: an actual tmux window, resolved by name on every call so a
/// window that is recreated mid-session is picked up without a restart.
pub struct TmuxPane {
    window: String,
}

impl TmuxPane {
    /// The name of the window.
    pub closed spec fn name(&self) -> Seq<char> {
        self.window@
    }

    /// A pane on the window of that name.
    pub fn new(window: &str) -> (r: TmuxPane)
        ensures
            r.name() == window@,
    {
        TmuxPane { window: window.to_owned() }
    }

    /// The window name this pane drives.
    pub fn window(&self) -> (r: &str)
        ensures
            r@ == self.name(),
    {
        self.window.as_str()
    }
}

/// Whether a `session:window` line names the window. The session ends at the
/// first colon; the rest is compared exactly.
pub open spec fn names_window(line: Seq<char>, want: Seq<char>) -> bool {
    match text::split_at_first(line, ':') {
        Some((session, window)) => window == want,
        None => false,
    }
}

/// The first line from `i` on that names the window.
pub open spec fn window_line(lines: Seq<Seq<char>>, want: Seq<char>, i: int) -> Option<int>
    decreases lines.len() - i,
{
    if i < 0 || i >= lines.len() {
        None
    } else if names_window(lines[i], want) {
        Some(i)
    } else {
        window_line(lines, want, i + 1)
    }
}

/// The target that a listing gives for a window name.
pub open spec fn target_in(listing: Seq<char>, want: Seq<char>) -> Option<Seq<char>> {
    let lines = text::lines_of(listing);
    match window_line(lines, want, 0) {
        Some(i) => Some(lines[i]),
        None => None,
    }
}

/// The first line that names the window, with its session and itself.
pub(crate) fn find_line(listing: &str, want: &str) -> (r: Option<(String, String)>)
    ensures
        match r {
            Some((session, line)) => {
                let lines = text::lines_of(listing@);
                &&& window_line(lines, want@, 0) is Some
                &&& line@ == lines[window_line(lines, want@, 0)->0]
                &&& text::split_at_first(line@, ':') == Some((session@, want@))
            },
            None => window_line(text::lines_of(listing@), want@, 0) is None,
        },
{
    let lines = text::lines(listing);
    let ghost all = text::lines_of(listing@);
    let mut i: usize = 0;
    while i < lines.len()
        invariant
            i <= lines@.len(),
            all == text::lines_of(listing@),
            text::views(lines@) == all,
            window_line(all, want@, i as int) == window_line(all, want@, 0),
        decreases lines@.len() - i,
    {
        assert(all[i as int] == lines@[i as int]@);
        match text::split_once(lines[i].as_str(), ':') {
            Some((session, window)) => {
                if text::same(window.as_str(), want) {
                    return Some((session, lines[i].clone()));
                }
            },
            None => {},
        }
        i = i + 1;
    }
    None
}

/// Pick a target out of `list-windows` output.
///
/// A window literally named `index` must never satisfy a search for
/// `index MASTER`: a substring match would send the words into the wrong
/// session. Splitting on the first colon only also keeps window names that
/// themselves contain colons resolvable.
pub fn pick_target(listing: &str, want: &str) -> (r: Option<String>)
    ensures
        text::opt_view(r) == target_in(listing@, want@),
{
    match find_line(listing, want) {
        Some((_, line)) => Some(line),
        None => None,
    }
}

/// Resolve `session:window` for a window name in a listing of every session.
pub fn find_target(listing: &str, window_name: &str) -> (r: Result<String, String>)
    ensures
        text::result_view(r) == match target_in(listing@, window_name@) {
            Some(t) => Ok::<Seq<char>, Seq<char>>(t),
            None => Err("No tmux window named '"@ + window_name@ + "' found"@),
        },
{
    match pick_target(listing, window_name) {
        Some(t) => Ok(t),
        None => Err(text::cat3("No tmux window named '", window_name, "' found")),
    }
}

/// A window is found exactly where some line names it, and what is found is a
/// line of the listing whose part after the first colon is the whole name.
pub proof fn law_window_names_match_exactly(listing: Seq<char>, want: Seq<char>)
    ensures
        (target_in(listing, want) is Some) == (exists|i: int|
            0 <= i < text::lines_of(listing).len() && names_window(
                #[trigger] text::lines_of(listing)[i],
                want,
            )),
        target_in(listing, want) matches Some(t) ==> text::lines_of(listing).contains(t)
            && names_window(t, want),
{
    lemma_window_line(text::lines_of(listing), want, 0);
}

proof fn lemma_window_line(lines: Seq<Seq<char>>, want: Seq<char>, i: int)
    requires
        0 <= i,
    ensures
        match window_line(lines, want, i) {
            Some(k) => i <= k < lines.len() && names_window(lines[k], want),
            None => forall|k: int| i <= k < lines.len() ==> !names_window(#[trigger] lines[k], want),
        },
    decreases lines.len() - i,
{
    if i < lines.len() && !names_window(lines[i], want) {
        lemma_window_line(lines, want, i + 1);
    }
}

// ---------------------------------------------------------------------------
// The scripted pane
// ---------------------------------------------------------------------------

/// A pane driven by scripted frames, so the reply state machine is testable with
/// no tmux running.
///
/// `capture()` hands back the frames in order and then repeats the last one
/// forever, which is what a finished pane actually does.
pub struct FakePane {
    frames: VecDeque<String>,
    last: String,
    captures: usize,
    writes: Vec<String>,
    in_mode: bool,
    exits: usize,
    fail: bool,
}

/// What a scripted pane holds.
pub struct FakeView {
    /// The frames not handed out yet.
    pub frames: Seq<Seq<char>>,
    /// The frame handed out last.
    pub last: Seq<char>,
    pub captures: nat,
    pub writes: Seq<Seq<char>>,
    pub in_mode: bool,
    pub exits: nat,
    /// Whether every operation fails.
    pub fail: bool,
}

/// One more, as far as a `usize` counts.
pub open spec fn counted(n: nat) -> nat {
    if n < usize::MAX {
        n + 1
    } else {
        n
    }
}

/// What every operation of a broken pane reports.
pub open spec fn no_window() -> Seq<char> {
    "No tmux window named 'index MASTER' found"@
}

impl View for FakePane {
    type V = FakeView;

    closed spec fn view(&self) -> FakeView {
        FakeView {
            frames: text::views(self.frames@),
            last: self.last@,
            captures: self.captures as nat,
            writes: text::views(self.writes@),
            in_mode: self.in_mode,
            exits: self.exits as nat,
            fail: self.fail,
        }
    }
}

impl FakePane {
    /// Frames are returned by `capture()` in order; the last one repeats.
    pub fn new(frames: Vec<String>) -> (r: FakePane)
        ensures
            r@ == (FakeView {
                frames: text::views(frames@),
                last: Seq::empty(),
                captures: 0,
                writes: Seq::empty(),
                in_mode: false,
                exits: 0,
                fail: false,
            }),
    {
        let mut queue: VecDeque<String> = VecDeque::new();
        let mut i: usize = 0;
        while i < frames.len()
            invariant
                i <= frames@.len(),
                queue@ == frames@.take(i as int),
            decreases frames@.len() - i,
        {
            queue.push_back(frames[i].clone());
            assert(frames@.take(i + 1) =~= frames@.take(i as int).push(frames@[i as int]));
            i = i + 1;
        }
        assert(frames@.take(i as int) =~= frames@);
        let r = FakePane {
            frames: queue,
            last: String::new(),
            captures: 0,
            writes: Vec::new(),
            in_mode: false,
            exits: 0,
            fail: false,
        };
        assert(r@.frames =~= text::views(frames@));
        assert(r@.writes =~= Seq::<Seq<char>>::empty());
        r
    }

    /// A pane whose window does not exist: every operation errors.
    pub fn broken() -> (r: FakePane)
        ensures
            r@ == (FakeView {
                frames: Seq::empty(),
                last: Seq::empty(),
                captures: 0,
                writes: Seq::empty(),
                in_mode: false,
                exits: 0,
                fail: true,
            }),
    {
        let mut p = FakePane::new(Vec::new());
        p.fail = true;
        assert(p@.frames =~= Seq::<Seq<char>>::empty());
        p
    }

    /// A pane stranded in copy-mode, which would swallow every keystroke.
    pub fn in_mode(frames: Vec<String>) -> (r: FakePane)
        ensures
            r@ == (FakeView {
                frames: text::views(frames@),
                last: Seq::empty(),
                captures: 0,
                writes: Seq::empty(),
                in_mode: true,
                exits: 0,
                fail: false,
            }),
    {
        let mut p = FakePane::new(frames);
        p.in_mode = true;
        p
    }

    /// Everything sent, in order, as `"literal:<text>"` or `"key:<Key>"`.
    pub fn writes(&self) -> (r: Vec<String>)
        ensures
            text::views(r@) == self@.writes,
    {
        let r = self.writes.clone();
        assert(text::views(r@) =~= self@.writes);
        r
    }

    /// How many times `capture()` has been called.
    pub fn captures(&self) -> (r: usize)
        ensures
            r == self@.captures,
    {
        self.captures
    }

    /// How many times the pane was asked to leave a tmux mode.
    pub fn exits(&self) -> (r: usize)
        ensures
            r == self@.exits,
    {
        self.exits
    }

    /// Append a frame mid-test.
    pub fn push_frame(&mut self, frame: &str)
        ensures
            final(self)@ == (FakeView { frames: old(self)@.frames.push(frame@), ..old(self)@ }),
    {
        let ghost before = self.frames@;
        self.frames.push_back(frame.to_owned());
        assert(text::views(self.frames@) =~= text::views(before).push(frame@));
    }

    fn write(&mut self, kind: &str, what: &str)
        ensures
            final(self)@ == (FakeView {
                writes: old(self)@.writes.push(kind@ + what@),
                ..old(self)@
            }),
    {
        let ghost before = self.writes@;
        let line = text::cat(kind, what);
        self.writes.push(line);
        assert(text::views(self.writes@) =~= text::views(before).push(kind@ + what@));
    }
}

impl Pane for FakePane {
    fn capture(&mut self) -> (r: Result<String, String>)
        ensures
            text::result_view(r) == (if old(self)@.fail {
                Err::<Seq<char>, Seq<char>>(no_window())
            } else if old(self)@.frames.len() > 0 {
                Ok(old(self)@.frames[0])
            } else {
                Ok(old(self)@.last)
            }),
            final(self)@ == (if old(self)@.fail {
                old(self)@
            } else if old(self)@.frames.len() > 0 {
                FakeView {
                    frames: old(self)@.frames.skip(1),
                    last: old(self)@.frames[0],
                    captures: counted(old(self)@.captures),
                    ..old(self)@
                }
            } else {
                FakeView { captures: counted(old(self)@.captures), ..old(self)@ }
            }),
    {
        if self.fail {
            return Err("No tmux window named 'index MASTER' found".to_owned());
        }
        self.captures = self.captures.saturating_add(1);
        let ghost before = self.frames@;
        match self.frames.pop_front() {
            Some(frame) => {
                assert(text::views(self.frames@) =~= text::views(before).skip(1));
                self.last = frame.clone();
                Ok(frame)
            },
            None => Ok(self.last.clone()),
        }
    }

    fn send_literal(&mut self, text: &str) -> (r: Result<(), String>)
        ensures
            r is Err == old(self)@.fail,
            r matches Err(e) ==> e@ == no_window(),
            final(self)@ == (if old(self)@.fail {
                old(self)@
            } else {
                FakeView { writes: old(self)@.writes.push("literal:"@ + text@), ..old(self)@ }
            }),
    {
        if self.fail {
            return Err("No tmux window named 'index MASTER' found".to_owned());
        }
        self.write("literal:", text);
        Ok(())
    }

    fn send_key(&mut self, key: &str) -> (r: Result<(), String>)
        ensures
            r is Err == old(self)@.fail,
            r matches Err(e) ==> e@ == no_window(),
            final(self)@ == (if old(self)@.fail {
                old(self)@
            } else {
                FakeView { writes: old(self)@.writes.push("key:"@ + key@), ..old(self)@ }
            }),
    {
        if self.fail {
            return Err("No tmux window named 'index MASTER' found".to_owned());
        }
        self.write("key:", key);
        Ok(())
    }

    fn pane_in_mode(&mut self) -> (r: Result<bool, String>)
        ensures
            final(self)@ == old(self)@,
            match r {
                Ok(b) => !old(self)@.fail && b == old(self)@.in_mode,
                Err(e) => old(self)@.fail && e@ == no_window(),
            },
    {
        if self.fail {
            return Err("No tmux window named 'index MASTER' found".to_owned());
        }
        Ok(self.in_mode)
    }

    fn exit_mode(&mut self) -> (r: Result<(), String>)
        ensures
            r is Err == old(self)@.fail,
            r matches Err(e) ==> e@ == no_window(),
            final(self)@ == (if old(self)@.fail {
                old(self)@
            } else {
                FakeView { exits: counted(old(self)@.exits), in_mode: false, ..old(self)@ }
            }),
    {
        if self.fail {
            return Err("No tmux window named 'index MASTER' found".to_owned());
        }
        self.exits = self.exits.saturating_add(1);
        self.in_mode = false;
        Ok(())
    }
}

/// A line names a window where it is a session, a colon, and exactly that name.
pub proof fn law_a_line_names_its_window(line: Seq<char>, want: Seq<char>)
    ensures
        names_window(line, want) == (exists|session: Seq<char>|
            !session.contains(':') && line == #[trigger] (session + seq![':'] + want)),
{
    if names_window(line, want) {
        let (session, window) = text::split_at_first(line, ':')->0;
        text::lemma_index_of(line, ':');
        assert(line =~= session + seq![':'] + window);
        assert(!session.contains(':')) by {
            if session.contains(':') {
                let k = choose|k: int| 0 <= k < session.len() && session[k] == ':';
                assert(line[k] == ':');
            }
        }
    }
    if exists|session: Seq<char>|
        !session.contains(':') && line == #[trigger] (session + seq![':'] + want) {
        let session = choose|session: Seq<char>|
            !session.contains(':') && line == #[trigger] (session + seq![':'] + want);
        text::law_pieces(session, ':', want);
    }
}

proof fn lemma_window_line_is(lines: Seq<Seq<char>>, want: Seq<char>, from: int, i: int)
    requires
        0 <= from <= i < lines.len(),
        names_window(lines[i], want),
        forall|j: int| from <= j < i ==> !names_window(#[trigger] lines[j], want),
    ensures
        window_line(lines, want, from) == Some(i),
    decreases i - from,
{
    if from < i {
        assert(!names_window(lines[from], want));
        lemma_window_line_is(lines, want, from + 1, i);
    }
}

/// The target of a window is the first line of the listing that names it, whole, at
/// whatever place it stands.
pub proof fn law_the_first_window_of_the_name_is_the_target(
    listing: Seq<char>,
    session: Seq<char>,
    want: Seq<char>,
    i: int,
)
    requires
        0 <= i < text::lines_of(listing).len(),
        !session.contains(':'),
        text::lines_of(listing)[i] == session + seq![':'] + want,
        forall|j: int, s: Seq<char>|
            0 <= j < i && !s.contains(':') ==> #[trigger] text::lines_of(listing)[j] != #[trigger] (s
                + seq![':'] + want),
    ensures
        target_in(listing, want) == Some(session + seq![':'] + want),
        window_line(text::lines_of(listing), want, 0) == Some(i),
{
    let lines = text::lines_of(listing);
    law_a_line_names_its_window(lines[i], want);
    assert forall|j: int| 0 <= j < i implies !names_window(#[trigger] lines[j], want) by {
        law_a_line_names_its_window(lines[j], want);
    }
    lemma_window_line_is(lines, want, 0, i);
}

/// What tmux is told to capture a pane, to type a text, to press a key, to ask for its
/// mode, to leave it and to list the windows.
pub proof fn law_what_tmux_is_told(target: &str, what: &str, args: Vec<String>)
    ensures
        call_ensures(capture_args, (target,), args) ==> text::views(args@) == seq![
            "capture-pane"@,
            "-t"@,
            target@,
            "-p"@,
            "-J"@,
            "-S"@,
            "-1000"@,
        ],
        call_ensures(literal_args, (target, what), args) ==> text::views(args@) == seq![
            "send-keys"@,
            "-t"@,
            target@,
            "-l"@,
            what@,
        ],
        call_ensures(key_args, (target, what), args) ==> text::views(args@) == seq![
            "send-keys"@,
            "-t"@,
            target@,
            what@,
        ],
        call_ensures(mode_args, (target,), args) ==> text::views(args@) == seq![
            "display-message"@,
            "-p"@,
            "-t"@,
            target@,
            "#{pane_in_mode}"@,
        ],
        call_ensures(exit_mode_args, (target,), args) ==> text::views(args@) == seq![
            "copy-mode"@,
            "-q"@,
            "-t"@,
            target@,
        ],
        call_ensures(list_windows_args, (), args) ==> text::views(args@) == seq![
            "list-windows"@,
            "-a"@,
            "-F"@,
            "#{session_name}:#{window_name}"@,
        ],
{
}

/// What tmux answers: a pane is in a mode where it says one, with white space round it or
/// none; what it fails with is reported with what it was told.
pub proof fn law_what_tmux_answers(
    out: &str,
    a: Seq<char>,
    b: Seq<char>,
    in_mode: bool,
    args: &Vec<String>,
    error: &str,
    r: String,
)
    requires
        forall|k: int| 0 <= k < a.len() ==> text::white(#[trigger] a[k]),
        forall|k: int| 0 <= k < b.len() ==> text::white(#[trigger] b[k]),
    ensures
        call_ensures(mode_answer, (out,), in_mode) && out@ == a + "1"@ + b ==> in_mode,
        call_ensures(mode_answer, (out,), in_mode) && out@ == a + "0"@ + b ==> !in_mode,
        call_ensures(tmux_not_run, (args, error), r) ==> r@ == "failed to run tmux "@
            + text::joined(text::views(args@), " "@) + ": "@ + error@,
        call_ensures(tmux_failed, (args, error), r) ==> r@ == "tmux "@ + text::joined(
            text::views(args@),
            " "@,
        ) + " failed: "@ + text::trimmed(error@),
{
    reveal_strlit("0");
    reveal_strlit("1");
    assert("0"@[0] != "1"@[0]);
    text::law_trimmed_is_what_stands_between(a, "1"@, b);
    text::law_trimmed_is_what_stands_between(a, "0"@, b);
}

/// A window is found by its name, and one that is not there is reported by its name.
pub proof fn law_a_missing_window_is_named(listing: &str, want: &str, r: Result<String, String>)
    requires
        call_ensures(find_target, (listing, want), r),
    ensures
        target_in(listing@, want@) matches Some(t) ==> (r matches Ok(found) && found@ == t),
        target_in(listing@, want@) is None ==> (r matches Err(e) && e@
            == "No tmux window named '"@ + want@ + "' found"@),
{
}

} // verus!
