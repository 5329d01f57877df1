//! Reading the answer off a terminal screen.
//!
//! The pane text goes in, the reply body comes out. The daemon reads a TUI that
//! was drawn for a human: the text is surrounded by chrome, may be redrawn
//! mid-read, may wrap, and carries a closing tag the model sometimes forgets.

use regex::Regex;
use vstd::prelude::*;
use vstd::string::*;

use crate::text;

verus! {

/// The literal an agent TUI prints beside its live spinner for the duration of
/// a turn. Independent of the spinner's glyphs and words, which rotate.
pub const STREAMING_MARKER: &'static str = "esc to interrupt";

/// Default hint that a first-run confirmation is blocking the pane. Empty
/// disables the dismissal entirely.
pub const DEFAULT_DISMISS_MARKER: &'static str = "bypass permissions";

/// General CSI (`ESC [ …`) plus OSC (`ESC ] …` terminated by BEL or ST), as a
/// regular expression.
pub const ANSI_ESCAPE: &'static str = r"\x1b\[[0-9;?]*[ -/]*[@-~]|\x1b\][^\x07\x1b]*(?:\x07|\x1b\\)";

/// The character that starts every escape sequence.
pub open spec fn esc() -> char {
    '\u{1b}'
}

/// The first position from `i` on whose character is not of the class.
pub open spec fn class_end(s: Seq<char>, i: int, class: spec_fn(char) -> bool) -> int
    decreases s.len() - i,
{
    if 0 <= i < s.len() && class(s[i]) {
        class_end(s, i + 1, class)
    } else {
        i
    }
}

/// The length of the CSI sequence at the start of `s`, 0 where there is none:
/// parameter characters, then intermediate ones, then one that ends it.
pub open spec fn csi_len(s: Seq<char>) -> int {
    if s.len() >= 2 && s[0] == esc() && s[1] == '[' {
        let a = class_end(s, 2, |c: char| '0' <= c <= '9' || c == ';' || c == '?');
        let b = class_end(s, a, |c: char| ' ' <= c <= '/');
        if b < s.len() && '@' <= s[b] <= '~' {
            b + 1
        } else {
            0
        }
    } else {
        0
    }
}

/// The length of the OSC sequence at the start of `s`, 0 where there is none:
/// anything but BEL and ESC, then BEL or `ESC \`.
pub open spec fn osc_len(s: Seq<char>) -> int {
    if s.len() >= 2 && s[0] == esc() && s[1] == ']' {
        let a = class_end(s, 2, |c: char| c != '\u{7}' && c != esc());
        if a < s.len() && s[a] == '\u{7}' {
            a + 1
        } else if a + 1 < s.len() && s[a] == esc() && s[a + 1] == '\\' {
            a + 2
        } else {
            0
        }
    } else {
        0
    }
}

/// The length of the escape sequence at the start of `s`, 0 where there is none.
pub open spec fn escape_len(s: Seq<char>) -> int {
    if csi_len(s) > 0 {
        csi_len(s)
    } else {
        osc_len(s)
    }
}

/// `s` without the escape sequences that one pass from the left finds in it.
pub open spec fn stripped_once(s: Seq<char>) -> Seq<char>
    decreases s.len(),
    via stripped_once_decreases
{
    if s.len() == 0 {
        s
    } else if escape_len(s) > 0 {
        stripped_once(s.skip(escape_len(s)))
    } else {
        seq![s[0]] + stripped_once(s.skip(1))
    }
}

/// Whether an escape sequence stands somewhere in `s`.
pub open spec fn has_escape(s: Seq<char>) -> bool {
    exists|i: int| 0 <= i < s.len() && #[trigger] escape_len(s.skip(i)) > 0
}

/// `s` without escape sequences: pass after pass, until none is left. Taking a
/// sequence out can join what stood on its two sides into another one.
pub open spec fn stripped(s: Seq<char>) -> Seq<char>
    decreases s.len(),
    via stripped_decreases
{
    if has_escape(s) {
        stripped(stripped_once(s))
    } else {
        s
    }
}

proof fn lemma_class_end(s: Seq<char>, i: int, class: spec_fn(char) -> bool)
    requires
        0 <= i <= s.len(),
    ensures
        i <= class_end(s, i, class) <= s.len(),
    decreases s.len() - i,
{
    if i < s.len() && class(s[i]) {
        lemma_class_end(s, i + 1, class);
    }
}

proof fn lemma_escape_len(s: Seq<char>)
    ensures
        0 <= escape_len(s) <= s.len(),
        escape_len(s) > 0 ==> s[0] == esc(),
{
    if s.len() >= 2 {
        let f = |c: char| '0' <= c <= '9' || c == ';' || c == '?';
        lemma_class_end(s, 2, f);
        lemma_class_end(s, class_end(s, 2, f), |c: char| ' ' <= c <= '/');
        lemma_class_end(s, 2, |c: char| c != '\u{7}' && c != esc());
    }
}

#[via_fn]
proof fn stripped_once_decreases(s: Seq<char>) {
    lemma_escape_len(s);
}

#[via_fn]
proof fn stripped_decreases(s: Seq<char>) {
    lemma_stripped_once_len(s);
}

/// Removes every match of a pattern, with `regex::Regex::new` and
/// `regex::Regex::replace_all`. The contract claims, of the one pattern it
/// admits, that it compiles and that its matches, leftmost first and none
/// overlapping, are the CSI and OSC sequences. Its character classes are
/// disjoint, so each match can end in one place only.
#[verifier::external_body]
fn remove_matches(pattern: &str, s: &str) -> (r: String)
    requires
        pattern@ == ANSI_ESCAPE@,
    ensures
        r@ == stripped_once(s@),
{
    Regex::new(pattern).expect("the pattern is a constant").replace_all(s, "").into_owned()
}

/// Strip ANSI escape sequences. Idempotent: safe to apply to already-clean text, and
/// nothing that it leaves is an escape sequence.
///
/// This is the only cleaning applied to a reply body: beyond it and the boundary
/// cut, the answer is rendered exactly as the session wrote it.
pub fn strip_ansi(s: &str) -> (r: String)
    ensures
        r@ == stripped(s@),
        !has_escape(r@),
{
    let mut clean = s.to_owned();
    loop
        invariant
            stripped(clean@) == stripped(s@),
        decreases clean@.len(),
    {
        let v = text::chars_of(clean.as_str());
        if text::index_at(&v, '\u{1b}', 0) == v.len() {
            proof {
                assert(v@.skip(0) =~= v@);
                text::lemma_index_of(clean@, esc());
                lemma_no_esc_no_escape(clean@);
            }
            return clean;
        }
        let next = remove_matches(ANSI_ESCAPE, clean.as_str());
        proof {
            lemma_stripped_once_len(clean@);
            if !has_escape(clean@) {
                lemma_no_escape_no_change(clean@);
            }
        }
        if text::same(next.as_str(), clean.as_str()) {
            return clean;
        }
        clean = next;
    }
}

/// True when the pane shows no live spinner, i.e. the agent is not mid-turn.
///
/// An empty marker means "no way to tell": the pane then counts as busy, and the
/// timeout decides.
pub fn pane_is_idle(pane: &str, marker: &str) -> (r: bool)
    ensures
        r == (marker@.len() > 0 && !text::has(pane@, marker@)),
{
    if marker.is_empty() {
        return false;
    }
    !text::contains(pane, marker)
}

/// Whether a trimmed line ends the assistant's turn.
pub open spec fn boundary(line: Seq<char>) -> bool {
    // The post-turn summary, the input box, a separator rule.
    ||| line.len() > 0 && (line[0] == '✻' || line[0] == '❯' || line[0] == '─')
    // A new turn beginning, a new command echoed into the pane.
    ||| text::occurs_at(line, "● [REPLY-"@, 0)
    ||| text::occurs_at(line, "[CMD-"@, 0)
    // The live spinner: still streaming.
    ||| text::has(line, STREAMING_MARKER@)
}

/// True if a trimmed pane line marks the end of the assistant's turn.
///
/// Used only on the recovery path, to bound a reply whose closing tag the agent
/// dropped.
pub fn is_tui_boundary(line_trimmed: &str) -> (r: bool)
    ensures
        r == boundary(line_trimmed@),
{
    let v = text::chars_of(line_trimmed);
    (v.len() > 0 && (v[0] == '✻' || v[0] == '❯' || v[0] == '─')) || text::starts_with(
        line_trimmed,
        "● [REPLY-",
    ) || text::starts_with(line_trimmed, "[CMD-") || text::contains(line_trimmed, STREAMING_MARKER)
}

/// The tag that opens a command.
pub open spec fn cmd_open(id: Seq<char>) -> Seq<char> {
    "[CMD-"@ + id + "]"@
}

/// The tag that closes a command.
pub open spec fn cmd_close(id: Seq<char>) -> Seq<char> {
    "[/CMD-"@ + id + "]"@
}

/// The tag that opens a reply.
pub open spec fn reply_open(id: Seq<char>) -> Seq<char> {
    "[REPLY-"@ + id + "]"@
}

/// The tag that closes a reply.
pub open spec fn reply_close(id: Seq<char>) -> Seq<char> {
    "[/REPLY-"@ + id + "]"@
}

/// The part of a capture that follows the turn's own command.
pub open spec fn scoped(out: Seq<char>, id: Seq<char>) -> Seq<char> {
    match text::rfound(out, cmd_close(id)) {
        Some(i) => out.skip(i + cmd_close(id).len()),
        None => match text::rfound(out, cmd_open(id)) {
            Some(i) => out.skip(i + cmd_open(id).len()),
            None => out,
        },
    }
}

/// Narrow the search to the part of the capture that follows *this* turn's own
/// echoed command.
///
/// Ids are 4 hex characters, so over a long-lived pane one can recur, and a
/// stale reply from hours ago would otherwise be returned as the answer to a
/// question just asked. Anchors on the last `[/CMD-id]`, falls back to the last
/// `[CMD-id]`, then to the whole text.
pub fn scope_after_cmd<'a>(out: &'a str, id: &str) -> (r: &'a str)
    ensures
        r@ == scoped(out@, id@),
{
    let v = text::chars_of(out);
    let n: usize = v.len();
    let closer = text::chars_of(text::cat3("[/CMD-", id, "]").as_str());
    match text::rfind_at(&v, &closer) {
        Some(i) => {
            let r = out.substring_char(i + closer.len(), n);
            assert(r@ =~= out@.skip(i + closer@.len()));
            return r;
        },
        None => {},
    }
    let opener = text::chars_of(text::cat3("[CMD-", id, "]").as_str());
    match text::rfind_at(&v, &opener) {
        Some(i) => {
            let r = out.substring_char(i + opener.len(), n);
            assert(r@ =~= out@.skip(i + opener@.len()));
            r
        },
        None => out,
    }
}

/// How many of the lines come before the first boundary. The line at index 0 is
/// the remainder of the opener's own line, and never a boundary.
pub open spec fn kept_lines(lines: Seq<Seq<char>>, i: int) -> int
    decreases lines.len() - i,
{
    if i < 0 || i >= lines.len() {
        lines.len() as int
    } else if i > 0 && boundary(text::trimmed_start(lines[i])) {
        i
    } else {
        kept_lines(lines, i + 1)
    }
}

/// The reply recovered from what follows an opener whose closer is missing.
pub open spec fn recovered(rest: Seq<char>) -> Seq<char> {
    let lines = text::lines_of(rest);
    text::trimmed(text::joined(lines.take(kept_lines(lines, 0)), "\n"@))
}

/// The reply that a scoped, clean text holds for `id`, or why it holds none.
pub open spec fn extracted(out: Seq<char>, id: Seq<char>) -> Result<Seq<char>, Seq<char>> {
    match text::rfound(out, reply_open(id)) {
        None => Err("missing [REPLY-"@ + id + "]"@),
        Some(i) => {
            let rest = out.skip(i + reply_open(id).len());
            match text::found(rest, reply_close(id)) {
                Some(e) => Ok(text::trimmed(rest.take(e))),
                None => if recovered(rest).len() == 0 {
                    Err(
                        "missing [/REPLY-"@ + id
                            + "] and no recoverable body before the first TUI boundary"@,
                    )
                } else {
                    Ok(recovered(rest))
                },
            }
        },
    }
}

/// The reply that a raw capture holds for `id`.
pub open spec fn reply_in(raw: Seq<char>, id: Seq<char>) -> Result<Seq<char>, Seq<char>> {
    extracted(scoped(stripped(raw), id), id)
}

/// Extract the `[REPLY-id]…[/REPLY-id]` body from a raw pane capture: strip
/// ANSI, scope to after this turn's command, then extract.
pub fn extract_reply(out: &str, id: &str) -> (r: Result<String, String>)
    ensures
        text::result_view(r) == reply_in(out@, id@),
{
    let clean = strip_ansi(out);
    let scope = scope_after_cmd(clean.as_str(), id);
    extract_scoped(scope, id)
}

/// The lines that come before the first boundary.
fn lines_before_boundary(lines: Vec<String>) -> (r: Vec<String>)
    ensures
        text::views(r@) == text::views(lines@).take(kept_lines(text::views(lines@), 0)),
{
    let ghost all = text::views(lines@);
    let mut r: Vec<String> = Vec::new();
    let mut i: usize = 0;
    while i < lines.len()
        invariant
            i <= lines@.len(),
            all == text::views(lines@),
            text::views(r@) == all.take(i as int),
            kept_lines(all, i as int) == kept_lines(all, 0),
        decreases lines@.len() - i,
    {
        assert(all[i as int] == lines@[i as int]@);
        if i > 0 && is_tui_boundary(text::trim_start(lines[i].as_str()).as_str()) {
            return r;
        }
        let ghost before = r@;
        r.push(lines[i].clone());
        assert(text::views(r@) =~= text::views(before).push(all[i as int]));
        assert(all.take(i + 1) =~= all.take(i as int).push(all[i as int]));
        i = i + 1;
    }
    r
}

/// The extraction proper, over already-stripped, already-scoped text.
///
/// The newest opener is the real one. With the closer present after it, the body
/// is what stands between, and an empty body is a legitimate answer. With the
/// closer dropped, the body is everything up to the first TUI boundary.
pub fn extract_scoped(out: &str, id: &str) -> (r: Result<String, String>)
    ensures
        text::result_view(r) == extracted(out@, id@),
{
    let start_tag = text::cat3("[REPLY-", id, "]");
    let end_tag = text::cat3("[/REPLY-", id, "]");
    let v = text::chars_of(out);
    let open = text::chars_of(start_tag.as_str());
    let start: usize = match text::rfind_at(&v, &open) {
        Some(i) => i,
        None => return Err(text::cat3("missing [REPLY-", id, "]")),
    };
    let body_start: usize = start + open.len();
    let rest = text::tail_of(&v, body_start);
    let w = text::chars_of(rest.as_str());
    let close = text::chars_of(end_tag.as_str());
    match text::find_at(&w, &close, 0) {
        Some(e) => {
            let body = text::string_of(&w, 0, e);
            assert(body@ =~= rest@.take(e as int));
            return Ok(text::trim(body.as_str()));
        },
        None => {},
    }
    let kept = lines_before_boundary(text::lines(rest.as_str()));
    let body = text::trim(text::join(&kept, "\n").as_str());
    if body.as_str().is_empty() {
        return Err(
            text::cat3(
                "missing [/REPLY-",
                id,
                "] and no recoverable body before the first TUI boundary",
            ),
        );
    }
    Ok(body)
}

/// What the daemon types for a command.
pub open spec fn wrapped(id: Seq<char>, body: Seq<char>) -> Seq<char> {
    "[CMD-"@ + id + "][source=index]"@ + body + "[/CMD-"@ + id + "]"@
}

/// The wrapper this daemon types: the id is what follows `[CMD-`, terminated by
/// the first `]`, with nothing inserted before it, so the `[source=…]` token
/// goes after the opening tag.
pub fn wrap_command(id: &str, text: &str) -> (r: String)
    ensures
        r@ == wrapped(id@, text@),
{
    let mut r = text::cat3("[CMD-", id, "][source=index]");
    r.append(text);
    r.append("[/CMD-");
    r.append(id);
    r.append("]");
    r
}

// ---------------------------------------------------------------------------
// Laws
// ---------------------------------------------------------------------------

proof fn lemma_no_escape_no_change(s: Seq<char>)
    requires
        !has_escape(s),
    ensures
        stripped_once(s) == s,
    decreases s.len(),
{
    if s.len() > 0 {
        assert(s.skip(0) =~= s);
        assert(escape_len(s.skip(0)) <= 0);
        lemma_escape_len(s);
        let t = s.skip(1);
        assert forall|i: int| 0 <= i < t.len() implies #[trigger] escape_len(t.skip(i)) <= 0 by {
            assert(t.skip(i) =~= s.skip(i + 1));
        }
        lemma_no_escape_no_change(t);
        assert(seq![s[0]] + t =~= s);
    }
}

proof fn lemma_stripped_once_len(s: Seq<char>)
    ensures
        stripped_once(s).len() <= s.len(),
        has_escape(s) ==> stripped_once(s).len() < s.len(),
    decreases s.len(),
{
    lemma_escape_len(s);
    if s.len() == 0 {
    } else if escape_len(s) > 0 {
        lemma_stripped_once_len(s.skip(escape_len(s)));
    } else {
        let t = s.skip(1);
        lemma_stripped_once_len(t);
        if has_escape(s) {
            let i = choose|i: int| 0 <= i < s.len() && #[trigger] escape_len(s.skip(i)) > 0;
            assert(s.skip(0) =~= s);
            assert(t.skip(i - 1) =~= s.skip(i));
            assert(has_escape(t));
        }
    }
}

/// Stripping is idempotent: what it gives holds no escape sequence, and stripping it
/// again changes nothing.
pub proof fn law_strip_ansi_idempotent(s: Seq<char>)
    ensures
        !has_escape(stripped(s)),
        stripped(stripped(s)) == stripped(s),
    decreases s.len(),
{
    if has_escape(s) {
        lemma_stripped_once_len(s);
        law_strip_ansi_idempotent(stripped_once(s));
    }
}

/// Text without the ESC character is left as it is.
pub proof fn law_clean_text_is_untouched(s: Seq<char>)
    requires
        !s.contains(esc()),
    ensures
        stripped(s) == s,
{
    lemma_no_esc_no_escape(s);
}

proof fn lemma_no_esc_no_escape(s: Seq<char>)
    requires
        !s.contains(esc()),
    ensures
        !has_escape(s),
{
    assert forall|i: int| 0 <= i < s.len() implies #[trigger] escape_len(s.skip(i)) <= 0 by {
        lemma_escape_len(s.skip(i));
        assert(s.skip(i)[0] == s[i]);
    }
}

/// A tag whose only `[` is its first character does not overlap a copy of itself.
proof fn lemma_tag_at(before: Seq<char>, tag: Seq<char>, rest: Seq<char>, j: int)
    requires
        tag.len() > 0,
        tag[0] == '[',
        forall|k: int| 0 < k < tag.len() ==> tag[k] != '[',
        !text::has(rest, tag),
        j > before.len(),
    ensures
        !text::occurs_at(before + tag + rest, tag, j),
{
    let s = before + tag + rest;
    let b = before.len() as int;
    let n = tag.len() as int;
    if text::occurs_at(s, tag, j) {
        assert(s.subrange(j, j + n)[0] == s[j]);
        if j < b + n {
            assert(s[j] == tag[j - b]);
        } else {
            assert(rest.subrange(j - b - n, j - b) =~= s.subrange(j, j + n));
            assert(text::occurs_at(rest, tag, j - b - n));
        }
    }
}

proof fn lemma_last_tag(before: Seq<char>, tag: Seq<char>, rest: Seq<char>)
    requires
        tag.len() > 0,
        tag[0] == '[',
        forall|k: int| 0 < k < tag.len() ==> tag[k] != '[',
        !text::has(rest, tag),
    ensures
        text::rfound(before + tag + rest, tag) == Some(before.len() as int),
        (before + tag + rest).skip((before.len() + tag.len()) as int) == rest,
{
    let s = before + tag + rest;
    let b = before.len() as int;
    assert(s.subrange(b, b + tag.len()) =~= tag);
    assert forall|j: int| b < j <= s.len() implies !#[trigger] text::occurs_at(s, tag, j) by {
        lemma_tag_at(before, tag, rest, j);
    }
    text::lemma_rfind_is(s, tag, s.len() as int, b);
    assert(s.skip(b + tag.len()) =~= rest);
}

proof fn lemma_tags(id: Seq<char>)
    requires
        !id.contains('['),
    ensures
        cmd_close(id).len() > 0,
        cmd_close(id)[0] == '[',
        forall|k: int| 0 < k < cmd_close(id).len() ==> cmd_close(id)[k] != '[',
        reply_open(id).len() > 0,
        reply_open(id)[0] == '[',
        forall|k: int| 0 < k < reply_open(id).len() ==> reply_open(id)[k] != '[',
        reply_close(id).len() > 0,
        reply_close(id)[0] == '[',
        forall|k: int| 0 < k < reply_close(id).len() ==> reply_close(id)[k] != '[',
{
    reveal_strlit("[/CMD-");
    reveal_strlit("[REPLY-");
    reveal_strlit("[/REPLY-");
    reveal_strlit("]");
    assert forall|k: int| 0 <= k < id.len() implies id[k] != '[' by {
        assert(id.contains(id[k]));
    }
}

/// What stands above the turn's own command never reaches the extraction: the
/// scope of a capture is exactly what follows the command's last closing tag.
pub proof fn law_stale_replies_are_ignored(before: Seq<char>, rest: Seq<char>, id: Seq<char>)
    requires
        !id.contains('['),
        !text::has(rest, cmd_close(id)),
    ensures
        scoped(before + cmd_close(id) + rest, id) == rest,
{
    lemma_tags(id);
    lemma_last_tag(before, cmd_close(id), rest);
}

/// With both tags on screen the reply is what stands between the newest opener
/// and the closer that follows it, trimmed.
pub proof fn law_reply_between_tags(
    mid: Seq<char>,
    body: Seq<char>,
    after: Seq<char>,
    id: Seq<char>,
)
    requires
        !id.contains('['),
        !text::has(body, reply_close(id)),
        !text::has(body + reply_close(id) + after, reply_open(id)),
    ensures
        extracted(mid + reply_open(id) + (body + reply_close(id) + after), id) == Ok::<
            Seq<char>,
            Seq<char>,
        >(text::trimmed(body)),
{
    let close = reply_close(id);
    let rest = body + close + after;
    lemma_tags(id);
    lemma_last_tag(mid, reply_open(id), rest);
    let b = body.len() as int;
    assert(rest.subrange(b, b + close.len()) =~= close);
    assert forall|j: int| 0 <= j < b implies !#[trigger] text::occurs_at(rest, close, j) by {
        if text::occurs_at(rest, close, j) {
            if j + close.len() <= b {
                assert(body.subrange(j, j + close.len()) =~= rest.subrange(j, j + close.len()));
                assert(text::occurs_at(body, close, j));
            } else {
                assert(rest.subrange(j, j + close.len())[b - j] == rest[b]);
            }
        }
    }
    text::lemma_find_is(rest, close, 0, b);
    assert(rest.take(b) =~= body);
}

/// A command typed into the pane and answered between its tags is answered with
/// that text, whatever stood in the pane before.
pub proof fn law_typed_command_round_trip(
    before: Seq<char>,
    command: Seq<char>,
    mid: Seq<char>,
    body: Seq<char>,
    after: Seq<char>,
    id: Seq<char>,
)
    requires
        !id.contains('['),
        !text::has(body, reply_close(id)),
        !text::has(body + reply_close(id) + after, reply_open(id)),
        !text::has(mid + reply_open(id) + (body + reply_close(id) + after), cmd_close(id)),
    ensures
        ({
            let clean = before + wrapped(id, command) + (mid + reply_open(id) + (body + reply_close(
                id,
            ) + after));
            extracted(scoped(clean, id), id) == Ok::<Seq<char>, Seq<char>>(text::trimmed(body))
        }),
{
    let rest = mid + reply_open(id) + (body + reply_close(id) + after);
    let head = before + ("[CMD-"@ + id + "][source=index]"@ + command);
    assert(before + wrapped(id, command) + rest =~= head + cmd_close(id) + rest);
    law_stale_replies_are_ignored(head, rest, id);
    law_reply_between_tags(mid, body, after, id);
}

/// The id of a typed command is what stands between `[CMD-` and the first `]`.
pub proof fn law_wrapped_id(id: Seq<char>, command: Seq<char>)
    requires
        !id.contains(']'),
    ensures
        ({
            let after = wrapped(id, command).skip("[CMD-"@.len() as int);
            after.take(text::index_of(after, ']')) == id
        }),
{
    let w = wrapped(id, command);
    reveal_strlit("[CMD-");
    reveal_strlit("][source=index]");
    let after = w.skip("[CMD-"@.len() as int);
    assert forall|j: int| 0 <= j < id.len() implies after[j] != ']' by {
        assert(after[j] == id[j]);
        assert(id.contains(id[j]));
    }
    assert(after[id.len() as int] == ']');
    text::lemma_index_is(after, ']', id.len() as int);
    assert(after.take(id.len() as int) =~= id);
}

proof fn lemma_kept_lines(lines: Seq<Seq<char>>, i: int)
    requires
        0 <= i <= lines.len(),
    ensures
        i <= kept_lines(lines, i) <= lines.len(),
        forall|j: int| i <= j < kept_lines(lines, i) && j > 0 ==> !boundary(
            text::trimmed_start(#[trigger] lines[j]),
        ),
        0 < kept_lines(lines, i) < lines.len() ==> boundary(
            text::trimmed_start(lines[kept_lines(lines, i)]),
        ),
    decreases lines.len() - i,
{
    if i < lines.len() && !(i > 0 && boundary(text::trimmed_start(lines[i]))) {
        lemma_kept_lines(lines, i + 1);
    }
}

/// The recovery of a reply keeps the opener's own line, whatever it looks like,
/// keeps no later line that is a boundary, and stops at a boundary or at the end.
pub proof fn law_recovery_stops_at_the_first_boundary(lines: Seq<Seq<char>>)
    requires
        lines.len() > 0,
    ensures
        1 <= kept_lines(lines, 0) <= lines.len(),
        forall|j: int| 0 < j < kept_lines(lines, 0) ==> !boundary(
            text::trimmed_start(#[trigger] lines[j]),
        ),
        kept_lines(lines, 0) < lines.len() ==> boundary(
            text::trimmed_start(lines[kept_lines(lines, 0)]),
        ),
{
    lemma_kept_lines(lines, 0);
    lemma_kept_lines(lines, 1);
}

/// The four tags, and a command as it is typed.
pub proof fn law_tags(id: Seq<char>, command: Seq<char>)
    ensures
        cmd_open(id) == "[CMD-"@ + id + "]"@,
        cmd_close(id) == "[/CMD-"@ + id + "]"@,
        reply_open(id) == "[REPLY-"@ + id + "]"@,
        reply_close(id) == "[/REPLY-"@ + id + "]"@,
        wrapped(id, command) == "[CMD-"@ + id + "]"@ + "[source=index]"@ + command + "[/CMD-"@ + id
            + "]"@,
{
    reveal_strlit("][source=index]");
    reveal_strlit("[source=index]");
    reveal_strlit("]");
    assert("][source=index]"@ =~= "]"@ + "[source=index]"@);
    assert(wrapped(id, command) =~= "[CMD-"@ + id + "]"@ + "[source=index]"@ + command + "[/CMD-"@
        + id + "]"@);
}

/// A line ends a reply exactly where it begins with one of three characters, or with
/// the tag of a reply behind its bullet, or with the tag of a command, or where it
/// holds what is shown while a turn is still streaming.
pub proof fn law_what_ends_a_reply(line: Seq<char>)
    ensures
        boundary(line) == ({
            ||| line.len() > 0 && (line[0] == '✻' || line[0] == '❯' || line[0] == '─')
            ||| exists|rest: Seq<char>| line == #[trigger] ("● [REPLY-"@ + rest)
            ||| exists|rest: Seq<char>| line == #[trigger] ("[CMD-"@ + rest)
            ||| exists|a: Seq<char>, b: Seq<char>| line == #[trigger] (a + "esc to interrupt"@ + b)
        }),
{
    lemma_starts(line, "● [REPLY-"@);
    lemma_starts(line, "[CMD-"@);
    text::law_has(line, "esc to interrupt"@);
}

proof fn lemma_starts(s: Seq<char>, p: Seq<char>)
    ensures
        text::occurs_at(s, p, 0) == (exists|rest: Seq<char>| s == #[trigger] (p + rest)),
{
    if text::occurs_at(s, p, 0) {
        assert(s =~= p + s.skip(p.len() as int)) by {
            assert forall|k: int| 0 <= k < p.len() implies s[k] == p[k] by {
                assert(s.subrange(0, p.len() as int)[k] == s[k]);
            }
        }
    }
    if exists|rest: Seq<char>| s == #[trigger] (p + rest) {
        assert(s.subrange(0, p.len() as int) =~= p);
    }
}

proof fn lemma_lines_then(v: Seq<Seq<char>>, rest: Seq<char>)
    requires
        v.len() > 0,
        forall|i: int| 0 <= i < v.len() ==> !(#[trigger] v[i]).contains('\n'),
        forall|i: int| 0 <= i < v.len() && (#[trigger] v[i]).len() > 0 ==> v[i].last() != '\r',
    ensures
        text::lines_of(text::joined(v, "\n"@) + "\n"@ + rest) == v + text::lines_of(rest),
    decreases v.len(),
{
    reveal_strlit("\n");
    let nl = "\n"@;
    assert(nl =~= seq!['\n']);
    let w = v.drop_last();
    let x = v.last();
    assert(v =~= w.push(x));
    assert(!v[v.len() - 1].contains('\n'));
    text::law_lines(x, rest);
    text::law_joined(w, nl, x);
    if w.len() == 0 {
        assert(v =~= seq![x]);
    } else {
        assert forall|i: int| 0 <= i < w.len() implies !(#[trigger] w[i]).contains('\n') by {
            assert(!v[i].contains('\n'));
        }
        assert forall|i: int| 0 <= i < w.len() && (#[trigger] w[i]).len() > 0 implies w[i].last()
            != '\r' by {
            assert(v[i].last() != '\r');
        }
        lemma_lines_then(w, x + nl + rest);
        assert(text::joined(v, nl) + nl + rest =~= text::joined(w, nl) + nl + (x + nl + rest));
        assert(w + (seq![x] + text::lines_of(rest)) =~= v + text::lines_of(rest));
    }
}

proof fn lemma_kept_is(all: Seq<Seq<char>>, n: int)
    requires
        0 < n <= all.len(),
        forall|j: int| 0 < j < n ==> !boundary(text::trimmed_start(#[trigger] all[j])),
        n < all.len() ==> boundary(text::trimmed_start(all[n])),
    ensures
        kept_lines(all, 0) == n,
{
    lemma_kept_lines(all, 0);
    lemma_kept_lines(all, 1);
    let k = kept_lines(all, 0);
    if k < n {
        assert(!boundary(text::trimmed_start(all[k])));
    }
    if k > n {
        assert(!boundary(text::trimmed_start(all[n])));
    }
}

/// A reply whose closing tag never came is recovered whole: every line behind the
/// opening tag, up to the first that begins with the mark of a finished turn, as they
/// stand, without white space at the two ends. No line before that is taken for
/// anything else unless it begins with one of the three characters or the two tags, or
/// holds what is shown while a turn is streaming.
pub proof fn law_an_unclosed_reply_is_recovered_whole(
    mid: Seq<char>,
    lines: Seq<Seq<char>>,
    indent: Seq<char>,
    summary: Seq<char>,
    after: Seq<char>,
    id: Seq<char>,
)
    requires
        !id.contains('['),
        lines.len() > 0,
        forall|i: int| 0 <= i < lines.len() ==> !(#[trigger] lines[i]).contains('\n'),
        forall|i: int|
            0 <= i < lines.len() && (#[trigger] lines[i]).len() > 0 ==> lines[i].last() != '\r',
        forall|i: int|
            0 < i < lines.len() ==> ({
                let t = text::trimmed_start(#[trigger] lines[i]);
                &&& t.len() > 0 ==> t[0] != '✻' && t[0] != '❯' && t[0] != '─'
                &&& t.len() >= 9 ==> t.take(9) != "● [REPLY-"@
                &&& t.len() >= 5 ==> t.take(5) != "[CMD-"@
                &&& !text::has(t, "esc to interrupt"@)
            }),
        forall|i: int| 0 <= i < indent.len() ==> text::white(#[trigger] indent[i]),
        !indent.contains('\n') && !summary.contains('\n'),
        summary.len() > 0 ==> summary.last() != '\r',
        ({
            let rest = text::joined(lines, "\n"@) + "\n"@ + (indent + seq!['✻'] + summary + "\n"@
                + after);
            &&& !text::has(rest, reply_close(id))
            &&& !text::has(rest, reply_open(id))
        }),
    ensures
        ({
            let body = text::trimmed(text::joined(lines, "\n"@));
            extracted(
                mid + reply_open(id) + (text::joined(lines, "\n"@) + "\n"@ + (indent + seq!['✻']
                    + summary + "\n"@ + after)),
                id,
            ) == (if body.len() > 0 {
                Ok::<Seq<char>, Seq<char>>(body)
            } else {
                Err(
                    "missing [/REPLY-"@ + id
                        + "] and no recoverable body before the first TUI boundary"@,
                )
            })
        }),
{
    reveal_strlit("\n");
    reveal_strlit("● [REPLY-");
    reveal_strlit("[CMD-");
    let nl = "\n"@;
    assert(nl =~= seq!['\n']);
    let stop = indent + seq!['✻'] + summary;
    let tail = stop + nl + after;
    let rest = text::joined(lines, nl) + nl + tail;
    lemma_tags(id);
    lemma_last_tag(mid, reply_open(id), rest);
    text::lemma_found(rest, reply_close(id));
    lemma_lines_then(lines, tail);
    assert(!stop.contains('\n')) by {
        if stop.contains('\n') {
            let k = choose|k: int| 0 <= k < stop.len() && stop[k] == '\n';
            if k < indent.len() {
                assert(indent.contains(indent[k]));
            } else if k > indent.len() {
                assert(summary[k - indent.len() - 1] == '\n');
                assert(summary.contains(summary[k - indent.len() - 1]));
            }
        }
    }
    text::law_lines(stop, after);
    let all = text::lines_of(rest);
    let n = lines.len() as int;
    assert(all =~= lines + (seq![stop] + text::lines_of(after)));
    assert(all[n] == stop);
    text::lemma_start_is(indent, seq!['✻'] + summary);
    assert(stop =~= indent + (seq!['✻'] + summary));
    assert(boundary(text::trimmed_start(all[n])));
    assert forall|j: int| 0 < j < n implies !boundary(text::trimmed_start(#[trigger] all[j])) by {
        assert(all[j] == lines[j]);
        let t = text::trimmed_start(lines[j]);
        if text::occurs_at(t, "● [REPLY-"@, 0) {
            assert(t.take(9) =~= t.subrange(0, 9));
        }
        if text::occurs_at(t, "[CMD-"@, 0) {
            assert(t.take(5) =~= t.subrange(0, 5));
        }
    }
    lemma_kept_is(all, n);
    assert(all.take(n) =~= lines);
}

/// The same of a reply that nothing follows: it is recovered to its end.
pub proof fn law_an_unclosed_reply_at_the_end_is_recovered_whole(
    mid: Seq<char>,
    lines: Seq<Seq<char>>,
    id: Seq<char>,
)
    requires
        !id.contains('['),
        lines.len() > 0,
        lines.last().len() > 0,
        forall|i: int| 0 <= i < lines.len() ==> !(#[trigger] lines[i]).contains('\n'),
        forall|i: int|
            0 <= i < lines.len() && (#[trigger] lines[i]).len() > 0 ==> lines[i].last() != '\r',
        forall|i: int|
            0 < i < lines.len() ==> ({
                let t = text::trimmed_start(#[trigger] lines[i]);
                &&& t.len() > 0 ==> t[0] != '✻' && t[0] != '❯' && t[0] != '─'
                &&& t.len() >= 9 ==> t.take(9) != "● [REPLY-"@
                &&& t.len() >= 5 ==> t.take(5) != "[CMD-"@
                &&& !text::has(t, "esc to interrupt"@)
            }),
        !text::has(text::joined(lines, "\n"@), reply_close(id)),
        !text::has(text::joined(lines, "\n"@), reply_open(id)),
    ensures
        ({
            let body = text::trimmed(text::joined(lines, "\n"@));
            extracted(mid + reply_open(id) + text::joined(lines, "\n"@), id) == (if body.len() > 0 {
                Ok::<Seq<char>, Seq<char>>(body)
            } else {
                Err(
                    "missing [/REPLY-"@ + id
                        + "] and no recoverable body before the first TUI boundary"@,
                )
            })
        }),
{
    reveal_strlit("\n");
    reveal_strlit("● [REPLY-");
    reveal_strlit("[CMD-");
    let nl = "\n"@;
    assert(nl =~= seq!['\n']);
    let rest = text::joined(lines, nl);
    lemma_tags(id);
    lemma_last_tag(mid, reply_open(id), rest);
    text::lemma_found(rest, reply_close(id));
    let all = text::lines_of(rest);
    let n = lines.len() as int;
    let w = lines.drop_last();
    let x = lines.last();
    assert(!lines[n - 1].contains('\n'));
    text::law_lines(x, Seq::empty());
    text::law_joined(w, nl, x);
    assert(lines =~= w.push(x));
    if w.len() == 0 {
        assert(lines =~= seq![x]);
    } else {
        assert forall|i: int| 0 <= i < w.len() implies !(#[trigger] w[i]).contains('\n') by {
            assert(!lines[i].contains('\n'));
        }
        assert forall|i: int| 0 <= i < w.len() && (#[trigger] w[i]).len() > 0 implies w[i].last()
            != '\r' by {
            assert(lines[i].last() != '\r');
        }
        lemma_lines_then(w, x);
        assert(w + seq![x] =~= lines);
    }
    assert(all == lines);
    assert forall|j: int| 0 < j < n implies !boundary(text::trimmed_start(#[trigger] all[j])) by {
        let t = text::trimmed_start(lines[j]);
        if text::occurs_at(t, "● [REPLY-"@, 0) {
            assert(t.take(9) =~= t.subrange(0, 9));
        }
        if text::occurs_at(t, "[CMD-"@, 0) {
            assert(t.take(5) =~= t.subrange(0, 5));
        }
    }
    lemma_kept_is(all, n);
    assert(all.take(n) =~= lines);
}

/// Without its opening tag there is no reply, whatever else stands there.
pub proof fn law_no_opening_tag_no_reply(out: Seq<char>, id: Seq<char>)
    requires
        !text::has(out, reply_open(id)),
    ensures
        extracted(out, id) == Err::<Seq<char>, Seq<char>>("missing [REPLY-"@ + id + "]"@),
{
    text::law_searches_find_the_first_and_the_last(out, reply_open(id));
    match text::rfound(out, reply_open(id)) {
        Some(k) => {
            assert(text::occurs_at(out, reply_open(id), k));
        },
        None => {},
    }
}

/// What belongs to a command is what stands behind the last closing tag of it, or, where
/// there is none, behind its last opening tag, or, where there is none either,
/// everything.
pub proof fn law_scope(before: Seq<char>, rest: Seq<char>, id: Seq<char>)
    requires
        !id.contains('['),
    ensures
        !text::has(rest, cmd_close(id)) ==> scoped(before + cmd_close(id) + rest, id) == rest,
        !text::has(before + cmd_open(id) + rest, cmd_close(id)) && !text::has(rest, cmd_open(id))
            ==> scoped(before + cmd_open(id) + rest, id) == rest,
        !text::has(rest, cmd_close(id)) && !text::has(rest, cmd_open(id)) ==> scoped(rest, id)
            == rest,
{
    lemma_tags(id);
    if !text::has(rest, cmd_close(id)) {
        lemma_last_tag(before, cmd_close(id), rest);
    }
    reveal_strlit("[CMD-");
    reveal_strlit("]");
    assert forall|k: int| 0 <= k < id.len() implies id[k] != '[' by {
        assert(id.contains(id[k]));
    }
    let all = before + cmd_open(id) + rest;
    text::law_searches_find_the_first_and_the_last(all, cmd_close(id));
    match text::rfound(all, cmd_close(id)) {
        Some(k) => {
            assert(text::occurs_at(all, cmd_close(id), k));
        },
        None => {},
    }
    if !text::has(rest, cmd_open(id)) {
        lemma_last_tag(before, cmd_open(id), rest);
    }
    text::law_searches_find_the_first_and_the_last(rest, cmd_close(id));
    match text::rfound(rest, cmd_close(id)) {
        Some(k) => {
            assert(text::occurs_at(rest, cmd_close(id), k));
        },
        None => {},
    }
    text::law_searches_find_the_first_and_the_last(rest, cmd_open(id));
    match text::rfound(rest, cmd_open(id)) {
        Some(k) => {
            assert(text::occurs_at(rest, cmd_open(id), k));
        },
        None => {},
    }
}

proof fn lemma_class_end_is(s: Seq<char>, i: int, n: int, class: spec_fn(char) -> bool)
    requires
        0 <= i <= n <= s.len(),
        forall|k: int| i <= k < n ==> class(#[trigger] s[k]),
        n < s.len() ==> !class(s[n]),
    ensures
        class_end(s, i, class) == n,
    decreases n - i,
{
    if i < n {
        assert(class(s[i]));
        lemma_class_end_is(s, i + 1, n, class);
    }
}

/// A control sequence: an escape, a bracket, digits and separators, then characters
/// from the blank to the slash, and one from the at sign to the tilde.
pub open spec fn is_control_sequence(
    e: Seq<char>,
    params: Seq<char>,
    middle: Seq<char>,
    last: char,
) -> bool {
    &&& e == seq!['\u{1b}', '['] + params + middle + seq![last]
    &&& forall|k: int|
        0 <= k < params.len() ==> 48 <= (#[trigger] params[k]) as int <= 57 || params[k] == ';'
            || params[k] == '?'
    &&& forall|k: int| 0 <= k < middle.len() ==> 32 <= (#[trigger] middle[k]) as int <= 47
    &&& 64 <= last as int <= 126
}

/// An operating system command: an escape, a closing bracket, anything but a bell and an
/// escape, and a bell or an escape with a backslash.
pub open spec fn is_system_command(e: Seq<char>, content: Seq<char>) -> bool {
    &&& !content.contains('\u{7}') && !content.contains('\u{1b}')
    &&& e == seq!['\u{1b}', ']'] + content + seq!['\u{7}'] || e == seq!['\u{1b}', ']'] + content
        + seq!['\u{1b}', '\\']
}

proof fn lemma_control_sequence(
    e: Seq<char>,
    params: Seq<char>,
    middle: Seq<char>,
    last: char,
    rest: Seq<char>,
)
    requires
        is_control_sequence(e, params, middle, last),
    ensures
        escape_len(e + rest) == e.len(),
{
    let s = e + rest;
    let f = |c: char| '0' <= c <= '9' || c == ';' || c == '?';
    let g = |c: char| ' ' <= c <= '/';
    let p = 2 + params.len() as int;
    let q = p + middle.len() as int;
    assert(s[0] == '\u{1b}' && s[1] == '[');
    assert forall|k: int| 2 <= k < p implies f(#[trigger] s[k]) by {
        assert(s[k] == params[k - 2]);
    }
    assert forall|k: int| p <= k < q implies g(#[trigger] s[k]) by {
        assert(s[k] == middle[k - p]);
    }
    assert(s[q] == last);
    assert(!f(s[p])) by {
        if p < q {
            assert(s[p] == middle[0]);
        }
    }
    lemma_class_end_is(s, 2, p, f);
    lemma_class_end_is(s, p, q, g);
}

proof fn lemma_system_command(e: Seq<char>, content: Seq<char>, rest: Seq<char>)
    requires
        is_system_command(e, content),
    ensures
        escape_len(e + rest) == e.len(),
{
    let s = e + rest;
    let f = |c: char| c != '\u{7}' && c != esc();
    let p = 2 + content.len() as int;
    assert(s[0] == '\u{1b}' && s[1] == ']');
    assert forall|k: int| 2 <= k < p implies f(#[trigger] s[k]) by {
        assert(s[k] == content[k - 2]);
        assert(content.contains(content[k - 2]));
    }
    lemma_class_end_is(s, 2, p, f);
}

/// Text up to the next escape stays as it is, each control sequence and each operating
/// system command goes, whole and alone, and an escape that begins neither stays.
pub proof fn law_only_escape_sequences_are_removed(
    a: Seq<char>,
    e: Seq<char>,
    params: Seq<char>,
    middle: Seq<char>,
    last: char,
    rest: Seq<char>,
    c: char,
)
    requires
        !a.contains('\u{1b}'),
        is_control_sequence(e, params, middle, last) || is_system_command(e, params),
        c != '[' && c != ']',
    ensures
        stripped_once(a + e + rest) == a + stripped_once(rest),
        stripped_once(a + seq!['\u{1b}', c] + rest) == a + seq!['\u{1b}'] + stripped_once(
            seq![c] + rest,
        ),
    decreases a.len(),
{
    if a.len() == 0 {
        if is_control_sequence(e, params, middle, last) {
            lemma_control_sequence(e, params, middle, last, rest);
        } else {
            lemma_system_command(e, params, rest);
        }
        assert(a + e + rest =~= e + rest);
        assert((e + rest).skip(e.len() as int) =~= rest);
        assert(a + stripped_once(rest) =~= stripped_once(rest));
        let s = a + seq!['\u{1b}', c] + rest;
        assert(s.skip(1) =~= seq![c] + rest);
        assert(seq![s[0]] + stripped_once(s.skip(1)) =~= a + seq!['\u{1b}'] + stripped_once(
            seq![c] + rest,
        ));
    } else {
        let t = a.skip(1);
        assert(!t.contains('\u{1b}')) by {
            if t.contains('\u{1b}') {
                let k = choose|k: int| 0 <= k < t.len() && t[k] == '\u{1b}';
                assert(a[k + 1] == '\u{1b}');
            }
        }
        law_only_escape_sequences_are_removed(t, e, params, middle, last, rest, c);
        assert(a.contains(a[0]));
        let s = a + e + rest;
        lemma_escape_len(s);
        assert(s[0] == a[0]);
        assert(s.skip(1) =~= t + e + rest);
        assert(seq![a[0]] + (t + stripped_once(rest)) =~= a + stripped_once(rest));
        let u = a + seq!['\u{1b}', c] + rest;
        lemma_escape_len(u);
        assert(u[0] == a[0]);
        assert(u.skip(1) =~= t + seq!['\u{1b}', c] + rest);
        assert(seq![a[0]] + (t + seq!['\u{1b}'] + stripped_once(seq![c] + rest)) =~= a + seq![
            '\u{1b}',
        ] + stripped_once(seq![c] + rest));
    }
}

/// A text in which one escape sequence stands is that text without it.
pub proof fn law_an_escape_sequence_leaves_nothing(
    a: Seq<char>,
    e: Seq<char>,
    params: Seq<char>,
    middle: Seq<char>,
    last: char,
    b: Seq<char>,
)
    requires
        !a.contains('\u{1b}'),
        !b.contains('\u{1b}'),
        is_control_sequence(e, params, middle, last) || is_system_command(e, params),
    ensures
        stripped(a + e + b) == a + b,
{
    let s = a + e + b;
    law_only_escape_sequences_are_removed(a, e, params, middle, last, b, 'x');
    lemma_no_esc_no_escape(b);
    lemma_no_escape_no_change(b);
    assert(!(a + b).contains('\u{1b}')) by {
        if (a + b).contains('\u{1b}') {
            let k = choose|k: int| 0 <= k < (a + b).len() && (a + b)[k] == '\u{1b}';
            if k < a.len() {
                assert(a.contains(a[k]));
            } else {
                assert(b.contains(b[k - a.len()]));
            }
        }
    }
    lemma_no_esc_no_escape(a + b);
    assert(has_escape(s)) by {
        if is_control_sequence(e, params, middle, last) {
            lemma_control_sequence(e, params, middle, last, b);
        } else {
            lemma_system_command(e, params, b);
        }
        assert(s.skip(a.len() as int) =~= e + b);
        assert(escape_len(s.skip(a.len() as int)) > 0);
    }
    assert(stripped(s) == stripped(a + b));
}

/// What the reader of a screen gives, on what it is given: whether a line ends a reply,
/// whether a pane is idle, and a command as it is typed.
pub proof fn law_what_the_reader_gives(
    line: &str,
    is_boundary: bool,
    pane: &str,
    marker: &str,
    is_idle: bool,
    id: &str,
    command: &str,
    typed: String,
)
    ensures
        call_ensures(is_tui_boundary, (line,), is_boundary) ==> is_boundary == ({
            ||| line@.len() > 0 && (line@[0] == '✻' || line@[0] == '❯' || line@[0] == '─')
            ||| exists|rest: Seq<char>| line@ == #[trigger] ("● [REPLY-"@ + rest)
            ||| exists|rest: Seq<char>| line@ == #[trigger] ("[CMD-"@ + rest)
            ||| exists|a: Seq<char>, b: Seq<char>| line@ == #[trigger] (a + "esc to interrupt"@ + b)
        }),
        call_ensures(pane_is_idle, (pane, marker), is_idle) ==> is_idle == (marker@.len() > 0 && !(
        exists|a: Seq<char>, b: Seq<char>| pane@ == #[trigger] (a + marker@ + b))),
        call_ensures(wrap_command, (id, command), typed) ==> typed@ == "[CMD-"@ + id@ + "]"@
            + "[source=index]"@ + command@ + "[/CMD-"@ + id@ + "]"@,
{
    law_what_ends_a_reply(line@);
    text::law_has(pane@, marker@);
    law_tags(id@, command@);
}

/// A reply is read off the screen: behind the command and between its tags, as it
/// stands, without white space at its two ends; where its closing tag never came, every
/// line up to the mark of a finished turn.
pub proof fn law_a_reply_is_read_off_the_screen(
    out: &str,
    id: &str,
    r: Result<String, String>,
    before: Seq<char>,
    command: Seq<char>,
    mid: Seq<char>,
    body: Seq<char>,
    after: Seq<char>,
)
    requires
        call_ensures(extract_reply, (out, id), r),
        !out@.contains('\u{1b}'),
        !id@.contains('['),
        ({
            let open = "[REPLY-"@ + id@ + "]"@;
            let close = "[/REPLY-"@ + id@ + "]"@;
            &&& out@ == before + ("[CMD-"@ + id@ + "][source=index]"@ + command + "[/CMD-"@ + id@
                + "]"@) + (mid + open + (body + close + after))
            &&& !text::has(body, close)
            &&& !text::has(body + close + after, open)
            &&& !text::has(mid + open + (body + close + after), "[/CMD-"@ + id@ + "]"@)
        }),
    ensures
        r matches Ok(reply) && reply@ == text::trimmed(body),
{
    law_clean_text_is_untouched(out@);
    law_typed_command_round_trip(before, command, mid, body, after, id@);
}

/// Stripping goes on until no escape sequence is left: what removing them once brings
/// together is removed too.
pub proof fn law_stripping_goes_on_until_none_is_left(
    s: Seq<char>,
    a: Seq<char>,
    e: Seq<char>,
    params: Seq<char>,
    middle: Seq<char>,
    last: char,
    b: Seq<char>,
)
    ensures
        stripped(s) == stripped(stripped_once(s)),
        is_control_sequence(e, params, middle, last) || is_system_command(e, params) ==> has_escape(
            a + e + b,
        ),
{
    if !has_escape(s) {
        lemma_no_escape_no_change(s);
    }
    if is_control_sequence(e, params, middle, last) || is_system_command(e, params) {
        if is_control_sequence(e, params, middle, last) {
            lemma_control_sequence(e, params, middle, last, b);
        } else {
            lemma_system_command(e, params, b);
        }
        let t = a + e + b;
        assert(t.skip(a.len() as int) =~= e + b);
        assert(escape_len(t.skip(a.len() as int)) > 0);
    }
}

} // verus!
