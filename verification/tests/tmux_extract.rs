//! Reading the answer off a terminal screen.

use indexd::tmux::extract::{
    extract_reply, extract_scoped, is_tui_boundary, pane_is_idle, scope_after_cmd, strip_ansi,
    wrap_command, STREAMING_MARKER,
};
use indexd::tmux::pane::capture_args;

const ID: &str = "a1b2";

#[test]
fn clean_open_and_close() {
    let pane = "\
> [CMD-a1b2][source=index]what's on my calendar[/CMD-a1b2]

● [REPLY-a1b2]Three things: standup at 9, dentist at 2, dinner at 7.
[/REPLY-a1b2]

❯ ";
    assert_eq!(
        extract_reply(pane, ID).unwrap(),
        "Three things: standup at 9, dentist at 2, dinner at 7."
    );
}

#[test]
fn single_line_reply_with_closer_is_not_empty() {
    let pane = "[CMD-a1b2][source=index]time?[/CMD-a1b2]\n● [REPLY-a1b2]It is 4pm.[/REPLY-a1b2]\n";
    assert_eq!(extract_reply(pane, ID).unwrap(), "It is 4pm.");
}

#[test]
fn closer_dropped_then_turn_summary_boundary() {
    let pane = "\
> [CMD-a1b2][source=index]summarize[/CMD-a1b2]
● [REPLY-a1b2]Line one
  Line two
✻ Crunched for 50s
❯ ";
    assert_eq!(extract_reply(pane, ID).unwrap(), "Line one\n  Line two");
}

/// The `i > 0` guard: a single-line reply whose closer was dropped and whose
/// next line is the input box must not truncate to empty.
#[test]
fn closer_dropped_single_line_reply_survives_the_i_gt_zero_guard() {
    let pane = "[CMD-a1b2][source=index]time?[/CMD-a1b2]\n● [REPLY-a1b2]It is 4pm.\n❯ \n";
    assert_eq!(extract_reply(pane, ID).unwrap(), "It is 4pm.");
}

/// The same guard, pinned: when the answer's own first line *looks* like
/// chrome — a rule the model drew, the prompt glyph quoted back — index 0
/// must still be kept, because index 0 is the opener's own line and can
/// never be a boundary. Testing it as one truncates the reply to empty.
#[test]
fn the_i_gt_zero_guard_keeps_a_first_line_that_looks_like_chrome() {
    let pane = "\
> [CMD-a1b2][source=index]what is the prompt glyph[/CMD-a1b2]
● [REPLY-a1b2]❯ — that is the prompt glyph.
✻ Crunched for 12s
❯ ";
    assert_eq!(
        extract_reply(pane, ID).unwrap(),
        "❯ — that is the prompt glyph."
    );

    let rule = "[CMD-a1b2][source=index]x[/CMD-a1b2]\n● [REPLY-a1b2]─ standup at 9\n✻ Crunched for 3s\n";
    assert_eq!(extract_reply(rule, ID).unwrap(), "─ standup at 9");
}

#[test]
fn closer_dropped_reply_is_the_last_thing_on_screen() {
    let pane = "[CMD-a1b2][source=index]summarize[/CMD-a1b2]\n● [REPLY-a1b2]All done\nsecond line\n";
    assert_eq!(extract_reply(pane, ID).unwrap(), "All done\nsecond line");
}

#[test]
fn closer_dropped_but_pane_still_streaming_is_not_idle() {
    let pane = "● [REPLY-a1b2]partial answer so far\n✻ Crunching… (esc to interrupt)";
    assert!(!pane_is_idle(pane, STREAMING_MARKER), "a streaming pane is never idle");
    // The boundary also stops the body at the spinner line.
    assert_eq!(extract_reply(pane, ID).unwrap(), "partial answer so far");
}

#[test]
fn two_openers_with_the_same_id_take_the_later_body() {
    let pane = "\
[CMD-a1b2][source=index]ask again[/CMD-a1b2]
● [REPLY-a1b2]first attempt
❯
● [REPLY-a1b2]second attempt
[/REPLY-a1b2]";
    assert_eq!(extract_reply(pane, ID).unwrap(), "second attempt");
}

/// A stale reply with the same id, sitting ABOVE this turn's echoed
/// command, must never be returned as the answer.
#[test]
fn stale_reply_above_this_turns_cmd_is_ignored() {
    let pane = "\
● [REPLY-a1b2]stale answer from hours ago
[/REPLY-a1b2]
❯
> [CMD-a1b2][source=index]what time is it[/CMD-a1b2]
● [REPLY-a1b2]It is 4pm.
[/REPLY-a1b2]
❯ ";
    assert_eq!(extract_reply(pane, ID).unwrap(), "It is 4pm.");
}

#[test]
fn scope_after_cmd_prefers_the_closer_then_the_opener_then_offset_zero() {
    // Anchored on [/CMD-id].
    let both = "before [CMD-a1b2][source=index]hi[/CMD-a1b2] after";
    assert_eq!(scope_after_cmd(both, ID), " after");
    // Only the opener has been echoed so far (mid-render).
    let opener_only = "before [CMD-a1b2][source=index]hi";
    assert_eq!(scope_after_cmd(opener_only, ID), "[source=index]hi");
    // Neither present: search the whole buffer.
    let neither = "nothing to anchor on";
    assert_eq!(scope_after_cmd(neither, ID), neither);
    // The LAST anchor wins.
    let twice = "[/CMD-a1b2] one [/CMD-a1b2] two";
    assert_eq!(scope_after_cmd(twice, ID), " two");
}

/// Without `-J` a closer that lands on a column boundary is split across two
/// rows and a `contains` check misses it forever. This asserts the split is
/// genuinely invisible, and that the capture we issue therefore passes `-J`.
#[test]
fn a_closer_split_across_rows_is_invisible_so_capture_must_use_dash_j() {
    let split = "[CMD-a1b2][source=index]hi[/CMD-a1b2]\n● [REPLY-a1b2]the answer\n[/REPLY-a1b\n2]\n";
    assert!(
        !split.contains("[/REPLY-a1b2]"),
        "a wrapped closer cannot be seen by a contains check"
    );
    assert!(
        capture_args("0:index MASTER").contains(&"-J".to_string()),
        "capture-pane must pass -J so wrapped lines are joined"
    );
}

#[test]
fn ansi_csi_and_osc_interleaved_in_the_tags_still_match_after_stripping() {
    let pane = "\u{1b}[38;5;123m● [REPLY-\u{1b}[0ma1b2]\u{1b}[2Kthe answer\u{1b}]0;a title\u{7}\n[/REPLY-\u{1b}[1ma1b2]\n";
    assert_eq!(extract_reply(pane, ID).unwrap(), "the answer");
}

#[test]
fn no_opener_at_all_is_an_error_not_a_panic() {
    let pane = "> [CMD-a1b2][source=index]hello[/CMD-a1b2]\n✻ Crunching… (esc to interrupt)";
    let err = extract_reply(pane, ID).unwrap_err();
    assert!(err.contains("missing [REPLY-a1b2]"), "got: {err}");
}

#[test]
fn empty_body_with_closer_present_is_ok_not_an_error() {
    let pane = "[CMD-a1b2][source=index]hi[/CMD-a1b2]\n● [REPLY-a1b2][/REPLY-a1b2]\n";
    assert_eq!(extract_reply(pane, ID).unwrap(), "");
}

#[test]
fn empty_body_with_the_closer_dropped_is_an_error() {
    let pane = "[CMD-a1b2][source=index]hi[/CMD-a1b2]\n● [REPLY-a1b2]\n❯ \n";
    assert!(extract_reply(pane, ID).unwrap_err().contains("no recoverable body"));
}


#[test]
fn strip_ansi_handles_sgr_csi_and_osc() {
    assert_eq!(strip_ansi("\u{1b}[38;5;123mHello\u{1b}[0m World"), "Hello World");
    // Cursor movement and erase-line, not only colours.
    assert_eq!(strip_ansi("a\u{1b}[2Kb\u{1b}[1;2Hc\u{1b}[?25lD"), "abcD");
    // OSC terminated by BEL and by ST (ESC \).
    assert_eq!(strip_ansi("x\u{1b}]0;window title\u{7}y"), "xy");
    assert_eq!(strip_ansi("x\u{1b}]8;;https://e\u{1b}\\y"), "xy");
    // Idempotent.
    let once = strip_ansi("\u{1b}[31mred\u{1b}[0m");
    assert_eq!(strip_ansi(&once), once);
    // Plain text is untouched, tags included.
    assert_eq!(strip_ansi("[REPLY-a1b2]hi[/REPLY-a1b2]"), "[REPLY-a1b2]hi[/REPLY-a1b2]");
}

#[test]
fn pane_is_idle_keys_off_the_streaming_marker_only() {
    assert!(pane_is_idle("● [REPLY-a1b2]done\n❯ ", STREAMING_MARKER));
    assert!(!pane_is_idle("✻ Bloviating… (esc to interrupt)", STREAMING_MARKER));
    // Glyph-independent: a rotated spinner word must not change the verdict.
    assert!(!pane_is_idle("· Churning… (12s · esc to interrupt)", STREAMING_MARKER));
}

#[test]
fn is_tui_boundary_covers_every_rule() {
    assert!(is_tui_boundary("✻ Crunched for 50s"));
    assert!(is_tui_boundary("❯ "));
    assert!(is_tui_boundary("──────────────"));
    assert!(is_tui_boundary("● [REPLY-c3d4]a new turn"));
    assert!(is_tui_boundary("[CMD-c3d4][source=index]next"));
    assert!(is_tui_boundary("Crunching… (esc to interrupt)"));
    // Ordinary answer text is not a boundary.
    assert!(!is_tui_boundary("Three things: standup at 9."));
    assert!(!is_tui_boundary("● Bash(ls)"));
    assert!(!is_tui_boundary(""));
}

#[test]
fn wrap_command_uses_the_house_format() {
    assert_eq!(
        wrap_command("a1b2", "remind me to email Dana"),
        "[CMD-a1b2][source=index]remind me to email Dana[/CMD-a1b2]"
    );
    // The id is the 4 chars after `[CMD-`, terminated by the first `]`,
    // with nothing inserted before it.
    let w = wrap_command("a1b2", "x");
    let after = &w[w.find("[CMD-").unwrap() + 5..];
    assert_eq!(&after[..after.find(']').unwrap()], "a1b2");
}

#[test]
fn a_reply_body_keeps_its_own_brackets_and_blank_lines() {
    let pane = "[CMD-a1b2][source=index]x[/CMD-a1b2]\n● [REPLY-a1b2]line [1]\n\nline [2]\n[/REPLY-a1b2]\n";
    assert_eq!(extract_reply(pane, ID).unwrap(), "line [1]\n\nline [2]");
}

#[test]
fn strip_ansi_leaves_what_is_no_complete_sequence() {
    assert_eq!(strip_ansi("a\u{1b}[12"), "a\u{1b}[12");
    assert_eq!(strip_ansi("a\u{1b}]0;title"), "a\u{1b}]0;title");
    assert_eq!(strip_ansi("\u{1b}[1 qx"), "x");
    assert_eq!(strip_ansi("\u{1b}[1\u{e9}x"), "\u{1b}[1\u{e9}x");
    assert_eq!(strip_ansi(""), "");
}

/// What stands on the two sides of a sequence can join into another one, which goes too.
#[test]
fn stripping_leaves_no_sequence_that_was_split() {
    assert_eq!(strip_ansi("\u{1b}\u{1b}[0m[0mx"), "x");
    assert_eq!(strip_ansi("\u{1b}\u{1b}\u{1b}[0m[0m[0mx"), "x");
    assert_eq!(strip_ansi("\u{1b}\u{1b}[0m]0;t\u{7}x"), "x");
}

#[test]
fn an_empty_marker_never_counts_as_idle() {
    assert!(!pane_is_idle("anything", ""));
    assert!(!pane_is_idle("", ""));
    assert!(pane_is_idle("", "busy"));
}

#[test]
fn a_typed_command_is_answered_whatever_stood_above_it() {
    let clean = format!(
        "{}{}\n● [REPLY-a1b2]  42 \n[/REPLY-a1b2]\n",
        "● [REPLY-a1b2]old\n[/REPLY-a1b2]\n",
        wrap_command(ID, "what is the answer")
    );
    assert_eq!(extract_reply(&clean, ID).unwrap(), "42");
}

#[test]
fn the_messages_of_a_failed_extraction_are_exact() {
    assert_eq!(extract_scoped("nothing", ID).unwrap_err(), "missing [REPLY-a1b2]");
    assert_eq!(
        extract_scoped("[REPLY-a1b2]  \n❯ ", ID).unwrap_err(),
        "missing [/REPLY-a1b2] and no recoverable body before the first TUI boundary"
    );
}

#[test]
fn carriage_returns_before_line_feeds_are_not_part_of_a_recovered_line() {
    assert_eq!(extract_scoped("[REPLY-a1b2]one\r\ntwo\r\n❯", ID).unwrap(), "one\ntwo");
}

/// The length of the escape sequence that a text starts with, 0 where there is none.
fn escape_len(s: &[char]) -> usize {
    if s.len() < 2 || s[0] != '\x1b' {
        return 0;
    }
    let mut i = 2;
    if s[1] == '[' {
        while i < s.len() && (s[i].is_ascii_digit() || s[i] == ';' || s[i] == '?') {
            i += 1;
        }
        while i < s.len() && (' '..='/').contains(&s[i]) {
            i += 1;
        }
        return if i < s.len() && ('@'..='~').contains(&s[i]) { i + 1 } else { 0 };
    }
    if s[1] == ']' {
        while i < s.len() && s[i] != '\x07' && s[i] != '\x1b' {
            i += 1;
        }
        if i < s.len() && s[i] == '\x07' {
            return i + 1;
        }
        if i + 1 < s.len() && s[i + 1] == '\\' {
            return i + 2;
        }
    }
    0
}

/// One pass over a text.
fn without_escapes_once(s: &[char]) -> Vec<char> {
    let mut kept = vec![];
    let mut i = 0;
    while i < s.len() {
        match escape_len(&s[i..]) {
            0 => {
                kept.push(s[i]);
                i += 1;
            }
            n => i += n,
        }
    }
    kept
}

fn without_escapes(s: &[char]) -> String {
    let mut text = s.to_vec();
    loop {
        let next = without_escapes_once(&text);
        if next == text {
            return text.iter().collect();
        }
        text = next;
    }
}

#[test]
fn every_short_text_is_stripped_of_exactly_its_sequences() {
    let alphabet = ['\x1b', '[', ']', '0', ' ', 'm', '\x07', '\\'];
    let mut texts: Vec<Vec<char>> = vec![vec![]];
    for _ in 0..4 {
        let longer: Vec<Vec<char>> = texts
            .iter()
            .flat_map(|t| alphabet.iter().map(move |c| [t.as_slice(), &[*c]].concat()))
            .collect();
        for t in &longer {
            let text: String = t.iter().collect();
            let stripped = strip_ansi(&text);
            assert_eq!(stripped, without_escapes(t), "{text:?}");
            if stripped != text {
                assert_eq!(strip_ansi(&stripped), stripped, "{text:?}");
            }
        }
        texts = longer;
    }
    for text in ["\x1b]0;é\nü\x07x", "\x1b]a\x1b\\b\x1b[1;2?3 /Kc", "\x1b[é", "\x1b[0\nm"] {
        let t: Vec<char> = text.chars().collect();
        assert_eq!(strip_ansi(text), without_escapes(&t), "{text:?}");
    }
}
