//! The text operations beside those of `str`.

use std::collections::hash_map::DefaultHasher;
use std::hash::{Hash, Hasher};

use indexd::assets::{asset_tag, index_html};
use indexd::hosts::known_host;
use indexd::paths::join as join_path;
use indexd::text::{
    contains, dec, is_white, join, lines, lowercase, parse_i64, parse_u16, replace, same, split,
    split_once, starts_with, take_chars, trim, trim_end_char, trim_start, trim_start_text, words,
};

const SAMPLES: [&str; 14] = [
    "", " ", "a", " a ", "\ta b\r\nc\n", "a\nb\r\n\r\nc", "\n", "\r", "a\r", "::", "a:b:c",
    "é ü\u{3000}", "\u{2003}x\u{85}", "AbC ÀÉ",
];

#[test]
fn white_space_is_what_char_says_it_is() {
    for n in 0..=0x10ffff_u32 {
        if let Some(c) = char::from_u32(n) {
            assert_eq!(is_white(c), c.is_whitespace(), "U+{n:04X}");
        }
    }
}

#[test]
fn every_operation_agrees_with_the_method_of_str() {
    for s in SAMPLES {
        assert_eq!(trim(s), s.trim());
        assert_eq!(trim_start(s), s.trim_start());
        assert_eq!(lines(s), s.lines().collect::<Vec<_>>());
        assert_eq!(words(s), s.split_whitespace().collect::<Vec<_>>());
        assert_eq!(split(s, ':'), s.split(':').collect::<Vec<_>>());
        assert_eq!(
            split_once(s, ':'),
            s.split_once(':').map(|(a, b)| (a.to_string(), b.to_string()))
        );
        assert_eq!(lowercase(s), s.to_ascii_lowercase());
        assert_eq!(trim_end_char(s, '\n'), s.trim_end_matches('\n'));
        assert_eq!(take_chars(s, 2), s.chars().take(2).collect::<String>());
        for p in SAMPLES {
            assert_eq!(contains(s, p), s.contains(p));
            assert_eq!(starts_with(s, p), s.starts_with(p));
            assert_eq!(same(s, p), s == p);
            if !p.is_empty() {
                assert_eq!(replace(s, p, "<>"), s.replace(p, "<>"));
                assert_eq!(trim_start_text(s, p), s.trim_start_matches(p));
            }
        }
    }
}

#[test]
fn overlapping_occurrences_are_replaced_from_the_left() {
    assert_eq!(replace("aaaaa", "aa", "b"), "bba");
    assert_eq!(trim_start_text("ababc", "ab"), "c");
    assert_eq!(join(&vec!["a".to_string(), String::new(), "b".to_string()], ", "), "a, , b");
    assert_eq!(join(&vec![], ", "), "");
}

#[test]
fn numbers_are_read_as_parse_reads_them() {
    for s in [
        "", "0", "7490", "+80", "-1", "-0", "65535", "65536", "00065535", "1.5", " 1", "1 ", "+",
        "-", "+-1", "a", "9223372036854775807", "9223372036854775808", "-9223372036854775808",
        "-9223372036854775809", "99999999999999999999999999", "١",
    ] {
        assert_eq!(parse_u16(s), s.parse::<u16>().ok(), "{s:?}");
        assert_eq!(parse_i64(s), s.parse::<i64>().ok(), "{s:?}");
    }
}

#[test]
fn numbers_are_written_in_decimal() {
    for n in [0, 7, 10, 99, 100, 7490, u64::MAX] {
        assert_eq!(dec(n), n.to_string());
    }
}

#[test]
fn paths_join_as_path_joins_them() {
    for (base, rel) in [("/a", "b"), ("/a/", "b"), ("", "b"), ("/a", "/b"), ("/", "b"), ("a", "b/c"), ("/a", "")] {
        assert_eq!(
            join_path(base, rel),
            std::path::Path::new(base).join(rel).to_str().unwrap(),
            "{base:?} {rel:?}"
        );
    }
}

#[test]
fn an_asset_tag_is_the_hash_of_the_bytes() {
    for bytes in [vec![], b"body {}".to_vec(), vec![0, 255, 7]] {
        let mut h = DefaultHasher::new();
        bytes.hash(&mut h);
        assert_eq!(asset_tag(&bytes), format!("{:x}", h.finish()));
    }
}

#[test]
fn an_asset_tag_changes_with_the_bytes() {
    let a = asset_tag(&b"body {}".to_vec());
    let b = asset_tag(&b"body { }".to_vec());
    assert_eq!(a, asset_tag(&b"body {}".to_vec()));
    assert_ne!(a, b);
    assert!(!a.is_empty() && a.len() <= 16);
    assert!(a.chars().all(|c| c.is_ascii_hexdigit() && !c.is_ascii_uppercase()));
}

#[test]
fn served_html_stamps_asset_urls_with_a_content_hash() {
    let page = "<link href=\"/app.css\"><script src=\"/app.js\"></script><a href=\"/app.cssx\">";
    let html = index_html(page, "c55", "15");
    assert!(html.contains("/app.css?v="), "css url must carry a version stamp");
    assert!(html.contains("/app.js?v="), "js url must carry a version stamp");
    assert!(
        !html.contains(r#"href="/app.css""#),
        "an unstamped url would still be answerable from a stale cache"
    );
    assert_eq!(
        html,
        "<link href=\"/app.css?v=c55\"><script src=\"/app.js?v=15\"></script><a href=\"/app.cssx\">"
    );
}

#[test]
fn a_host_is_compared_with_its_port_and_without() {
    let allowed = vec!["index.example.com".to_string(), "localhost".to_string()];
    assert!(known_host(&allowed, Some("index.example.com")));
    // A port on the request must not require a port in the config.
    assert!(known_host(&allowed, Some("index.example.com:8443")));
    assert!(known_host(&allowed, Some("localhost")));
    assert!(!known_host(&allowed, Some("evil.example.net")));
    assert!(known_host(&allowed, Some("LocalHost:7490")));
    assert!(!known_host(&allowed, None));
    assert!(!known_host(&allowed, Some("localhost.evil.net")));
    // An entry may name a port, and then only that port is known.
    let ported = vec!["Example.com:1".to_string()];
    assert!(known_host(&ported, Some("example.com:1")));
    assert!(!known_host(&ported, Some("example.com")));
    // An empty list disables the check.
    assert!(known_host(&vec![], Some("anything")));
    assert!(known_host(&vec![], None));
}
