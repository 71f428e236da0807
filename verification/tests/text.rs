//! Operations on text, held against those of the standard library.

use tonic::text::{
    decimal_of, has_text, is_blank, join, lines, not_after, pad_right, parse_usize, replace,
    replace_char, split_once, split_whitespace, starts_with, strip_prefix, trim, trim_end_matches,
};

const SAMPLES: [&str; 18] = [
    "",
    " ",
    "a",
    " a ",
    "a b  c",
    "\ta\u{a0}b\u{3000}",
    "\u{2003}x\u{2028}",
    "one\ntwo\r\nthree\n",
    "one\n\n",
    "\n",
    "\r",
    "a\r",
    "a\r\r\nb",
    "ünï→cödé",
    "repo.git.git",
    ".git",
    "  lead\n trail  \n",
    "branch refs/heads/x",
];

#[test]
fn blanks_are_white_space() {
    for n in 0..=0x10ffff {
        if let Some(c) = char::from_u32(n) {
            assert_eq!(is_blank(c), c.is_whitespace(), "{n:x}");
        }
    }
}

#[test]
fn trimming() {
    for s in SAMPLES {
        assert_eq!(trim(s), s.trim());
        assert_eq!(trim_end_matches(s, ".git"), s.trim_end_matches(".git"));
    }
}

#[test]
fn splitting() {
    for s in SAMPLES {
        assert_eq!(lines(s), s.lines().collect::<Vec<_>>(), "{s:?}");
        assert_eq!(split_whitespace(s), s.split_whitespace().collect::<Vec<_>>());
        let std = s.split_once(' ').map(|(a, b)| (a.to_string(), b.to_string()));
        assert_eq!(split_once(s, ' '), std);
    }
}

#[test]
fn prefixes() {
    for s in SAMPLES {
        for p in SAMPLES {
            assert_eq!(strip_prefix(s, p).as_deref(), s.strip_prefix(p));
            assert_eq!(starts_with(s, p), s.starts_with(p));
        }
    }
}

#[test]
fn replacing() {
    for s in SAMPLES {
        for from in ["a", "git", "→c", ".git", "  "] {
            assert_eq!(replace(s, from, "<a>"), s.replace(from, "<a>"));
        }
        assert_eq!(replace_char(s, 'a', '/'), s.replace('a', "/"));
    }
    assert_eq!(replace("aaaaa", "aa", "b"), "bba");
}

#[test]
fn joining_and_padding() {
    let list: Vec<String> = SAMPLES.iter().map(|s| s.to_string()).collect();
    assert_eq!(join(&list, ", "), list.join(", "));
    assert_eq!(join(&Vec::new(), ", "), "");
    for s in SAMPLES {
        for width in [0, 1, 5, 12] {
            assert_eq!(pad_right(s, width), format!("{s:<width$}"));
        }
    }
    assert!(has_text(&list, "ünï→cödé"));
    assert!(!has_text(&list, "ünï"));
}

#[test]
fn numbers_are_written_and_read_back() {
    for n in [0, 1, 9, 10, 42, 100, 1234567890, usize::MAX] {
        assert_eq!(decimal_of(n), n.to_string());
        assert_eq!(parse_usize(&decimal_of(n)), Some(n));
    }
    for s in ["", "+", "+7", "-7", "007", "1 ", "1a", "18446744073709551616", "٣"] {
        assert_eq!(parse_usize(s), s.parse::<usize>().ok(), "{s}");
    }
}

#[test]
fn dictionary_order() {
    for a in SAMPLES {
        for b in SAMPLES {
            assert_eq!(not_after(a, b), a <= b, "{a:?} {b:?}");
        }
    }
    assert!(not_after("Z", "a") && !not_after("b", "ab"));
}
