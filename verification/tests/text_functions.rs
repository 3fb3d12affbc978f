//! Text, bytes and numbers, held against what the standard library does.
use gitlab_mr_lsp::bytes::{leading_bytes, longer_than};
use gitlab_mr_lsp::number::{decimal_of, u32_of};
use gitlab_mr_lsp::text::{
    chars_of, contains_text, find_char, first_line_of, has_prefix, has_suffix, is_white_space,
    joined, lines_of, piece_after, position_of, replaced, same_text, string_of, text_after,
    text_before, trimmed, without_leading_text, without_trailing_char, without_trailing_text,
};

const SAMPLES: [&str; 16] = [
    "",
    " ",
    "a",
    "abc",
    "  padded\t",
    "\u{a0}no-break\u{3000}",
    "one\ntwo\nthree",
    "one\r\ntwo\r\n\r\n",
    "\n\n",
    "trailing\n",
    "lone\rreturn",
    "https://https://host/a/b.git.git",
    "git@host:group/repo.git",
    "ünïcödé → ✓",
    "Token found: abc Token found: def",
    "🦀🦀🦀",
];

#[test]
fn white_space_is_that_of_unicode() {
    for c in '\0'..=char::MAX {
        assert_eq!(is_white_space(c), c.is_whitespace(), "{:?}", c);
    }
}

#[test]
fn chars_and_strings_round_trip() {
    for s in SAMPLES {
        assert_eq!(string_of(&chars_of(s)), s);
        assert_eq!(chars_of(s), s.chars().collect::<Vec<char>>());
    }
}

#[test]
fn trimming_takes_white_space_off_both_ends() {
    for s in SAMPLES {
        assert_eq!(string_of(trimmed(&chars_of(s))), s.trim());
    }
}

#[test]
fn lines_end_at_line_feeds() {
    for s in SAMPLES {
        let ours: Vec<String> = lines_of(&chars_of(s)).iter().map(|l| string_of(l)).collect();
        let theirs: Vec<String> = s.lines().map(|l| l.to_owned()).collect();
        assert_eq!(ours, theirs, "{:?}", s);
        assert_eq!(string_of(first_line_of(&chars_of(s))), s.lines().next().unwrap_or(""));
    }
}

#[test]
fn prefixes_and_suffixes() {
    for s in SAMPLES {
        for p in ["", "https://", "git", ".git", "one", "\n", "ü"] {
            assert_eq!(has_prefix(&chars_of(s), p), s.starts_with(p));
            assert_eq!(has_suffix(&chars_of(s), p), s.ends_with(p));
            assert_eq!(contains_text(s, p), s.contains(p));
            let at = s.find(p).map(|b| s[..b].chars().count());
            assert_eq!(position_of(&chars_of(s), &chars_of(p)), at);
            if !p.is_empty() {
                assert_eq!(
                    string_of(without_leading_text(&chars_of(s), p)),
                    s.trim_start_matches(p)
                );
                assert_eq!(
                    string_of(without_trailing_text(&chars_of(s), p)),
                    s.trim_end_matches(p)
                );
                let piece = piece_after(&chars_of(s), p).map(string_of);
                assert_eq!(piece.as_deref(), s.split(p).nth(1));
            }
        }
    }
}

#[test]
fn cutting_at_a_character() {
    for s in SAMPLES {
        for c in ['a', ':', '/', '\n', '✓'] {
            let chars = chars_of(s);
            assert_eq!(string_of(text_before(&chars, c)), s.split(c).next().unwrap());
            let after = text_after(&chars, c).map(string_of);
            assert_eq!(after.as_deref(), s.split_once(c).map(|(_, r)| r));
            assert_eq!(find_char(&chars, c), s.chars().take_while(|x| *x != c).count());
            assert_eq!(string_of(without_trailing_char(&chars, c)), s.trim_end_matches(c));
            assert_eq!(replaced(&chars, c, "%2F"), s.replace(c, "%2F"));
        }
    }
}

#[test]
fn joining_puts_the_separator_between() {
    let parts: Vec<String> = vec!["a".to_owned(), "".to_owned(), "b".to_owned()];
    assert_eq!(joined(&parts, ", "), parts.join(", "));
    assert_eq!(joined(&vec![], ", "), "");
    assert_eq!(joined(&vec!["x".to_owned()], ", "), "x");
}

#[test]
fn same_text_compares_the_characters() {
    assert!(same_text("abc", "abc"));
    assert!(!same_text("abc", "abd"));
    assert!(!same_text("abc", "ab"));
}

#[test]
fn bytes_are_counted_in_utf8() {
    for s in SAMPLES {
        let chars = chars_of(s);
        for n in 0..40 {
            assert_eq!(longer_than(&chars, n), s.len() > n, "{:?} {}", s, n);
            assert_eq!(leading_bytes(&chars, n).map(string_of).as_deref(), s.get(..n));
        }
    }
}

#[test]
fn no_cut_inside_a_character() {
    // The second byte of "ü" lies behind the cut
    assert_eq!(leading_bytes(&chars_of("aü"), 2), None);
    assert_eq!(leading_bytes(&chars_of("aü"), 3).map(string_of), Some("aü".to_owned()));
}

#[test]
fn numbers_are_written_in_decimal() {
    for n in [0, 1, 9, 10, 42, 100, 4294967295, 4294967296, u64::MAX] {
        assert_eq!(decimal_of(n), n.to_string());
    }
}

#[test]
fn numbers_are_read_as_the_standard_library_reads_them() {
    for s in [
        "", "0", "7", "+7", "-7", "007", "4294967295", "4294967296", "99999999999999999999", " 1",
        "1 ", "1a", "+", "++1", "٣",
    ] {
        assert_eq!(u32_of(&chars_of(s)), s.parse::<u32>().ok(), "{:?}", s);
    }
}
