use rtk::classify::{is_date_shaped, is_email_shaped, is_short_hex, is_short_id, is_time_shaped};
use rtk::number::{is_unsigned_text, parse_decimal, push_decimal};
use rtk::text::{
    begins_with, chars_of, find, has_char, includes, is_space_char, join_rows, join_words,
    lower_char, same, same_text, split_lines, split_tokens, string_of, strip_leading,
    strip_prefixes, take_prefix, to_lower, trim, trim_end, trim_start, truncate,
};

const SAMPLES: [&str; 24] = [
    "",
    " ",
    "a",
    "\n",
    "\r",
    "\r\n",
    "a\n",
    "a\r\n",
    "a\r",
    "a\n\nb",
    "a\r\n\r\nb\r",
    "\n\na",
    "  two  words \t here\u{a0}and\u{3000}there  ",
    "\u{85}next\u{2028}line\u{2029}para",
    "\u{1680}ogham\u{2000}\u{200a}\u{202f}\u{205f}",
    "\u{200b}zero width\u{feff}",
    "\u{b}\u{c}vt ff",
    "nö ascii ünïcode ✓ 𝄞",
    "@  d3b77addea49 user@host 3 minutes ago, lasted 3 milliseconds\n│  args: jj squash\n",
    "Working copy  (@) : kntqzsqt d7439b06 (empty) (no description set)",
    "line one\r\nline two\nline three\r\n\r\n",
    "trailing spaces   \n   leading spaces",
    "\t\ttabs\tonly\t",
    "x\r\ry\r\r\nz",
];

fn text(v: &[char]) -> String {
    v.iter().collect()
}

#[test]
fn conversions_keep_every_character() {
    for s in SAMPLES {
        let chars = chars_of(s);
        assert_eq!(chars, s.chars().collect::<Vec<char>>());
        assert_eq!(string_of(&chars), s);
    }
}

#[test]
fn whitespace_is_what_the_standard_library_calls_whitespace() {
    for code in 0u32..=0x10ffff {
        if let Some(c) = char::from_u32(code) {
            assert_eq!(is_space_char(c), c.is_whitespace(), "U+{:04X}", code);
            assert_eq!(lower_char(c), c.to_ascii_lowercase(), "U+{:04X}", code);
        }
    }
}

#[test]
fn lines_are_the_lines_of_the_standard_library() {
    for s in SAMPLES {
        let got: Vec<String> = split_lines(&chars_of(s)).iter().map(|l| text(l)).collect();
        let want: Vec<String> = s.lines().map(|l| l.to_string()).collect();
        assert_eq!(got, want, "{:?}", s);
    }
}

#[test]
fn tokens_are_the_words_of_the_standard_library() {
    for s in SAMPLES {
        let got: Vec<String> = split_tokens(&chars_of(s)).iter().map(|l| text(l)).collect();
        let want: Vec<String> = s.split_whitespace().map(|l| l.to_string()).collect();
        assert_eq!(got, want, "{:?}", s);
    }
}

#[test]
fn trimming_is_the_trimming_of_the_standard_library() {
    for s in SAMPLES {
        let chars = chars_of(s);
        assert_eq!(text(trim(&chars)), s.trim(), "{:?}", s);
        assert_eq!(text(trim_start(&chars)), s.trim_start(), "{:?}", s);
        assert_eq!(text(trim_end(&chars)), s.trim_end(), "{:?}", s);
        assert_eq!(text(&to_lower(&chars)), s.to_ascii_lowercase());
    }
    assert_eq!(text(strip_leading(&chars_of("@@@ x@"), '@')), " x@");
    assert_eq!(text(strip_leading(&chars_of("x"), '@')), "x");
    assert_eq!(text(strip_prefixes(&chars_of("args:args: x args:"), &chars_of("args:"))), " x args:");
    assert_eq!(text(strip_prefixes(&chars_of("args"), &chars_of("args:"))), "args");
    assert_eq!(text(strip_prefixes(&chars_of("abc"), &chars_of(""))), "abc");
    assert_eq!(text(take_prefix(&chars_of("äbc"), 2)), "äb");
    assert_eq!(text(take_prefix(&chars_of("äbc"), 7)), "äbc");
    assert_eq!(text(&truncate(&chars_of("0123456789"), 9)), "012345...");
}

#[test]
fn searching_finds_the_first_occurrence() {
    let patterns = ["", "a", ": ", "\n", "ago", "ünï", "copy", "  ", "xyz", "\r\n\r\n"];
    for s in SAMPLES {
        let chars = chars_of(s);
        for p in patterns {
            let pat = chars_of(p);
            let want = s.find(p).map(|at| s[..at].chars().count());
            assert_eq!(find(&chars, &pat), want, "{:?} in {:?}", p, s);
            assert_eq!(includes(&chars, &pat), s.contains(p));
            assert_eq!(begins_with(&chars, &pat), s.starts_with(p));
            assert_eq!(same(&chars, &pat), s == p);
            assert_eq!(same_text(s, p), s == p);
        }
        assert_eq!(has_char(&chars, '@'), s.contains('@'));
        assert_eq!(has_char(&chars, '\n'), s.contains('\n'));
    }
}

#[test]
fn joining_puts_one_separator_between_rows() {
    let rows = vec![chars_of("a"), chars_of(""), chars_of("b c")];
    assert_eq!(text(&join_rows(&rows)), "a\n\nb c");
    assert_eq!(text(&join_rows(&vec![chars_of("only")])), "only");
    assert_eq!(text(&join_rows(&vec![])), "");
    let words = vec!["-r".to_string(), "@".to_string(), "".to_string()];
    assert_eq!(text(&join_words(&words)), words.join(" "));
    assert_eq!(text(&join_words(&[])), "");
}

#[test]
fn shapes_of_tokens() {
    assert!(is_email_shaped(&chars_of("user@email.com")));
    assert!(is_email_shaped(&chars_of(".@")));
    assert!(!is_email_shaped(&chars_of("user@host")));
    assert!(!is_email_shaped(&chars_of("a.b")));
    assert!(is_date_shaped(&chars_of("2023-02-12")));
    assert!(is_date_shaped(&chars_of("abcd-efghi")));
    assert!(!is_date_shaped(&chars_of("2023-02-1")));
    assert!(!is_date_shaped(&chars_of("20230-2-12")));
    assert!(is_time_shaped(&chars_of("15:00:22")));
    assert!(!is_time_shaped(&chars_of("5:00:22")));
    assert!(!is_time_shaped(&chars_of("150:0022")));
    assert!(is_short_hex(&chars_of("aef4df99")));
    assert!(!is_short_hex(&chars_of("AEF4DF99")));
    assert!(!is_short_hex(&chars_of("aef4df9")));
    assert!(!is_short_hex(&chars_of("hash1111")));
    assert!(is_short_id(&chars_of("kntqzsqt")));
    assert!(is_short_id(&chars_of("abc12345")));
    assert!(!is_short_id(&chars_of("Abc12345")));
    assert!(!is_short_id(&chars_of("abc-1234")));
    assert!(!is_short_id(&chars_of("abc123456")));
}

#[test]
fn numerals() {
    let inputs = [
        "", "0", "7", "007", "42", "+42", "-42", "+", "4 2", "4a", "18446744073709551615",
        "18446744073709551616", "99999999999999999999999", "000000000000000000000000001", "١٢",
        "++1", "1+",
    ];
    for s in inputs {
        let chars = chars_of(s);
        assert_eq!(is_unsigned_text(&chars), s.parse::<u64>().is_ok(), "{:?}", s);
        let plain = !s.starts_with('+');
        let want = if plain { s.parse::<u64>().ok() } else { None };
        assert_eq!(parse_decimal(&chars, u64::MAX), want, "{:?}", s);
    }
    assert_eq!(parse_decimal(&chars_of("255"), 255), Some(255));
    assert_eq!(parse_decimal(&chars_of("256"), 255), None);
    assert_eq!(parse_decimal(&chars_of("9"), 8), None);
    assert_eq!(parse_decimal(&chars_of("0"), 0), Some(0));
    for n in [0usize, 1, 9, 10, 11, 99, 100, 12345, usize::MAX] {
        let mut out = chars_of("n=");
        push_decimal(&mut out, n);
        assert_eq!(text(&out), format!("n={}", n));
    }
}
