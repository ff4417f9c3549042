use ephemwork::files::{join_path, take_in, FileRead, Intake};
use ephemwork::text::{
    before, chars_of, is_whitespace, join, pad, parse_number, push_decimal, same, same_letters,
    split, split_lines, split_words, starts_with, string_of, trim_str,
};

fn strings(pieces: Vec<&[char]>) -> Vec<String> {
    pieces.iter().map(|p| p.iter().collect()).collect()
}

#[test]
fn whitespace_is_what_rust_takes_for_it() {
    for c in (0..=0x10ffff).filter_map(char::from_u32) {
        assert_eq!(is_whitespace(c), c.is_whitespace(), "{c:?}");
    }
}

#[test]
fn pieces_are_what_rust_cuts() {
    for s in [
        "", " ", "a", " a b ", "a::b:", ":", "x\r\ny\n\r\n", "\n", "a\rb", "a\r", "\u{2003}é \u{85}z", "\r\n",
    ] {
        let cs = chars_of(s);
        assert_eq!(strings(split(&cs, ':')), s.split(':').collect::<Vec<_>>(), "{s:?}");
        assert_eq!(
            strings(split_words(&cs)),
            s.split_whitespace().collect::<Vec<_>>(),
            "{s:?}"
        );
        // What stands behind the last line feed is a line too.
        let mut lines: Vec<&str> = s.lines().collect();
        if s.is_empty() || s.ends_with('\n') {
            lines.push("");
        }
        assert_eq!(strings(split_lines(&cs)), lines, "{s:?}");
        assert_eq!(trim_str(s), s.trim(), "{s:?}");
        assert_eq!(string_of(&cs), s);
    }
}

#[test]
fn numbers_are_what_rust_reads() {
    for s in ["", "+", "0", "+0", "00012", "255", "256", "-1", "1a", "18446744073709551615", "18446744073709551616", "99999999999999999999999", "٣"] {
        let cs = chars_of(s);
        assert_eq!(parse_number(&cs, u64::MAX), s.parse::<u64>().ok(), "{s:?}");
        assert_eq!(
            parse_number(&cs, 255),
            s.parse::<u8>().ok().map(|n| n as u64),
            "{s:?}"
        );
    }
}

#[test]
fn a_number_written_reads_back() {
    for n in [0u64, 9, 10, 65_535, u64::MAX] {
        let mut out = String::from("x");
        push_decimal(&mut out, n);
        assert_eq!(out, format!("x{n}"));
        assert_eq!(parse_number(&chars_of(&out[1..]), u64::MAX), Some(n));
    }
}

#[test]
fn strings_are_ordered_and_compared_as_in_rust() {
    let all = ["", "a", "A", "ab", "b", "\u{10000}", "\u{ffff}", "é"];
    for a in all {
        for b in all {
            assert_eq!(before(a, b), a < b, "{a:?} {b:?}");
            assert_eq!(same(a, b), a == b);
            assert_eq!(starts_with(a, b), a.starts_with(b));
            assert_eq!(
                same_letters(&chars_of(a), &chars_of(b)),
                a.eq_ignore_ascii_case(b)
            );
        }
        for width in 0..4 {
            assert_eq!(pad(a, width), format!("{a:<width$}"));
        }
    }
    let pieces: Vec<String> = vec!["a".into(), "".into(), "b".into()];
    assert_eq!(join(&pieces, ", "), pieces.join(", "));
    assert_eq!(join(&vec![], ", "), "");
}

#[test]
fn paths_are_joined_with_one_slash() {
    assert_eq!(join_path("/a", "b"), "/a/b");
    assert_eq!(join_path("/a/", "b"), "/a/b");
    assert_eq!(join_path("", "b"), "b");
}

#[test]
fn blank_files_are_fresh() {
    assert!(matches!(take_in("x", "p", FileRead::NotFound), Intake::Fresh));
    assert!(matches!(
        take_in("x", "p", FileRead::Contents("\n\t".into())),
        Intake::Fresh
    ));
    assert!(matches!(
        take_in("x", "p", FileRead::Contents(" {}".into())),
        Intake::Parse(s) if s == " {}"
    ));
    assert!(matches!(
        take_in("x", "p", FileRead::Failed("no".into())),
        Intake::Fail(_)
    ));
}

#[test]
fn durations_are_shown_as_in_rust() {
    for ms in [0, 1, 9, 10, 99, 100, 500, 999, 1000, 1001, 1010, 1500, 60_000, 61_050, u64::MAX] {
        assert_eq!(
            ephemwork::text::show_duration(ms),
            format!("{:?}", std::time::Duration::from_millis(ms))
        );
    }
}
