use tiny_servers::digits::{decimal_padded, decimal_string, parse_number};
use tiny_servers::lines::{skip_line, LineBuffer, LineRead, LineReader};
use tiny_servers::sizes::format_size;
use tiny_servers::text::{
    chars_of, find_byte, find_char, join_with, replaced, space, split_at, starts_with, string_of,
    stripped_end, stripped_start, trimmed, trimmed_end, trimmed_start, words_of,
};
use tiny_servers::unicode::{char_upper, wide, wide_text};

fn all_chars() -> Vec<char> {
    (0..=0x10ffffu32).filter_map(char::from_u32).collect()
}

#[test]
fn white_space_is_that_of_unicode() {
    for c in all_chars() {
        assert_eq!(space(c), c.is_whitespace(), "{:?}", c);
    }
}

#[test]
fn ascii_capitals() {
    for c in all_chars() {
        assert_eq!(char_upper(c), c.to_ascii_uppercase());
    }
}

#[test]
fn trimming() {
    for s in ["", " ", "a", " a ", "\t a b \u{3000}\n", "\u{a0}x", "no"] {
        assert_eq!(trimmed(s), s.trim());
        assert_eq!(trimmed_start(s), s.trim_start());
        assert_eq!(trimmed_end(s), s.trim_end());
    }
}

#[test]
fn stripping_a_character() {
    assert_eq!(stripped_start("///a/b/", '/'), "a/b/");
    assert_eq!(stripped_end("/a/b//", '/'), "/a/b");
    assert_eq!(stripped_end("/", '/'), "");
    assert_eq!(stripped_start("a", '/'), "a");
}

#[test]
fn replacing_and_beginning() {
    assert_eq!(replaced("a\\b\\\\c", '\\', '/'), "a/b//c");
    assert!(starts_with("UTF8 ON", "UTF8"));
    assert!(starts_with("UTF8", "UTF8"));
    assert!(!starts_with("UTF", "UTF8"));
    assert!(starts_with("x", ""));
}

#[test]
fn finding() {
    assert_eq!(find_byte(b"abc\0d", 0), 3);
    assert_eq!(find_byte(b"abc", 0), 3);
    assert_eq!(find_byte(b"", 7), 0);
    assert_eq!(find_char(&chars_of("a b c"), ' '), 1);
}

#[test]
fn splitting_and_joining() {
    for s in ["", "/", "a", "a/b", "/a//b/", "//"] {
        let parts = split_at(&chars_of(s), '/');
        let texts: Vec<String> = parts.iter().map(|p| string_of(p)).collect();
        let expected: Vec<&str> = s.split('/').collect();
        assert_eq!(texts, expected);
        assert_eq!(string_of(&join_with(&parts, '/')), s);
    }
}

#[test]
fn words_between_white_space() {
    for s in ["", "  ", "GET / HTTP/1.1", " \tGET\u{2003}/a  b\r\n"] {
        let words: Vec<String> = words_of(s).iter().map(|w| string_of(w)).collect();
        let expected: Vec<&str> = s.split_whitespace().collect();
        assert_eq!(words, expected);
    }
}

#[test]
fn decimal_numbers() {
    for n in [0u64, 1, 9, 10, 99, 100, 65535, 1_000_000, u64::MAX] {
        assert_eq!(decimal_string(n), n.to_string());
        assert_eq!(decimal_padded(n, 13), format!("{:>13}", n));
    }
}

#[test]
fn port_numbers_are_parsed() {
    for s in ["0", "21", "65535", "65536", "", "+", "+80", "-1", "8a", " 8", "00080", "99999999999", "٣", "+0", "++1"] {
        assert_eq!(parse_number(s), s.parse::<u16>().ok(), "{:?}", s);
    }
}

#[test]
fn every_port_number_is_read_back() {
    for n in 0..=u16::MAX {
        assert_eq!(parse_number(&decimal_string(n as u64)), Some(n));
    }
}

#[test]
fn wide_text_is_read_back() {
    for s in ["", "plain", "Größe", "日本語", "a\u{10000}b\u{10ffff}", "\u{ffff}\u{d7ff}\u{e000}"] {
        let w = wide(s);
        let expected: Vec<u16> = s.encode_utf16().chain(std::iter::once(0)).collect();
        assert_eq!(w, expected);
        assert_eq!(wide_text(&w[..w.len() - 1]), s);
    }
}

#[test]
fn broken_wide_text_is_marked() {
    let cases: [&[u16]; 6] = [
        &[0xd800],
        &[0xdc00, 0x41],
        &[0xd800, 0x41],
        &[0xd800, 0xd800, 0xdc00],
        &[0xd83d, 0xde00, 0xde00],
        &[0x41, 0xdbff],
    ];
    for v in cases {
        assert_eq!(wide_text(v), String::from_utf16_lossy(v));
    }
}

#[test]
fn sizes_of_files() {
    assert_eq!(format_size(0), "0 B");
    assert_eq!(format_size(1023), "1023 B");
    assert_eq!(format_size(1024), "1.0 KB");
    assert_eq!(format_size(1536), "1.5 KB");
    assert_eq!(format_size(1024 * 1024 - 1), "1024.0 KB");
    assert_eq!(format_size(1024 * 1024), "1.0 MB");
    assert_eq!(format_size(1024 * 1024 * 1024), "1.0 GB");
}

fn floating_size(bytes: u64) -> String {
    if bytes < 1024 {
        format!("{} B", bytes)
    } else if bytes < 1024 * 1024 {
        format!("{:.1} KB", bytes as f64 / 1024.0)
    } else if bytes < 1024 * 1024 * 1024 {
        format!("{:.1} MB", bytes as f64 / (1024.0 * 1024.0))
    } else {
        format!("{:.1} GB", bytes as f64 / (1024.0 * 1024.0 * 1024.0))
    }
}

#[test]
fn sizes_agree_with_floating_point() {
    for n in 0..200_000u64 {
        assert_eq!(format_size(n), floating_size(n), "{}", n);
    }
    let mut x: u64 = 0x9e37_79b9_7f4a_7c15;
    for _ in 0..200_000 {
        x ^= x << 13;
        x ^= x >> 7;
        x ^= x << 17;
        for shift in [0, 10, 20, 30, 35, 40] {
            let n = x >> shift;
            assert_eq!(format_size(n), floating_size(n), "{}", n);
        }
    }
}

#[test]
fn sizes_at_halves_and_limits() {
    for unit in [1u64 << 10, 1 << 20, 1 << 30] {
        for k in 0..2000u64 {
            for d in [0u64, 1, 2] {
                let n = unit * k / 20 + d;
                assert_eq!(format_size(n), floating_size(n), "{}", n);
            }
        }
    }
    for n in [u64::MAX, u64::MAX - 1, 1 << 63, (1 << 53) - 1, (1 << 53) + 1, (1 << 54) + 3, (1 << 63) + 1025] {
        assert_eq!(format_size(n), floating_size(n), "{}", n);
    }
}

#[test]
fn a_line_in_any_chunks() {
    let input = b"GET / HTTP/1.1\r\nHost: x\r\n";
    for cut in 1..15 {
        let mut b = LineBuffer::new(100, true);
        let (used, r) = b.feed(&input[..cut]);
        assert_eq!(used, cut);
        assert!(matches!(r, LineRead::More));
        let (used, r) = b.feed(&input[cut..]);
        assert_eq!(cut + used, 16);
        match r {
            LineRead::Line(line) => assert_eq!(line, b"GET / HTTP/1.1\r"),
            _ => panic!("no line"),
        }
    }
}

#[test]
fn the_end_of_the_input() {
    let mut b = LineBuffer::new(10, true);
    assert!(matches!(b.feed(b""), (0, LineRead::End)));
    assert!(matches!(b.feed(b"abc"), (3, LineRead::More)));
    match b.feed(b"") {
        (0, LineRead::Rest(line)) => assert_eq!(line, b"abc"),
        _ => panic!("no rest"),
    }
    assert!(matches!(b.feed(b""), (0, LineRead::End)));
}

#[test]
fn a_line_that_is_too_long() {
    let mut b = LineBuffer::new(4, true);
    assert!(matches!(b.feed(b"abcd"), (4, LineRead::More)));
    assert!(matches!(b.feed(b"e"), (1, LineRead::TooLong)));
    // The line break may be there already; it is left for the rest of the line to be skipped.
    assert!(matches!(b.feed(b"abcde\nrest"), (5, LineRead::TooLong)));
    assert_eq!(skip_line(b"\nrest"), (1, true));
    assert!(matches!(b.feed(b"ab"), (2, LineRead::More)));
    assert!(matches!(b.feed(b"cde\n"), (3, LineRead::TooLong)));
    match b.feed(b"abcd\nrest") {
        (5, LineRead::Line(line)) => assert_eq!(line, b"abcd"),
        _ => panic!("no line"),
    }
}

#[test]
fn a_limit_that_is_not_exact() {
    let mut b = LineBuffer::new(4, false);
    // The chunk with the line break is taken whatever its length.
    match b.feed(b"abcdefgh\nrest") {
        (9, LineRead::Line(line)) => assert_eq!(line, b"abcdefgh"),
        _ => panic!("no line"),
    }
    assert!(matches!(b.feed(b"abcd"), (4, LineRead::More)));
    match b.feed(b"efgh\n") {
        (5, LineRead::Line(line)) => assert_eq!(line, b"abcdefgh"),
        _ => panic!("no line"),
    }
    assert!(matches!(b.feed(b"abcde"), (5, LineRead::TooLong)));
    assert!(matches!(b.feed(b"abcd"), (4, LineRead::More)));
    assert!(matches!(b.feed(b"e"), (1, LineRead::TooLong)));
}

#[test]
fn the_limit_in_any_chunks() {
    for len in [4095usize, 4096, 4097, 5000] {
        let mut input = vec![b'x'; len];
        input.extend_from_slice(b"\nNOOP\r\n");
        for cut in [1, 2, 100, 4095, 4096, 4097, len, len + 1, len + 2, input.len()] {
            let mut reader = LineReader::new(4096);
            let mut at = 0;
            let mut read = Vec::new();
            while read.len() < 2 {
                let end = (at + cut).min(input.len());
                let (used, r) = reader.feed(&input[at..end]);
                at += used;
                match r {
                    LineRead::More => {}
                    LineRead::Line(line) => read.push(Some(line)),
                    LineRead::TooLong => read.push(None),
                    _ => panic!("the input has ended"),
                }
            }
            let first = if len <= 4096 { Some(vec![b'x'; len]) } else { None };
            assert_eq!(read, [first, Some(b"NOOP\r".to_vec())], "{} {}", len, cut);
            assert_eq!(at, input.len());
        }
    }
}

#[test]
fn a_long_line_at_the_end_of_the_input() {
    let mut reader = LineReader::new(4);
    assert!(matches!(reader.feed(b"abcdef"), (6, LineRead::More)));
    assert!(matches!(reader.feed(b"g"), (1, LineRead::More)));
    assert!(matches!(reader.feed(b""), (0, LineRead::TooLong)));
    assert!(matches!(reader.feed(b""), (0, LineRead::End)));
    assert!(matches!(reader.feed(b"abcd"), (4, LineRead::More)));
    assert!(matches!(reader.feed(b""), (0, LineRead::Rest(line)) if line == b"abcd"));
}

#[test]
fn a_long_line_in_any_chunks() {
    let input = [b'x'; 101];
    for cut in 1..101 {
        let mut b = LineBuffer::new(100, true);
        assert!(matches!(b.feed(&input[..cut]), (_, LineRead::More)));
        assert!(b.buf.len() <= 100);
        assert!(matches!(b.feed(&input[cut..]), (_, LineRead::TooLong)));
    }
}

#[test]
fn skipping_the_rest_of_a_line() {
    assert_eq!(skip_line(b"abc"), (3, false));
    assert_eq!(skip_line(b"ab\ncd"), (3, true));
    assert_eq!(skip_line(b""), (0, true));
}
