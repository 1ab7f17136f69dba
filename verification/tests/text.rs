use gpu_arbiter::numerals::{
    read_i32, read_u64, write_i64, write_padded, write_seconds, write_u128, write_u64,
};
use gpu_arbiter::scan::{
    after_last, join, lines, same_folded, space, split, to_lower, trim, trim_end_char, words,
};
use gpu_arbiter::text::{contains, find, has_prefix, has_suffix, order, same, split_once, Order};

const SAMPLES: [&str; 14] = [
    "",
    "a",
    " a b ",
    "\n",
    "a\nb",
    "a\r\nb\r\n",
    "a\r",
    "\u{a0}x\u{2003}",
    "a,b,,c",
    ",",
    "ÄäÖ-Straße",
    "tab\tsep  runs",
    "x\n\ny\n",
    "\r\n\r",
];

#[test]
fn trimming_is_that_of_the_standard_library() {
    for s in SAMPLES {
        assert_eq!(trim(s), s.trim(), "{s:?}");
    }
}

#[test]
fn white_space_is_that_of_the_standard_library() {
    for u in 0..=0x10ffffu32 {
        if let Some(c) = char::from_u32(u) {
            assert_eq!(space(c), c.is_whitespace(), "{u:x}");
        }
    }
}

#[test]
fn lines_words_and_pieces_are_those_of_the_standard_library() {
    for s in SAMPLES {
        assert_eq!(lines(s), s.lines().collect::<Vec<_>>(), "{s:?}");
        assert_eq!(words(s), s.split_whitespace().collect::<Vec<_>>(), "{s:?}");
        assert_eq!(split(s, ','), s.split(',').collect::<Vec<_>>(), "{s:?}");
        assert_eq!(to_lower(s), s.to_ascii_lowercase(), "{s:?}");
        assert_eq!(
            after_last(s, 'a', '\n'),
            s.rsplit(['a', '\n']).next().unwrap(),
            "{s:?}"
        );
    }
}

#[test]
fn comparing_is_that_of_the_standard_library() {
    for a in SAMPLES {
        for b in SAMPLES {
            assert_eq!(same(a, b), a == b);
            assert_eq!(contains(a, b), a.contains(b), "{a:?} {b:?}");
            assert_eq!(has_prefix(a, b), a.starts_with(b));
            assert_eq!(has_suffix(a, b), a.ends_with(b));
            assert_eq!(same_folded(a, b), a.eq_ignore_ascii_case(b));
            let o = match a.cmp(b) {
                std::cmp::Ordering::Less => Order::Before,
                std::cmp::Ordering::Equal => Order::Same,
                std::cmp::Ordering::Greater => Order::After,
            };
            assert_eq!(order(a, b), o, "{a:?} {b:?}");
        }
    }
    assert_eq!(find("äbäb", "b"), Some(1));
    assert_eq!(order("\u{ffff}", "\u{10000}"), Order::Before);
}

#[test]
fn parting_takes_the_first() {
    assert_eq!(split_once("a:b:c", ':'), Some(("a".into(), "b:c".into())));
    assert_eq!(split_once("abc", ':'), None);
    assert_eq!(trim_end_char("x//", '/'), "x");
    assert_eq!(trim_end_char("//", '/'), "");
    let parts: Vec<String> = vec!["a".into(), "b".into(), "c".into()];
    assert_eq!(join(&parts, ", "), "a, b, c");
    assert_eq!(join(&[], ", "), "");
}

#[test]
fn numbers_are_written_and_read() {
    for n in [0u64, 9, 10, 99, 100, u64::MAX] {
        assert_eq!(write_u64(n), n.to_string());
        assert_eq!(read_u64(&write_u64(n)), Some(n));
    }
    assert_eq!(write_u128(u128::MAX), u128::MAX.to_string());
    for n in [i64::MIN, -1, 0, 1, i64::MAX] {
        assert_eq!(write_i64(n), n.to_string());
    }
    assert_eq!(write_padded(7, 2), "07");
    assert_eq!(write_padded(12345, 4), "12345");
    for s in ["", "+", "-", "-1", "+1", "01", "1a", " 1", "18446744073709551616", "12"] {
        assert_eq!(read_u64(s), s.parse::<u64>().ok(), "{s:?}");
        assert_eq!(read_i32(s), s.parse::<i32>().ok(), "{s:?}");
    }
    for s in ["2147483647", "2147483648", "-2147483648", "-2147483649", "+7", "--7"] {
        assert_eq!(read_i32(s), s.parse::<i32>().ok(), "{s:?}");
    }
}

#[test]
fn seconds_are_written_without_trailing_zeros() {
    assert_eq!(write_seconds(0), "0");
    assert_eq!(write_seconds(400_000_000), "0.4");
    assert_eq!(write_seconds(2_000_000_000), "2");
    assert_eq!(write_seconds(1_000_000_001), "1.000000001");
    assert_eq!(write_seconds(250_000_000), "0.25");
}
