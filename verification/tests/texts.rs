//! Texts, numbers, tables and orders.

use bbtop::number::{
    add_wrapped, decimal_text, is_real_number, mul_wrapped, parse_i64, parse_u32, parse_u64,
    parse_usize, push_two_digits, read_i64,
};
use bbtop::order::{rank, sort, text_at_most, Ranked};
use bbtop::snapshot::{Figure, NetworkInterface};
use bbtop::table::Table;
use bbtop::text::{
    characters, join_texts, is_whitespace, lines, owned, split_once, split_once_at, strip_prefix,
    strip_suffix, trim_text, words,
};

fn chars(text: &str) -> Vec<char> {
    text.chars().collect()
}

const TEXTS: [&str; 12] = [
    "",
    "\n",
    "a",
    "a\n",
    "a\r\nb\r",
    "\r\n\r\n",
    "one two\tthree\n four",
    " \u{a0}x\u{2003}y ",
    "é\nü\u{85}ß",
    "a\rb\nc",
    "  lead",
    "trail  \n\n",
];

#[test]
fn white_space_is_that_of_unicode() {
    for c in '\0'..=char::MAX {
        assert_eq!(is_whitespace(c), c.is_whitespace(), "{c:?}");
    }
}

#[test]
fn characters_read_back() {
    for text in TEXTS {
        assert_eq!(characters(text), chars(text));
        assert_eq!(owned(&chars(text)), text);
    }
    assert_eq!(join_texts("ab", "cd"), "abcd");
}

#[test]
fn lines_words_and_ends_are_those_of_str() {
    for text in TEXTS {
        let all = chars(text);
        let found: Vec<String> = lines(&all).into_iter().map(owned).collect();
        assert_eq!(found, text.lines().map(str::to_owned).collect::<Vec<String>>());
        let found: Vec<String> = words(&all).into_iter().map(owned).collect();
        assert_eq!(found, text.split_whitespace().map(str::to_owned).collect::<Vec<String>>());
        assert_eq!(trim_text(text), text.trim());
    }
}

#[test]
fn cuts_are_those_of_str() {
    let text = chars("key: a - b - c:d");
    let (a, b) = split_once(&text, ':').unwrap();
    assert_eq!((owned(a), owned(b)), ("key".to_owned(), " a - b - c:d".to_owned()));
    let (a, b) = split_once_at(&text, " - ").unwrap();
    assert_eq!((owned(a), owned(b)), ("key: a".to_owned(), "b - c:d".to_owned()));
    assert!(split_once(&text, '#').is_none());
    assert!(split_once_at(&text, "--").is_none());
    assert_eq!(strip_prefix(&text, "key").map(owned).as_deref(), Some(": a - b - c:d"));
    assert_eq!(strip_suffix(&text, ":d").map(owned).as_deref(), Some("key: a - b - c"));
    assert!(strip_prefix(&text, "kay").is_none());
    assert!(strip_suffix(&chars("d"), ":d").is_none());
}

#[test]
fn numbers_are_read_like_std() {
    for text in [
        "", "+", "-", "0", "00", "+7", "-7", "- 7", "7 ", "1_0", "18446744073709551615",
        "18446744073709551616", "4294967295", "4294967296", "9223372036854775807",
        "9223372036854775808", "-9223372036854775808", "-9223372036854775809", "-0", "+-1", "٣",
    ] {
        let all = chars(text);
        assert_eq!(parse_u64(&all), text.parse::<u64>().ok(), "{text}");
        assert_eq!(parse_u32(&all), text.parse::<u32>().ok(), "{text}");
        assert_eq!(parse_usize(&all), text.parse::<usize>().ok(), "{text}");
        assert_eq!(parse_i64(&all), text.parse::<i64>().ok(), "{text}");
    }
    assert_eq!(read_i64(&Some(" -12\n".to_owned())), Some(-12));
    assert_eq!(read_i64(&Some("x".to_owned())), None);
    assert_eq!(read_i64(&None), None);
}

#[test]
fn real_numbers_are_those_that_std_reads() {
    for text in [
        "", ".", "-", "+", "1", "1.", ".5", "-.5", "+1.5", "1e5", "1E-5", "1e", "1e+", ".e1", "1.e1",
        "inf", "-INF", "infinity", "Infinity", "infinit", "nan", "NaN", "+nan", "nano", "1.5.5",
        "0x10", "1_0", " 1", "1 ", "--1", "e5", "1e5.0", "00012", "1e400", "∞", "1f",
    ] {
        assert_eq!(is_real_number(&chars(text)), text.parse::<f64>().is_ok(), "{text:?}");
    }
}

#[test]
fn decimals_are_written_and_read_back() {
    for n in [0, 7, 10, 99, 100, 12_345, u64::MAX] {
        assert_eq!(decimal_text(n), n.to_string());
        assert_eq!(parse_u64(&chars(&decimal_text(n))), Some(n));
    }
    let mut out = String::from("t");
    push_two_digits(&mut out, 5);
    push_two_digits(&mut out, 42);
    push_two_digits(&mut out, 123);
    assert_eq!(out, "t0542123");
}

#[test]
fn counters_wrap() {
    assert_eq!(add_wrapped(u64::MAX, 2), 1);
    assert_eq!(mul_wrapped(1 << 63, 2), 0);
    assert_eq!(mul_wrapped(3, 1024), 3072);
}

#[test]
fn texts_are_ordered_like_str() {
    for a in TEXTS {
        for b in TEXTS {
            assert_eq!(text_at_most(a, b), a <= b);
        }
    }
}

#[test]
fn sorts_and_ranks() {
    let interfaces: Vec<NetworkInterface> = ["lo", "eth1", "eth0", "wlan", "br", "a", "lo"]
        .iter()
        .map(|name| NetworkInterface { name: name.to_string(), ..NetworkInterface::default() })
        .collect();
    let sorted: Vec<String> = sort(interfaces).into_iter().map(|i| i.name).collect();
    assert_eq!(sorted, ["a", "br", "eth0", "eth1", "lo", "lo", "wlan"]);
    assert_eq!(rank(&vec![3, 9, -2, 9, 0]), vec![1, 3, 0, 4, 2]);
    let small = NetworkInterface { name: "a".into(), ..NetworkInterface::default() };
    let large = NetworkInterface { name: "b".into(), ..NetworkInterface::default() };
    assert!(small.at_most(&large) && !large.at_most(&small));
}

#[test]
fn a_table_keeps_what_was_put_last() {
    let mut table = Table::new();
    assert_eq!(table.get("a"), None);
    table.insert("a".to_owned(), 1);
    table.insert("b".to_owned(), 2);
    table.insert("a".to_owned(), 3);
    assert_eq!(table.get("a"), Some(3));
    assert_eq!(table.get_or_zero("b"), 2);
    assert_eq!(table.get_or_zero("c"), 0);
}

#[test]
fn a_figure_is_positive_above_zero() {
    let zero = Figure::zero();
    assert!(!zero.is_positive());
    assert_eq!(zero.shortest, format!("{}", 0.0));
    assert_eq!(zero.units, format!("{:.0}", 0.0));
    assert_eq!(zero.tenths, format!("{:.1}", 0.0));
    assert_eq!(zero.hundredths, format!("{:.2}", 0.0));
    assert_eq!(zero.thousandths, format!("{:.3}", 0.0));
    assert_eq!(zero.millionths, format!("{:.6}", 0.0));
    let rank = |x: f64| -> i64 {
        let bits = x.to_bits() as i64;
        bits ^ (((bits >> 63) as u64) >> 1) as i64
    };
    for x in [-1.0, -0.0, 0.0, 1e-300, 2.5, f64::INFINITY, f64::NAN, f64::NEG_INFINITY] {
        let figure = Figure { rank: rank(x), ..Figure::zero() };
        assert_eq!(figure.is_positive(), x > 0.0, "{x}");
    }
}
