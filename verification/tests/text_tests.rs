use solo_project::utils::ordered::{compare_texts, TextOrder, TextSet};
use solo_project::utils::text::{
    chars_of, i64_text, is_white_space_char, parse_u64, text_of, trim_text, u64_text,
};
use std::collections::BTreeSet;

#[test]
fn trim_removes_surrounding_white_space() {
    assert_eq!(trim_text("  abc \t\n"), "abc");
    assert_eq!(trim_text("\u{3000}x y\u{A0}"), "x y");
    assert_eq!(trim_text("   "), "");
    assert_eq!(trim_text(""), "");
    assert_eq!(trim_text("a"), "a");
}

#[test]
fn trim_agrees_with_std_trim() {
    let samples = [
        " 10 ", "\u{2000}\u{200A}q\u{205F}", "\u{85}x\u{1680}", "\u{200B}z\u{200B}",
        "Пролёт №6 ", "\r\n\t", "a b", "\u{180E}m",
    ];
    for s in samples.iter() {
        assert_eq!(trim_text(s), s.trim(), "input {:?}", s);
    }
}

#[test]
fn trimming_twice_changes_nothing() {
    for s in [" a ", "\tb\u{3000}", "", "  "].iter() {
        let once = trim_text(s);
        assert_eq!(trim_text(&once), once);
    }
}

#[test]
fn white_space_matches_std() {
    for u in 0u32..0x3100 {
        if let Some(c) = char::from_u32(u) {
            assert_eq!(is_white_space_char(c), c.is_whitespace(), "code point {:x}", u);
        }
    }
}

#[test]
fn parse_u64_cases() {
    assert_eq!(parse_u64("42"), Some(42));
    assert_eq!(parse_u64("+7"), Some(7));
    assert_eq!(parse_u64("007"), Some(7));
    assert_eq!(parse_u64(""), None);
    assert_eq!(parse_u64("+"), None);
    assert_eq!(parse_u64("-1"), None);
    assert_eq!(parse_u64(" 5"), None);
    assert_eq!(parse_u64("1a"), None);
    assert_eq!(parse_u64("18446744073709551615"), Some(u64::MAX));
    assert_eq!(parse_u64("18446744073709551616"), None);
    assert_eq!(parse_u64("99999999999999999999x"), None);
}

#[test]
fn parse_u64_agrees_with_std() {
    let samples = ["0", "10", "+", "++1", "+0", "1_000", "٣", "184467440737095516150", "12 "];
    for s in samples.iter() {
        assert_eq!(parse_u64(s), s.parse::<u64>().ok(), "input {:?}", s);
    }
}

#[test]
fn decimal_text_of_numbers() {
    assert_eq!(u64_text(0), "0");
    assert_eq!(u64_text(1234), "1234");
    assert_eq!(u64_text(u64::MAX), u64::MAX.to_string());
    assert_eq!(i64_text(-5), "-5");
    assert_eq!(i64_text(0), "0");
    assert_eq!(i64_text(i64::MIN), i64::MIN.to_string());
    assert_eq!(i64_text(i64::MAX), i64::MAX.to_string());
}

#[test]
fn parse_reads_back_decimal_text() {
    for n in [0u64, 9, 10, 65535, 1 << 40, u64::MAX].iter() {
        assert_eq!(parse_u64(&u64_text(*n)), Some(*n));
    }
}

#[test]
fn chars_and_text_of() {
    let c = chars_of("КПЦ-1");
    assert_eq!(c, vec!['К', 'П', 'Ц', '-', '1']);
    assert_eq!(text_of(&c, 1, 3), "ПЦ");
    assert_eq!(text_of(&c, 2, 2), "");
}

#[test]
fn compare_texts_orders_by_code_point() {
    let a = chars_of("abc");
    let b = chars_of("abd");
    let p = chars_of("ab");
    assert!(matches!(compare_texts(&a, &b), TextOrder::Less));
    assert!(matches!(compare_texts(&b, &a), TextOrder::Greater));
    assert!(matches!(compare_texts(&p, &a), TextOrder::Less));
    assert!(matches!(compare_texts(&a, &a), TextOrder::Equal));
    let z = chars_of("z");
    let ya = chars_of("я");
    assert!(matches!(compare_texts(&z, &ya), TextOrder::Less));
}

#[test]
fn text_set_is_ascending_without_repeats() {
    let mut set = TextSet::new();
    for t in ["b", "a", "b", "c", "", "a"].iter() {
        set.insert(t);
    }
    assert_eq!(set.into_strings(), vec!["", "a", "b", "c"]);
}

#[test]
fn text_set_orders_as_btreeset() {
    let items: Vec<String> = [
        "П-12", "A-1", "a-1", "Я", "й", "10", "9", "100", "Z", "ё", "е", "A-1", "Ω", "😀", "",
    ]
    .iter()
    .map(|s| s.to_string())
    .collect();
    let mut set = TextSet::new();
    set.extend(&items);
    let expected: Vec<String> = items.iter().cloned().collect::<BTreeSet<_>>().into_iter().collect();
    assert_eq!(set.into_strings(), expected);
}

#[test]
fn text_set_does_not_depend_on_insertion_order() {
    let a: Vec<String> = ["x", "y", "z", "x"].iter().map(|s| s.to_string()).collect();
    let b: Vec<String> = ["z", "x", "y"].iter().map(|s| s.to_string()).collect();
    let mut s1 = TextSet::new();
    s1.extend(&a);
    let mut s2 = TextSet::new();
    s2.extend(&b);
    assert_eq!(s1.into_strings(), s2.into_strings());
}
