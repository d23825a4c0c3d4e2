use competeevolve::digits::{parse_usize, write_decimal, write_padded, write_usize};
use competeevolve::embedding::{bucket, bucket_counts, bucket_of_hash, count_buckets, hash_text};
use competeevolve::fitness::{tokens, terms};
use competeevolve::gemini::truncate;
use competeevolve::json::{parse_json, Json};
use competeevolve::measure::Measure;
use competeevolve::ranking::{rank_keys, Rank};
use competeevolve::text::{
    comes_before, contains, eq_ignore_ascii_case, find, is_alphanumeric, is_blank, is_white_space,
    join, lines, pad_right, rfind, runs, strip, strip_prefix, to_lowercase, trim, CharClass,
};
use std::collections::hash_map::DefaultHasher;
use std::hash::{Hash, Hasher};

#[test]
fn trimming_follows_unicode() {
    assert_eq!(trim("\u{a0}\t a b \u{2003}\n"), "a b");
    assert_eq!(trim("\u{200b}x"), "\u{200b}x");
    assert!(is_blank(" \u{3000}\r\n"));
    assert!(!is_blank("."));
    assert_eq!(strip("\n\na\n b\n", CharClass::NewLine), "a\n b");
    assert_eq!(strip("17ss", CharClass::SecondsUnit), "17");
}

#[test]
fn searching_counts_characters() {
    assert_eq!(find("\u{e9}ab\u{e9}ab", "ab"), Some(1));
    assert_eq!(rfind("\u{e9}ab\u{e9}ab", "ab"), Some(4));
    assert_eq!(find("abc", ""), Some(0));
    assert_eq!(rfind("abc", ""), Some(3));
    assert_eq!(find("ab", "abc"), None);
    assert!(contains("xclass Modely", "class Model"));
    assert_eq!(strip_prefix("```py", "```"), Some("py"));
    assert_eq!(strip_prefix("``", "```"), None);
}

#[test]
fn lines_and_runs_split() {
    assert_eq!(lines("a\r\nb\n\nc"), vec!["a", "b", "", "c"]);
    assert_eq!(lines("a\n"), vec!["a"]);
    assert_eq!(lines("x\r"), vec!["x\r"]);
    assert!(lines("").is_empty());
    assert_eq!(runs(" a  bc\t", CharClass::NonBlank), vec!["a", "bc"]);
    assert_eq!(runs("x_1=\u{e9}(y)", CharClass::Identifier), vec!["x_1", "\u{e9}", "y"]);
}

#[test]
fn case_order_and_padding() {
    assert!(eq_ignore_ascii_case("ReAd", "read"));
    assert!(!eq_ignore_ascii_case("\u{c9}", "\u{e9}"));
    assert!(comes_before("a1", "a2"));
    assert!(comes_before("a", "a1"));
    assert!(!comes_before("b", "a9"));
    assert!(!comes_before("a", "a"));
    assert!(comes_before("z", "\u{e9}"));
    assert_eq!(pad_right("ab", 4), "ab  ");
    assert_eq!(pad_right("abcde", 4), "abcde");
    assert_eq!(join(&vec!["a".to_string(), "b".to_string()], ", "), "a, b");
    assert_eq!(join(&vec![], ", "), "");
}

#[test]
fn numbers_are_written_and_read() {
    assert_eq!(write_decimal(18_446_744_073_709_551_615), "18446744073709551615");
    assert_eq!(write_usize(0), "0");
    assert_eq!(write_padded(7, 3), "007");
    assert_eq!(write_padded(1234, 3), "1234");
    assert_eq!(parse_usize("+42"), Some(42));
    assert_eq!(parse_usize("18446744073709551616"), None);
    assert_eq!(parse_usize(""), None);
    assert_eq!(parse_usize("+"), None);
    assert_eq!(parse_usize("-1"), None);
    assert_eq!(parse_usize(" 1"), None);
    assert_eq!(parse_usize(&write_usize(90210)), Some(90210));
}

#[test]
fn truncation_counts_characters() {
    assert_eq!(truncate("\u{e9}\u{e9}\u{e9}", 3), "\u{e9}\u{e9}\u{e9}");
    assert_eq!(truncate("abcd", 3), "abc...");
    assert_eq!(truncate("a", 0), "...");
}

#[test]
fn measures_keep_the_order_of_doubles() {
    let list = [-1e300, -2.0, -0.5, -0.0, 1e-9, 0.5, 2.0, f64::INFINITY];
    for i in 0..list.len() {
        let a = Measure::from_bits(list[i].to_bits()).unwrap();
        assert_eq!(f64::from_bits(a.to_bits()), list[i]);
        for j in 0..list.len() {
            let b = Measure::from_bits(list[j].to_bits()).unwrap();
            assert_eq!(a.less(b), list[i] < list[j]);
            assert_eq!(a.at_least(b), list[i] >= list[j]);
        }
    }
    assert!(Measure::from_bits(f64::NAN.to_bits()).is_none());
    assert_eq!(
        Measure::from_bits((-0.0f64).to_bits()),
        Measure::from_bits(0.0f64.to_bits())
    );
}

#[test]
fn tokens_are_lower_case_words_and_pairs() {
    assert_eq!(tokens("Foo.bar_1(X)"), vec!["foo", "bar_1", "x"]);
    assert_eq!(
        terms("Foo.bar_1(X)"),
        vec!["foo", "foo bar_1", "bar_1", "bar_1 x", "x"]
    );
    // One letter may have a lower case of two.
    assert_eq!(tokens("\u{130}"), vec!["i\u{307}"]);
    assert!(terms("...").is_empty());
}

#[test]
fn buckets_follow_the_standard_hasher() {
    for word in ["alpha", "beta", "", "x y"] {
        let mut h = DefaultHasher::new();
        word.hash(&mut h);
        assert_eq!(bucket(word, 512), (h.finish() % 512) as usize);
    }
    let list = vec!["a".to_string(), "b".to_string(), "a".to_string()];
    let counts = bucket_counts(&list, 256);
    assert_eq!(counts.len(), 256);
    assert_eq!(counts.iter().sum::<u64>(), 3);
    assert!(counts[bucket("a", 256)] >= 2);
}

#[test]
fn json_is_read_with_its_numbers() {
    let j = parse_json("{\"a\": [null, true, 3, -1.50, 1e3], \"b\": {\"c\": \"x\\u00e9\"}}").unwrap();
    let a = j.get("a").unwrap();
    assert!(matches!(a.item(0), Some(Json::Null)));
    assert!(matches!(a.item(1), Some(Json::Bool(true))));
    assert!(matches!(a.item(2), Some(Json::Number { whole: Some(3), .. })));
    assert!(matches!(a.item(3), Some(Json::Number { whole: None, text }) if text == "-1.5"));
    assert!(matches!(a.item(4), Some(Json::Number { whole: None, .. })));
    assert!(a.item(5).is_none());
    assert_eq!(j.get("b").unwrap().text_field("c"), Some("x\u{e9}"));
    assert!(j.get("b").unwrap().get("a").is_none());
    assert!(parse_json("{").is_none());
    // The last field of a name counts.
    assert_eq!(parse_json("{\"a\": \"1\", \"a\": \"2\"}").unwrap().text_field("a"), Some("2"));
}

fn rank(valid: bool, score: i64, performance: i64, name: &str) -> Rank {
    Rank {
        valid,
        score: Measure { key: score },
        performance: Measure { key: performance },
        name: name.to_string(),
    }
}

#[test]
fn ranking_is_stable_and_best_first() {
    let keys = vec![
        rank(false, 9, 9, ""),
        rank(true, 1, 5, "b"),
        rank(true, 1, 5, "a"),
        rank(true, 2, 0, "z"),
        rank(true, 1, 6, "z"),
        rank(true, 1, 5, "a"),
    ];
    assert_eq!(rank_keys(&keys), vec![3, 4, 2, 5, 1, 0]);
    assert!(rank_keys(&vec![]).is_empty());
}

#[test]
fn character_classes_agree_with_std() {
    for n in 0..=0x10ffffu32 {
        if let Some(c) = char::from_u32(n) {
            assert_eq!(is_white_space(c), c.is_whitespace(), "{n:x}");
            assert_eq!(is_alphanumeric(c), c.is_alphanumeric(), "{n:x}");
        }
    }
}

#[test]
fn lower_case_agrees_with_std() {
    assert_eq!(to_lowercase("Read_42 Z@[`"), "read_42 z@[`");
    assert_eq!(to_lowercase(""), "");
    assert_eq!(to_lowercase("\u{c9}A\u{3a3}"), "\u{e9}a\u{3c2}");
    for n in 0..=0x2fffu32 {
        if let Some(c) = char::from_u32(n) {
            let s = format!("A{c}Z");
            assert_eq!(to_lowercase(&s), s.to_lowercase());
        }
    }
}

#[test]
fn buckets_are_remainders_and_are_counted() {
    let mut h = DefaultHasher::new();
    "fit".hash(&mut h);
    assert_eq!(hash_text("fit"), h.finish());
    assert_eq!(bucket_of_hash(1000, 512), 488);
    assert_eq!(bucket_of_hash(u64::MAX, 256), 255);
    assert_eq!(bucket_of_hash(7, 1), 0);
    assert_eq!(count_buckets(&vec![2, 0, 2, 2], 4), vec![1, 0, 3, 0]);
    assert_eq!(count_buckets(&vec![], 2), vec![0, 0]);
}
