use redox::acceptance::Test;
use redox::number::{format_i64, format_u64, parse_i64};
use redox::order::{chars_less, sort_positions};
use redox::persistence::{LoadError, Persistence, Snapshot};
use redox::range::normalize_range;
use redox::score::{rank_of, Score, INFINITY_BITS, NEG_INFINITY_BITS};
use redox::text::{chars_of, is_keyword, split_tokens};
use redox::value::{Kind, RedoxValue};

fn basic_score(value: f64) -> Score {
    Score::new(value.to_bits(), format!("{}", value)).unwrap()
}

fn letters(s: &str) -> Vec<char> {
    s.chars().collect()
}

#[test]
fn normalize_range_whole_sequence() {
    assert_eq!(normalize_range(0, -1, 3), Some((0, 2)));
    assert_eq!(normalize_range(0, -1, 1), Some((0, 0)));
}

#[test]
fn normalize_range_negative_indices_count_from_the_end() {
    assert_eq!(normalize_range(-2, -1, 5), Some((3, 4)));
    assert_eq!(normalize_range(-5, -5, 5), Some((0, 0)));
    assert_eq!(normalize_range(-100, 1, 5), Some((0, 1)));
    assert_eq!(normalize_range(-100, -100, 5), Some((0, 0)));
}

#[test]
fn normalize_range_clamps_to_the_last_position() {
    assert_eq!(normalize_range(1, 100, 3), Some((1, 2)));
    assert_eq!(normalize_range(100, 200, 3), Some((2, 2)));
    assert_eq!(normalize_range(i64::MIN, i64::MAX, 4), Some((0, 3)));
}

#[test]
fn normalize_range_start_behind_stop_selects_nothing() {
    assert_eq!(normalize_range(2, 1, 5), None);
    assert_eq!(normalize_range(-1, 0, 5), None);
    assert_eq!(normalize_range(-1, -2, 5), None);
}

#[test]
fn normalize_range_of_nothing() {
    assert_eq!(normalize_range(0, -1, 0), None);
    assert_eq!(normalize_range(0, 0, 0), None);
}

#[test]
fn parse_i64_reads_signed_decimals() {
    assert_eq!(parse_i64("0"), Some(0));
    assert_eq!(parse_i64("-0"), Some(0));
    assert_eq!(parse_i64("+17"), Some(17));
    assert_eq!(parse_i64("-17"), Some(-17));
    assert_eq!(parse_i64("0000000000000000000000012"), Some(12));
    assert_eq!(parse_i64("9223372036854775807"), Some(i64::MAX));
    assert_eq!(parse_i64("-9223372036854775808"), Some(i64::MIN));
}

#[test]
fn parse_i64_rejects_what_is_no_integer_in_range() {
    assert_eq!(parse_i64(""), None);
    assert_eq!(parse_i64("-"), None);
    assert_eq!(parse_i64("+"), None);
    assert_eq!(parse_i64("+-1"), None);
    assert_eq!(parse_i64("1 "), None);
    assert_eq!(parse_i64("1_000"), None);
    assert_eq!(parse_i64("12a"), None);
    assert_eq!(parse_i64("\u{661}"), None);
    assert_eq!(parse_i64("9223372036854775808"), None);
    assert_eq!(parse_i64("-9223372036854775809"), None);
    assert_eq!(parse_i64("99999999999999999999999999999999999999999"), None);
}

#[test]
fn parse_i64_agrees_with_the_standard_parser() {
    for token in ["5", "-5", "+5", "05", "", "-", "5x", "x5", "1e3", "١", "18446744073709551616"] {
        assert_eq!(parse_i64(token), token.parse::<i64>().ok(), "token {:?}", token);
    }
}

#[test]
fn format_integers() {
    assert_eq!(format_u64(0), "0");
    assert_eq!(format_u64(7), "7");
    assert_eq!(format_u64(10), "10");
    assert_eq!(format_u64(1234567890), "1234567890");
    assert_eq!(format_u64(u64::MAX), "18446744073709551615");
    assert_eq!(format_i64(0), "0");
    assert_eq!(format_i64(-1), "-1");
    assert_eq!(format_i64(i64::MAX), "9223372036854775807");
    assert_eq!(format_i64(i64::MIN), "-9223372036854775808");
}

#[test]
fn chars_of_yields_the_characters() {
    assert_eq!(chars_of("héllo"), letters("héllo"));
    assert_eq!(chars_of(""), Vec::<char>::new());
}

#[test]
fn split_tokens_yields_the_words() {
    assert_eq!(split_tokens("lpush  mylist\tworld\n"), vec!["lpush", "mylist", "world"]);
    assert_eq!(split_tokens("x"), vec!["x"]);
}

#[test]
fn is_keyword_ignores_ascii_case_only() {
    assert!(is_keyword("set", "SET"));
    assert!(is_keyword("sEt", "SET"));
    assert!(!is_keyword("sett", "SET"));
    assert!(!is_keyword("se", "SET"));
    assert!(!is_keyword("\u{17f}et", "SET"));
    assert!(!is_keyword("\u{131}nfo", "INFO"));
}

#[test]
fn score_new_rejects_nan() {
    assert!(Score::new(f64::NAN.to_bits(), "NaN".to_string()).is_none());
    assert!(Score::new((-f64::NAN).to_bits(), "NaN".to_string()).is_none());
    assert!(Score::new(0x7ff0_0000_0000_0001, "NaN".to_string()).is_none());
    assert!(Score::new(0xffff_ffff_ffff_ffff, "NaN".to_string()).is_none());
    assert!(Score::new(f64::INFINITY.to_bits(), "inf".to_string()).is_some());
    assert!(Score::new(f64::NEG_INFINITY.to_bits(), "-inf".to_string()).is_some());
    assert!(Score::new(0, "0".to_string()).is_some());
}

#[test]
fn score_keeps_bits_and_text() {
    let score = Score::new(66.0f64.to_bits(), "66".to_string()).unwrap();
    assert_eq!(score.bits(), 66.0f64.to_bits());
    assert_eq!(score.text(), "66");
    let copy = score.clone();
    assert_eq!(copy, score);
}

#[test]
fn infinity_patterns() {
    assert_eq!(INFINITY_BITS, f64::INFINITY.to_bits());
    assert_eq!(NEG_INFINITY_BITS, f64::NEG_INFINITY.to_bits());
}

#[test]
fn rank_of_exact_values() {
    assert_eq!(rank_of(0), 0);
    assert_eq!(rank_of(1), 1);
    assert_eq!(rank_of(0x8000_0000_0000_0000), -1);
    assert_eq!(rank_of(0x8000_0000_0000_0001), -2);
    assert_eq!(rank_of(0x7fff_ffff_ffff_ffff), i64::MAX);
    assert_eq!(rank_of(0xffff_ffff_ffff_ffff), i64::MIN);
}

#[test]
fn rank_follows_the_total_order_of_numbers() {
    let ascending = [
        f64::NEG_INFINITY,
        -1e300,
        -2.5,
        -1.0,
        -f64::MIN_POSITIVE,
        -0.0,
        0.0,
        f64::MIN_POSITIVE,
        0.5,
        1.0,
        66.0,
        1e300,
        f64::INFINITY,
    ];
    for pair in ascending.windows(2) {
        assert!(rank_of(pair[0].to_bits()) < rank_of(pair[1].to_bits()), "{:?}", pair);
        assert!(basic_score(pair[0]).at_most(&basic_score(pair[1])));
        assert!(!basic_score(pair[1]).at_most(&basic_score(pair[0])));
    }
    assert!(basic_score(1.0).at_most(&basic_score(1.0)));
}

#[test]
fn chars_less_compares_character_by_character() {
    assert!(chars_less(&letters("a"), &letters("b")));
    assert!(chars_less(&letters("a"), &letters("ab")));
    assert!(chars_less(&letters(""), &letters("a")));
    assert!(!chars_less(&letters("a"), &letters("a")));
    assert!(!chars_less(&letters("b"), &letters("a")));
    assert!(!chars_less(&letters("ab"), &letters("a")));
    assert!(chars_less(&letters("Z"), &letters("a")));
    assert!(chars_less(&letters("z"), &letters("é")));
}

#[test]
fn chars_less_agrees_with_string_order() {
    let words = ["", "a", "ab", "b", "B", "é", "z", "zz", "user1", "user10", "user2", "日本"];
    for a in words {
        for b in words {
            assert_eq!(chars_less(&letters(a), &letters(b)), a < b, "{:?} {:?}", a, b);
        }
    }
}

#[test]
fn sort_positions_orders_by_number_then_text() {
    let keys = vec![
        (5, letters("b")),
        (1, letters("z")),
        (5, letters("a")),
        (-3, letters("m")),
        (1, letters("y")),
    ];
    assert_eq!(sort_positions(&keys), vec![3, 4, 1, 2, 0]);
    assert_eq!(sort_positions(&vec![]), Vec::<usize>::new());
}

#[test]
fn sort_positions_keeps_equal_keys_in_order() {
    let keys = vec![(0, letters("x")), (0, letters("x")), (0, letters("a")), (0, letters("x"))];
    assert_eq!(sort_positions(&keys), vec![2, 0, 1, 3]);
}

#[test]
fn expectation_with_one_reply() {
    let step = Test::new("get testkey", "hello");
    assert_eq!(step.command, "get testkey");
    assert_eq!(step.expected, vec!["hello"]);
    assert!(step.matches("hello"));
    assert!(!step.matches("hello "));
    assert!(!step.matches(""));
}

#[test]
fn expectation_with_several_replies() {
    let step = Test::with_multiple("smembers myset", vec!["member1 member2", "member2 member1"]);
    assert_eq!(step.command, "smembers myset");
    assert!(step.matches("member1 member2"));
    assert!(step.matches("member2 member1"));
    assert!(!step.matches("member1"));
    let none = Test::with_multiple("x", vec![]);
    assert!(!none.matches(""));
}

#[test]
fn value_kinds() {
    assert_eq!(RedoxValue::String(String::new()).kind(), Kind::String);
    assert_eq!(RedoxValue::List(vec![]).kind(), Kind::List);
    assert_eq!(RedoxValue::Members(vec![]).kind(), Kind::Members);
    assert_eq!(RedoxValue::Hash(vec![]).kind(), Kind::Hash);
    assert_eq!(RedoxValue::SortedSet(vec![]).kind(), Kind::SortedSet);
    assert!(RedoxValue::String(String::new()).is_string());
    assert!(!RedoxValue::String(String::new()).is_list());
    assert!(RedoxValue::List(vec![]).is_list());
    assert!(RedoxValue::Members(vec![]).is_members());
    assert!(RedoxValue::Hash(vec![]).is_hash());
    assert!(RedoxValue::SortedSet(vec![]).is_sorted_set());
    assert!(!RedoxValue::SortedSet(vec![]).is_hash());
}

#[test]
fn persistence_starts_clean() {
    let p = Persistence::new("data.json".to_string(), 60);
    assert_eq!(p.file_path(), "data.json");
    assert_eq!(p.temp_path(), "data.json.temp");
    assert_eq!(p.save_interval(), 60);
    assert_eq!(p.last_save(), 0);
    assert!(!p.save_due());
}

#[test]
fn persistence_dirty_flag_cycle() {
    let mut p = Persistence::new("data.json".to_string(), 60);
    p.mark_dirty();
    assert!(p.save_due());
    p.mark_dirty();
    assert!(p.save_due());
    p.record_save(1234);
    assert!(!p.save_due());
    assert_eq!(p.last_save(), 1234);
    assert_eq!(p.file_path(), "data.json");
    assert_eq!(p.save_interval(), 60);
}

#[test]
fn load_of_missing_file_is_empty() {
    let found = Persistence::load(false, None, None);
    assert_eq!(found, Ok(Snapshot { data: vec![], expiry: vec![] }));
    let stale = Snapshot {
        data: vec![("k".to_string(), RedoxValue::String("v".to_string()))],
        expiry: vec![],
    };
    assert_eq!(
        Persistence::load(false, Some(stale), None),
        Ok(Snapshot { data: vec![], expiry: vec![] })
    );
}

#[test]
fn load_prefers_current_layout() {
    let current = Snapshot {
        data: vec![("k".to_string(), RedoxValue::String("v".to_string()))],
        expiry: vec![("k".to_string(), 99)],
    };
    let legacy = vec![("old".to_string(), RedoxValue::List(vec![]))];
    assert_eq!(Persistence::load(true, Some(current.clone()), Some(legacy)), Ok(current));
}

#[test]
fn load_falls_back_to_legacy_layout() {
    let legacy = vec![("old".to_string(), RedoxValue::List(vec!["a".to_string()]))];
    assert_eq!(
        Persistence::load(true, None, Some(legacy.clone())),
        Ok(Snapshot { data: legacy, expiry: vec![] })
    );
}

#[test]
fn load_of_unreadable_contents_fails() {
    assert_eq!(Persistence::load(true, None, None), Err(LoadError::InvalidData));
}
