use agent_memory::text::{
    chars_of, decimal_string, has_prefix, join_strings, matches_ignoring_case, parse_unsigned,
    rank_chars, split_all, split_at_first, split_chars, split_words, strip_leading,
    strip_trailing, take_before, trim_chars, Rank,
};
use agent_memory::topics::extract_topics;

fn strings(items: &[&str]) -> Vec<String> {
    items.iter().map(|s| s.to_string()).collect()
}

#[test]
fn topics_are_pairs_of_long_neighbours() {
    assert_eq!(
        extract_topics("machine learning systems are great"),
        strings(&["learning systems", "machine learning"])
    );
}

#[test]
fn words_of_three_characters_make_no_topic() {
    assert_eq!(extract_topics("the cat sat down"), Vec::<String>::new());
    assert_eq!(extract_topics("abc defg hijk"), strings(&["defg hijk"]));
    assert_eq!(extract_topics("abcd efg hijk"), Vec::<String>::new());
}

#[test]
fn two_words_of_four_characters_make_exactly_one_topic() {
    assert_eq!(extract_topics("abcd efgh"), strings(&["abcd efgh"]));
    assert_eq!(extract_topics("  abcd \t\n efgh  "), strings(&["abcd efgh"]));
}

#[test]
fn topics_stand_once_and_in_order() {
    assert_eq!(
        extract_topics("deep learning deep learning"),
        strings(&["deep learning", "learning deep"])
    );
    assert_eq!(
        extract_topics("zebra crossing apple orchard Zebra crossing"),
        strings(&["Zebra crossing", "apple orchard", "crossing apple", "orchard Zebra", "zebra crossing"])
    );
}

#[test]
fn a_topic_counts_characters_not_bytes() {
    assert_eq!(extract_topics("éé üü"), Vec::<String>::new());
    assert_eq!(extract_topics("éééé üüüü"), strings(&["éééé üüüü"]));
}

#[test]
fn extraction_is_repeatable() {
    let text = "What is machine learning? Machine learning is a branch of AI.";
    assert_eq!(extract_topics(text), extract_topics(text));
    assert_eq!(
        extract_topics(text),
        strings(&["Machine learning", "learning? Machine", "machine learning?"])
    );
}

#[test]
fn no_text_no_topics() {
    assert_eq!(extract_topics(""), Vec::<String>::new());
    assert_eq!(extract_topics("   "), Vec::<String>::new());
    assert_eq!(extract_topics("lonely"), Vec::<String>::new());
}

#[test]
fn words_are_split_at_white_space() {
    assert_eq!(split_words("  tell me\tabout\u{a0}rust\n"), strings(&["tell", "me", "about", "rust"]));
    assert_eq!(split_words(""), Vec::<String>::new());
    assert_eq!(split_words("one"), strings(&["one"]));
    let pieces = split_chars(&chars_of("a bc"));
    assert_eq!(pieces, vec![vec!['a'], vec!['b', 'c']]);
}

#[test]
fn texts_rank_in_dictionary_order() {
    let rank = |a: &str, b: &str| rank_chars(&chars_of(a), &chars_of(b));
    assert_eq!(rank("apple", "apple"), Rank::Same);
    assert_eq!(rank("apple", "apples"), Rank::Before);
    assert_eq!(rank("apples", "apple"), Rank::After);
    assert_eq!(rank("Zebra", "apple"), Rank::Before);
    assert_eq!(rank("b", "abc"), Rank::After);
    assert_eq!(rank("", "a"), Rank::Before);
    assert_eq!(rank("", ""), Rank::Same);
}

#[test]
fn numbers_are_written_in_decimal() {
    assert_eq!(decimal_string(0), "0");
    assert_eq!(decimal_string(7), "7");
    assert_eq!(decimal_string(10), "10");
    assert_eq!(decimal_string(1234567890), "1234567890");
    assert_eq!(decimal_string(u128::MAX), "340282366920938463463374607431768211455");
}

#[test]
fn texts_are_joined_with_a_separator() {
    assert_eq!(join_strings(&strings(&[]), ", "), "");
    assert_eq!(join_strings(&strings(&["a"]), ", "), "a");
    assert_eq!(join_strings(&strings(&["a", "b", "c"]), ", "), "a, b, c");
    assert_eq!(join_strings(&strings(&["", ""]), "-"), "-");
}

fn text(chars: Vec<char>) -> String {
    chars.into_iter().collect()
}

#[test]
fn texts_are_trimmed_of_white_space() {
    assert_eq!(text(trim_chars(&chars_of("  a b \t\n"))), "a b");
    assert_eq!(text(trim_chars(&chars_of("\u{a0}x\u{3000}"))), "x");
    assert_eq!(text(trim_chars(&chars_of("   "))), "");
    assert_eq!(text(trim_chars(&chars_of(""))), "");
    assert_eq!(text(trim_chars(&chars_of("x"))), "x");
}

#[test]
fn prefixes_and_suffixes_are_stripped_as_often_as_they_stand() {
    assert!(has_prefix(&chars_of("load ada"), "load "));
    assert!(has_prefix(&chars_of("load"), ""));
    assert!(!has_prefix(&chars_of("loa"), "load "));
    assert!(!has_prefix(&chars_of("Load ada"), "load "));
    assert_eq!(text(strip_leading(&chars_of("ababc"), "ab")), "c");
    assert_eq!(text(strip_leading(&chars_of("abab"), "ab")), "");
    assert_eq!(text(strip_leading(&chars_of("cab"), "ab")), "cab");
    assert_eq!(text(strip_leading(&chars_of("abc"), "")), "abc");
    assert_eq!(text(strip_trailing(&chars_of("cabab"), "ab")), "c");
    assert_eq!(text(strip_trailing(&chars_of("aaa"), "aa")), "a");
    assert_eq!(text(strip_trailing(&chars_of("abc"), "ab")), "abc");
    assert_eq!(text(strip_trailing(&chars_of("abc"), "")), "abc");
}

#[test]
fn a_text_is_cut_at_a_delimiter() {
    let parts = split_at_first(&chars_of("a: b: c"), ": ").unwrap();
    assert_eq!((text(parts.0), text(parts.1)), ("a".to_string(), "b: c".to_string()));
    let parts = split_at_first(&chars_of(" x"), " ").unwrap();
    assert_eq!((text(parts.0), text(parts.1)), (String::new(), "x".to_string()));
    assert!(split_at_first(&chars_of("abc"), ": ").is_none());
    assert!(split_at_first(&chars_of(""), "x").is_none());
    let parts = split_at_first(&chars_of("abc"), "").unwrap();
    assert_eq!((text(parts.0), text(parts.1)), (String::new(), "abc".to_string()));
    assert_eq!(text(take_before(&chars_of("key=value=x"), "=")), "key");
    assert_eq!(text(take_before(&chars_of("plain"), "=")), "plain");
    let pieces: Vec<String> = split_all(&chars_of("a,b,,c,"), ",").into_iter().map(text).collect();
    assert_eq!(pieces, vec!["a", "b", "", "c", ""]);
    let pieces: Vec<String> = split_all(&chars_of("abc"), "bc").into_iter().map(text).collect();
    assert_eq!(pieces, vec!["a", ""]);
    let pieces: Vec<String> = split_all(&chars_of(""), ",").into_iter().map(text).collect();
    assert_eq!(pieces, vec![""]);
    let pieces: Vec<String> = split_all(&chars_of("aaa"), "aa").into_iter().map(text).collect();
    assert_eq!(pieces, vec!["", "a"]);
}

#[test]
fn ascii_case_is_ignored_and_no_other() {
    assert!(matches_ignoring_case(&chars_of("TwEeT"), "tweet"));
    assert!(matches_ignoring_case(&chars_of("tweet"), "TWEET"));
    assert!(matches_ignoring_case(&chars_of(""), ""));
    assert!(!matches_ignoring_case(&chars_of("tweet"), "tweets"));
    assert!(!matches_ignoring_case(&chars_of("twee\u{74}\u{301}"), "tweet"));
    assert!(!matches_ignoring_case(&chars_of("É"), "é"));
    assert!(!matches_ignoring_case(&chars_of("@"), "`"));
    assert!(!matches_ignoring_case(&chars_of("["), "{"));
}

#[test]
fn numbers_are_read_in_decimal() {
    assert_eq!(parse_unsigned(&chars_of("0"), u64::MAX), Some(0));
    assert_eq!(parse_unsigned(&chars_of("+42"), u64::MAX), Some(42));
    assert_eq!(parse_unsigned(&chars_of("0042"), 100), Some(42));
    assert_eq!(parse_unsigned(&chars_of("100"), 100), Some(100));
    assert_eq!(parse_unsigned(&chars_of("101"), 100), None);
    assert_eq!(parse_unsigned(&chars_of("18446744073709551615"), u64::MAX), Some(u64::MAX));
    assert_eq!(parse_unsigned(&chars_of("18446744073709551616"), u64::MAX), None);
    assert_eq!(parse_unsigned(&chars_of(""), u64::MAX), None);
    assert_eq!(parse_unsigned(&chars_of("+"), u64::MAX), None);
    assert_eq!(parse_unsigned(&chars_of("-1"), u64::MAX), None);
    assert_eq!(parse_unsigned(&chars_of("++1"), u64::MAX), None);
    assert_eq!(parse_unsigned(&chars_of("1 "), u64::MAX), None);
    assert_eq!(parse_unsigned(&chars_of("١٢"), u64::MAX), None);
}
