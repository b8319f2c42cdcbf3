use aidoku_sources::civil::days_from_civil;
use aidoku_sources::lists::{contains_string, dedupe_urls, push_unique};
use aidoku_sources::lelmanga::capitalize;
use aidoku_sources::lelscanfr::parse_status;
use aidoku_sources::model::{QueryParam, Status};
use aidoku_sources::query::{join_exec, push_query_param, render_params, url_with_query};
use aidoku_sources::text::{
    before_char_exec, chars_of, collapse_ws_exec, decimal_exec, find_exec,
    parse_i64_chars, replace_str, string_of, strip_end_chars, strip_prefix_all_exec,
    strip_start_chars, trim_chars, words_exec,
};

fn s(v: &str) -> String {
    v.to_string()
}

fn cs(v: &str) -> Vec<char> {
    v.chars().collect()
}

#[test]
fn characters_roundtrip() {
    assert_eq!(chars_of("héllo"), cs("héllo"));
    assert_eq!(string_of(&cs("héllo")), "héllo");
}

#[test]
fn trims_unicode_whitespace() {
    assert_eq!(string_of(&trim_chars(&cs("\u{3000}\t a b \u{a0}\n"))), "a b");
    assert_eq!(string_of(&trim_chars(&cs("   "))), "");
    assert_eq!(string_of(&strip_start_chars(&cs("::a:"), ':')), "a:");
    assert_eq!(string_of(&strip_end_chars(&cs(",a,,"), ',')), ",a");
    let base = cs("ab");
    assert_eq!(string_of(&strip_prefix_all_exec(&cs("ababx"), &base)), "x");
}

#[test]
fn collapses_and_splits_words() {
    assert_eq!(string_of(&collapse_ws_exec(&cs("  a \u{2003} b\n\nc "))), "a b c");
    let words: Vec<String> = words_exec(&cs(" one\ttwo  three ")).iter().map(|w| string_of(w)).collect();
    assert_eq!(words, vec![s("one"), s("two"), s("three")]);
    assert!(words_exec(&cs(" \n ")).is_empty());
}

#[test]
fn finds_and_replaces() {
    assert_eq!(find_exec(&cs("abcabc"), &cs("ca")), Some(2));
    assert_eq!(find_exec(&cs("abc"), &cs("x")), None);
    assert_eq!(find_exec(&cs("abc"), &cs("")), Some(0));
    assert_eq!(string_of(&replace_str(&cs("aaa"), "aa", "b")), "ba");
    assert_eq!(string_of(&replace_str(&cs("a,b,,c"), ",", "")), "abc");
    assert_eq!(string_of(&before_char_exec(&cs("a/b/c"), '/')), "a");
    assert_eq!(string_of(&before_char_exec(&cs("abc"), '/')), "abc");
}

#[test]
fn decimal_texts() {
    assert_eq!(string_of(&decimal_exec(0)), "0");
    assert_eq!(string_of(&decimal_exec(2024)), "2024");
    assert_eq!(string_of(&decimal_exec(-45)), "-45");
    assert_eq!(string_of(&decimal_exec(i64::MIN)), "-9223372036854775808");
}

#[test]
fn parses_integers_like_std() {
    for text in ["0", "42", "+7", "-7", "", "-", "+", "4a", " 4", "9223372036854775807", "9223372036854775808", "-9223372036854775808", "-9223372036854775809", "00012"] {
        assert_eq!(parse_i64_chars(&cs(text)), text.parse::<i64>().ok(), "{}", text);
    }
}

#[test]
fn case_mappings() {
    assert_eq!(capitalize("a"), "A");
    assert_eq!(capitalize("ßa"), "SSa");
    assert_eq!(parse_status(Some(s("EN COURS"))), Status::Ongoing);
    assert_eq!(parse_status(Some(s("ÉN PAUSE"))), Status::Hiatus);
}

#[test]
fn lists_without_repeats() {
    let v = dedupe_urls(vec![s("a"), s("b"), s("a"), s("c"), s("b")]);
    assert_eq!(v, vec![s("a"), s("b"), s("c")]);
    let mut l = vec![s("x")];
    push_unique(&mut l, s("x"));
    push_unique(&mut l, s("y"));
    assert_eq!(l, vec![s("x"), s("y")]);
    assert!(contains_string(&l, &s("y")));
    assert!(!contains_string(&l, &s("z")));
}

#[test]
fn query_strings() {
    let mut params = Vec::new();
    push_query_param(&mut params, "q", "  two words ");
    push_query_param(&mut params, "empty", " \t ");
    params.push(QueryParam { key: s("page"), value: s("2"), encode: false });
    assert_eq!(params.len(), 2);
    assert_eq!(params[0].value, "two words");
    let encoded = vec![(s("q"), s("two%20words")), (s("ignored"), s("ignored"))];
    let rendered = render_params(&params, &encoded);
    assert_eq!(rendered, vec![s("q=two%20words"), s("page=2")]);
    assert_eq!(string_of(&join_exec(&rendered, "&")), "q=two%20words&page=2");
    assert_eq!(url_with_query("/path", &rendered), "/path?q=two%20words&page=2");
    assert_eq!(url_with_query("/path", &vec![]), "/path");
}

#[test]
fn calendar_laws_on_dates() {
    // the first of January of a leap year and of the next year
    assert_eq!(days_from_civil(2001, 1, 1).unwrap() - days_from_civil(2000, 1, 1).unwrap(), 366);
    assert_eq!(days_from_civil(1901, 1, 1).unwrap() - days_from_civil(1900, 1, 1).unwrap(), 365);
    // February of a leap year has 29 days, of a common year 28
    assert_eq!(days_from_civil(2024, 3, 1).unwrap() - days_from_civil(2024, 2, 1).unwrap(), 29);
    assert_eq!(days_from_civil(2023, 3, 1).unwrap() - days_from_civil(2023, 2, 1).unwrap(), 28);
    assert_eq!(days_from_civil(2023, 5, 1).unwrap() - days_from_civil(2023, 4, 1).unwrap(), 30);
    assert_eq!(days_from_civil(2024, 1, 1).unwrap() - days_from_civil(2023, 12, 1).unwrap(), 31);
    assert_eq!(days_from_civil(2023, 6, 16).unwrap() - days_from_civil(2023, 6, 15).unwrap(), 1);
    assert_eq!(days_from_civil(-1, 12, 31), Some(-719529));
}
