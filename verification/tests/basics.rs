use hippocampus::digest::{bytes_sha256, content_sha256, is_sha256, push_be, push_le};
use hippocampus::json::{
    json_number, json_text, parse_json, remove_member, render, same_json, set_member, Json,
    JsonObject,
};
use hippocampus::model::{add_counts, event_id, EventRole, TokenUsage};
use hippocampus::moment::time;
use hippocampus::number::{number_fault, parse_number, NumberFault};
use hippocampus::order::{stable_order, KeyPart};
use hippocampus::text::{
    compact, contains_part, decimal_string, ends_with, insert_text, is_blank, join, remove_text,
    sorted_set, split_words, starts_with, text_before, union_of,
};

#[test]
fn digests_are_those_of_sha256() {
    assert_eq!(
        content_sha256("abc"),
        "ba7816bf8f01cfea414140de5dae2223b00361a396177a9cb410ff61f20015ad"
    );
    assert_eq!(
        bytes_sha256(&[]),
        "e3b0c44298fc1c149afbf4c8996fb92427ae41e4649b934ca495991b7852b855"
    );
    assert!(is_sha256(&content_sha256("")));
    assert!(!is_sha256("abc"));
    assert!(!is_sha256(&"A".repeat(64)));
}

#[test]
fn numbers_are_written_in_either_order() {
    let mut little = vec![];
    push_le(&mut little, 258);
    assert_eq!(little, vec![2, 1, 0, 0, 0, 0, 0, 0]);
    let mut big = vec![];
    push_be(&mut big, 258);
    assert_eq!(big, vec![0, 0, 0, 0, 0, 0, 1, 2]);
}

#[test]
fn json_is_read_and_written() {
    let value = parse_json("{\"b\": [1, null, true], \"a\": \"x\\n\\\"\"}").unwrap();
    assert_eq!(render(&value), "{\"a\":\"x\\n\\\"\",\"b\":[1,null,true]}");
    assert!(parse_json("{").is_err());
    assert_eq!(value.get("a").unwrap().as_text(), Some("x\n\""));
    assert!(value.get("c").is_none());
    let same = JsonObject::new()
        .with("a", json_text("x\n\""))
        .with(
            "b",
            Json::Array(vec![json_number(1), Json::Null, Json::Bool(true)]),
        )
        .finish();
    assert!(same_json(&value, &same));
    assert!(!same_json(&value, &Json::Null));
    let Json::Object(mut members) = value else {
        panic!("an object was read");
    };
    set_member(&mut members, "c", Json::Null);
    remove_member(&mut members, "a");
    assert_eq!(render(&Json::Object(members)), "{\"b\":[1,null,true],\"c\":null}");
}

#[test]
fn moments_are_given_in_utc() {
    assert_eq!(
        time("2023/05/20 (Sat) 02:21", "%Y/%m/%d (%a) %H:%M").unwrap(),
        "2023-05-20T02:21:00Z"
    );
    assert_eq!(
        time("1:56 pm on 8 May, 2023", "%I:%M %p on %d %B, %Y").unwrap(),
        "2023-05-08T13:56:00Z"
    );
    assert_eq!(
        time("2023-05-20T02:21:00+02:00", "%Y").unwrap(),
        "2023-05-20T00:21:00Z"
    );
    assert!(time("never", "%Y/%m/%d (%a) %H:%M").is_err());
}

#[test]
fn decimal_numbers_are_parsed() {
    assert_eq!(parse_number("42", u64::MAX), Ok(42));
    assert_eq!(parse_number("+7", 10), Ok(7));
    assert_eq!(parse_number("", 10), Err(NumberFault::Empty));
    assert_eq!(parse_number("x", 10), Err(NumberFault::InvalidDigit));
    assert_eq!(parse_number("11", 10), Err(NumberFault::TooLarge));
    assert_eq!(
        number_fault(NumberFault::Empty),
        "cannot parse integer from empty string"
    );
    assert_eq!(decimal_string(18446744073709551615), "18446744073709551615");
}

#[test]
fn texts_are_compared_and_cut() {
    assert!(text_before("a", "b") && !text_before("b", "a") && !text_before("a", "a"));
    assert!(text_before("ab", "b") && text_before("a", "ab"));
    assert!(is_blank(" \u{3000}\n") && !is_blank("x"));
    assert!(starts_with("海棠计划", "海棠") && !starts_with("海", "海棠"));
    assert!(ends_with("a.json", ".json"));
    assert!(contains_part("abcabd", "abd") && !contains_part("ab", "abd"));
    assert_eq!(split_words("  one\ttwo\n three "), vec!["one", "two", "three"]);
    assert_eq!(join(&vec!["a".into(), "b".into()], ", "), "a, b");
    assert_eq!(compact("one\n two", 40), "one two");
    assert_eq!(compact(&"x".repeat(50), 3), "xxx…");
}

#[test]
fn sets_of_texts_stay_sorted() {
    let mut set = sorted_set(&vec!["b".into(), "a".into(), "b".into()]);
    assert_eq!(set, vec!["a", "b"]);
    assert!(insert_text(&mut set, "aa"));
    assert!(!insert_text(&mut set, "aa"));
    assert_eq!(set, vec!["a", "aa", "b"]);
    assert!(remove_text(&mut set, "a"));
    assert!(!remove_text(&mut set, "a"));
    assert_eq!(union_of(&set, &vec!["c".into(), "b".into()]), vec!["aa", "b", "c"]);
}

#[test]
fn equal_keys_keep_their_order() {
    let key = |n: u64, t: &str| vec![KeyPart::Down(n), KeyPart::Text(t.into())];
    assert_eq!(
        stable_order(&vec![key(1, "a"), key(2, "z"), key(2, "b"), key(1, "a")]),
        vec![2, 1, 0, 3]
    );
    assert_eq!(
        stable_order(&vec![
            vec![KeyPart::TextDown("a".into())],
            vec![KeyPart::TextDown("b".into())]
        ]),
        vec![1, 0]
    );
    assert_eq!(
        stable_order(&vec![vec![KeyPart::Up(2)], vec![KeyPart::Up(1)]]),
        vec![1, 0]
    );
}

#[test]
fn usage_is_only_known_where_all_is_known() {
    assert_eq!(add_counts(Some(1), Some(2)), Some(3));
    assert_eq!(TokenUsage::new(Some(1), None).total_tokens, None);
    let mut usage = TokenUsage::zero();
    usage.add(TokenUsage::new(Some(3), Some(4)));
    assert_eq!(usage.total_tokens, Some(7));
}

#[test]
fn events_have_names_of_their_own() {
    let a = event_id("s", Some("t"), EventRole::User);
    assert!(a != event_id("s", Some("t"), EventRole::Assistant));
    assert!(a != event_id("s", None, EventRole::System));
}

#[test]
fn texts_are_escaped_as_json_asks() {
    let written = render(&json_text("\u{1}\u{1f}\u{8}\u{c}\t\r\n\"\\/\u{7f}é\u{1f600}"));
    assert_eq!(
        written,
        "\"\\u0001\\u001f\\b\\f\\t\\r\\n\\\"\\\\/\u{7f}é\u{1f600}\""
    );
    assert!(same_json(
        &parse_json(&written).unwrap(),
        &json_text("\u{1}\u{1f}\u{8}\u{c}\t\r\n\"\\/\u{7f}é\u{1f600}")
    ));
}
