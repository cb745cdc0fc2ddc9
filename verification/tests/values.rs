use a2fa_daemon::json::{parse_json, render_json, strings_of, Fields, Items, Json};
use a2fa_daemon::latch::Latch;
use a2fa_daemon::names::NameMap;
use a2fa_daemon::paths::{is_same_path, join_path, path_is_inside, path_steps};
use a2fa_daemon::split::split_text;
use a2fa_daemon::text::{contains_part, decimal, first_bytes, hex16, seconds_text, trim, trim_end};

#[test]
fn of_two_fields_with_one_key_the_later_one_is_printed() {
    let mut f = Fields::new();
    f.put("a", Json::Uint(1));
    f.put("b", Json::Uint(2));
    f.put("a", Json::Uint(3));
    assert_eq!(render_json(f.done()), r#"{"a":3,"b":2}"#);
}

#[test]
fn json_is_parsed() {
    assert_eq!(parse_json("null"), Some(Json::Null));
    assert_eq!(parse_json(" 7 "), Some(Json::Uint(7)));
    assert_eq!(parse_json("\"a\\u0041\""), Some(Json::Str("aA".into())));
    assert_eq!(parse_json("{\"a\": 1"), None);
    assert_eq!(parse_json("1 2"), None);
    assert!(matches!(parse_json("-1"), Some(Json::Number(_))));
    assert!(matches!(parse_json("1.5"), Some(Json::Number(_))));
    let v = parse_json("{\"a\": 1, \"b\": [true, \"x\"], \"a\": 2}").unwrap();
    assert_eq!(v.uint_at("a"), Some(2));
    match v.get("b") {
        Some(Json::Arr(items)) => assert_eq!(strings_of(items), vec!["x".to_string()]),
        _ => panic!("b is an array"),
    }
}

#[test]
fn json_is_rendered() {
    let mut list = Items::new();
    list.push(Json::Uint(1));
    list.push(Json::text("a\"b\n"));
    let mut f = Fields::new();
    f.put("k", list.done());
    assert_eq!(render_json(f.done()), "{\"k\":[1,\"a\\\"b\\n\"]}");
    assert_eq!(render_json(Json::opt(&None)), "null");
    assert_eq!(render_json(Json::list(&vec!["x".to_string()])), "[\"x\"]");
}

#[test]
fn times_are_seconds_in_replies() {
    assert_eq!(seconds_text(1_500), "1.500");
    assert_eq!(render_json(Json::from_seconds(1_500)), "1.5");
    assert_eq!(render_json(Json::from_seconds(1_700_000_000_000)), "1700000000.0");
    assert_eq!(Json::from_seconds(0), parse_json("0.0").unwrap());
}

#[test]
fn values_are_looked_up() {
    let v = parse_json("{\"s\": \"x\", \"b\": true, \"n\": 3}").unwrap();
    assert_eq!(v.str_at("s").as_deref(), Some("x"));
    assert_eq!(v.str_at("n"), None);
    assert_eq!(v.bool_at("b"), Some(true));
    assert_eq!(v.take("n"), Some(Json::Uint(3)));
}

#[test]
fn texts_are_trimmed_and_cut() {
    assert_eq!(trim(" \t a b \n"), "a b");
    assert_eq!(trim_end(" a \r\n"), " a");
    assert_eq!(first_bytes("aé", 2), "a");
    assert_eq!(decimal(1_203), "1203");
    assert_eq!(hex16(255), "00000000000000ff");
    assert!(contains_part("abcabd", "abd"));
    assert_eq!(split_text("a::b", ':'), vec!["a".to_string(), "".into(), "b".into()]);
}

#[test]
fn paths_are_compared_step_by_step() {
    assert!(is_same_path("/a/b/", "/a//b"));
    assert!(!is_same_path("/a/b", "a/b"));
    assert!(path_is_inside("/a/b/c", "/a/b"));
    assert!(!path_is_inside("/a/bc", "/a/b"));
    assert_eq!(join_path("/a", "b"), "/a/b");
    assert_eq!(join_path("/a", "/b"), "/b");
    assert_eq!(path_steps("/a/./b").len(), path_steps("/a/b").len());
}

#[test]
fn names_map_to_values() {
    let mut m: NameMap<u8> = NameMap::new();
    assert_eq!(m.insert("a", 1), None);
    assert_eq!(m.insert("a", 2), Some(1));
    assert_eq!(m.get("a"), Some(&2));
    assert_eq!(m.remove("a"), Some(2));
    assert!(!m.contains("a"));
}

#[test]
fn a_latch_is_held_once() {
    let mut l = Latch::new();
    assert!(l.try_claim("a"));
    assert!(!l.try_claim("a"));
    assert!(l.try_claim("b"));
    l.release("a");
    assert!(!l.contains("a"));
    assert!(l.contains("b"));
}
