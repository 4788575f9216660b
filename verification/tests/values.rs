use bootspec::json::Json;
use bootspec::text::{
    after_prefix, chars_of, concat2, decimal_string, has_prefix, join_path, join_texts,
    parse_decimal, rank_texts, same_text, split_text, Rank,
};
use bootspec::textmap::TextMap;
use bootspec::SpecialisationName;

fn strings(items: &[&str]) -> Vec<String> {
    items.iter().map(ToString::to_string).collect()
}

#[test]
fn split_on_single_spaces() {
    assert_eq!(split_text("a b c", ' '), strings(&["a", "b", "c"]));
    assert_eq!(split_text("", ' '), strings(&[""]));
    assert_eq!(split_text(" ", ' '), strings(&["", ""]));
    assert_eq!(split_text("a  b", ' '), strings(&["a", "", "b"]));
    assert_eq!(split_text("a b ", ' '), strings(&["a", "b", ""]));
    assert_eq!(split_text("a\tb\n", ' '), strings(&["a\tb\n"]));
    assert_eq!(split_text("é ü", ' '), strings(&["é", "ü"]));
    let text = "udev.log_priority=3 systemd.unified_cgroup_hierarchy=1 loglevel=4";
    let expected: Vec<String> = text.split(' ').map(str::to_string).collect();
    assert_eq!(split_text(text, ' '), expected);
}

#[test]
fn split_and_join_are_inverse() {
    for text in ["", " ", "a", "a b", " a  b ", "x y z "] {
        assert_eq!(join_texts(&split_text(text, ' '), " "), text);
    }
    assert_eq!(join_texts(&strings(&[]), ", "), "");
    assert_eq!(join_texts(&strings(&["a"]), ", "), "a");
    assert_eq!(join_texts(&strings(&["a", "", "b"]), ", "), "a, , b");
}

#[test]
fn decimal_numbers() {
    assert_eq!(decimal_string(0), "0");
    assert_eq!(decimal_string(7), "7");
    assert_eq!(decimal_string(10), "10");
    assert_eq!(decimal_string(99), "99");
    assert_eq!(decimal_string(1234567890), "1234567890");
    assert_eq!(decimal_string(u64::MAX), "18446744073709551615");
    for n in [0, 1, 9, 10, 11, 100, 65535, u64::MAX - 1, u64::MAX] {
        assert_eq!(parse_decimal(&chars_of(&decimal_string(n))), Some(n));
    }
    for text in ["", "00", "01", "-1", "+1", "1 ", " 1", "1a", "18446744073709551616", "٣"] {
        assert_eq!(parse_decimal(&chars_of(text)), None, "{:?}", text);
    }
    assert_eq!(parse_decimal(&chars_of("18446744073709551615")), Some(u64::MAX));
    assert_eq!(parse_decimal(&chars_of("99999999999999999999999999")), None);
}

#[test]
fn paths_are_joined_by_one_separator() {
    assert_eq!(join_path("/root", "init"), "/root/init");
    assert_eq!(join_path("/root/", "init"), "/root/init");
    assert_eq!(join_path("/", "init"), "/init");
    assert_eq!(join_path("", "init"), "init");
    assert_eq!(join_path("rel", "kernel-modules/lib/modules"), "rel/kernel-modules/lib/modules");
}

#[test]
fn prefixes() {
    assert!(has_prefix("org.nixos.bootspec.v1", "org.nixos.bootspec."));
    assert!(has_prefix("abc", ""));
    assert!(has_prefix("abc", "abc"));
    assert!(!has_prefix("ab", "abc"));
    assert!(!has_prefix("abd", "abc"));
    assert_eq!(after_prefix("abcde", "abc"), Some(vec!['d', 'e']));
    assert_eq!(after_prefix("abc", "abc"), Some(vec![]));
    assert_eq!(after_prefix("ab", "abc"), None);
    assert_eq!(concat2("ab", "cd"), "abcd");
    assert_eq!(chars_of("héllo"), vec!['h', 'é', 'l', 'l', 'o']);
}

#[test]
fn texts_are_ranked_as_strings_are_ordered() {
    let samples = ["", "a", "ab", "b", "B", "org.a", "org.b", "é", "z", "日本", "a\u{0}"];
    for a in samples {
        for b in samples {
            let expected = match a.cmp(b) {
                std::cmp::Ordering::Less => Rank::Before,
                std::cmp::Ordering::Equal => Rank::Same,
                std::cmp::Ordering::Greater => Rank::After,
            };
            assert_eq!(rank_texts(a, b), expected, "{:?} {:?}", a, b);
            assert_eq!(same_text(a, b), a == b);
        }
    }
}

#[test]
fn map_does_not_depend_on_the_order_of_insertion() {
    let mut first: TextMap<String, u8> = TextMap::new();
    first.insert(String::from("b"), 2);
    first.insert(String::from("a"), 1);
    first.insert(String::from("c"), 3);
    let mut second: TextMap<String, u8> = TextMap::new();
    second.insert(String::from("c"), 3);
    second.insert(String::from("a"), 0);
    second.insert(String::from("b"), 2);
    assert_ne!(first, second);
    second.insert(String::from("a"), 1);
    assert_eq!(first, second);
    assert_eq!(first.len(), 3);
    assert!(!first.is_empty());
    assert_eq!(first.get("a"), Some(&1));
    assert_eq!(first.get("d"), None);
    assert!(first.contains_key("c"));
    assert!(!first.contains_key(""));
    let keys: Vec<&str> = first.entries().iter().map(|e| e.0.as_str()).collect();
    assert_eq!(keys, vec!["a", "b", "c"]);
    assert_eq!(first.clone(), first);
}

#[test]
fn map_of_entries_keeps_the_later_of_two() {
    let map = TextMap::from_entries(vec![
        (String::from("k"), 1),
        (String::from("j"), 2),
        (String::from("k"), 3),
    ]);
    assert_eq!(map.len(), 2);
    assert_eq!(map.get("k"), Some(&3));
    assert_eq!(map.get("j"), Some(&2));
    let empty: TextMap<String, u8> = TextMap::new();
    assert!(empty.is_empty());
    assert_eq!(empty.len(), 0);
    assert_eq!(TextMap::from_entries(Vec::new()), empty);
}

#[test]
fn json_text_is_read_and_written() {
    let json = Json::parse(r#" { "b" : [1, 2.5, "x", null, true, false], "a": {}, "b2": "é" } "#)
        .unwrap();
    match &json {
        Json::Object(fields) => {
            assert_eq!(fields.len(), 3);
            assert_eq!(fields.get("a"), Some(&Json::Object(TextMap::new())));
            assert_eq!(fields.get("b2"), Some(&Json::Str(String::from("é"))));
            match fields.get("b") {
                Some(Json::Array(items)) => {
                    assert_eq!(items.len(), 6);
                    assert!(matches!(items[0], Json::Number(_)));
                    assert_eq!(items[2], Json::Str(String::from("x")));
                    assert_eq!(items[3], Json::Null);
                    assert!(items[3].is_null());
                    assert!(!items[4].is_null());
                    assert_eq!(items[4], Json::Bool(true));
                    assert_eq!(items[5], Json::Bool(false));
                }
                other => panic!("not an array: {:?}", other),
            }
        }
        other => panic!("not an object: {:?}", other),
    }
    let line = json.to_text().unwrap();
    assert_eq!(line, r#"{"a":{},"b":[1,2.5,"x",null,true,false],"b2":"é"}"#);
    assert_eq!(Json::parse(&line).unwrap(), json);
    let pretty = json.to_text_pretty().unwrap();
    assert_eq!(
        pretty,
        "{\n  \"a\": {},\n  \"b\": [\n    1,\n    2.5,\n    \"x\",\n    null,\n    true,\n    false\n  ],\n  \"b2\": \"é\"\n}"
    );
    assert_eq!(Json::parse(&pretty).unwrap(), json);
    assert_eq!(json.clone(), json);
}

#[test]
fn json_text_with_a_key_twice_keeps_the_later_value() {
    let json = Json::parse(r#"{ "k": 1, "k": "two" }"#).unwrap();
    assert_eq!(
        json,
        Json::Object(TextMap::from_entries(vec![(
            String::from("k"),
            Json::Str(String::from("two"))
        )]))
    );
}

#[test]
fn json_text_that_is_refused() {
    for text in ["", "{", "[1,]", "{'a': 1}", "nul", "{\"a\": 1} x"] {
        assert!(Json::parse(text).is_err(), "{:?}", text);
    }
}

#[test]
fn json_values_of_serde_json() {
    let text = r#"{"a":[null,true,1,"s",{"b":-0.5}],"c":{}}"#;
    let value: serde_json::Value = serde_json::from_str(text).unwrap();
    let json = Json::from_value(value.clone());
    assert_eq!(json, Json::parse(text).unwrap());
    assert_eq!(json.to_value(), value);
    assert_eq!(Json::from_value(serde_json::Value::Null), Json::Null);
    assert_eq!(
        Json::Str(String::from("x")).to_value(),
        serde_json::Value::String(String::from("x"))
    );
    assert_eq!(
        Json::Array(vec![Json::Bool(false)]).to_value(),
        serde_json::Value::Array(vec![serde_json::Value::Bool(false)])
    );
    let number = serde_json::Number::from(7u64);
    assert_eq!(
        Json::from_value(serde_json::Value::Number(number.clone())),
        Json::Number(number.clone())
    );
    assert_eq!(
        Json::Number(number.clone()).to_value(),
        serde_json::Value::Number(number)
    );
}

#[test]
fn specialisation_name_is_its_text() {
    let name = SpecialisationName(String::from("gnome"));
    assert_eq!(name.to_string(), "gnome");
    assert_eq!(SpecialisationName::default().to_string(), "");
}
