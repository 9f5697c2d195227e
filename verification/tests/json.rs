use sta::json::{parse, string_list, Json};
use sta::text::{ascii_lower, contains_text, decimal_text, hex_text, replace_text, signed_text, trim_text};
use sta::urls::{encode_uri_component, scheme};

#[test]
fn a_value_is_read_as_it_is_nested() {
    let value = parse(r#" {"a": [1, -2, "x\u0041", null, true], "b": {"c": 18446744073709551615}, "a": false} "#).unwrap();
    assert_eq!(value.get("b").and_then(|b| b.get("c")).and_then(|c| c.as_u64()), Some(u64::MAX));
    assert_eq!(value.get("b").and_then(|b| b.get("c")).and_then(|c| c.as_i64()), None);
    assert_eq!(value.get("a").and_then(|a| a.as_bool()), Some(false), "the last member of a name counts");
    assert!(value.get("z").is_none());
    let list = parse(r#"[1, -2, "x\u0041", null, 1.5]"#).unwrap();
    let Json::List(items) = &list else { panic!() };
    assert_eq!((items[0].as_i64(), items[0].as_u64(), items[1].as_i64(), items[1].as_u64()), (Some(1), Some(1), Some(-2), None));
    assert_eq!(items[2].as_text(), Some("xA"));
    assert!(matches!(items[3], Json::Null));
    assert_eq!((items[4].as_i64(), items[4].as_u64()), (None, None));
}

#[test]
fn what_is_no_value_is_refused() {
    for text in ["", "{", "[1,]", "nul", "{\"a\"}", "1 2", "\"\\x\""] {
        assert!(parse(text).is_none(), "{text}");
    }
    assert!(parse(&("[".repeat(100) + &"]".repeat(100))).is_some());
    assert!(parse(&("[".repeat(300) + &"]".repeat(300))).is_none());
}

#[test]
fn a_list_of_strings_is_read_back() {
    let items = vec!["a\"b".to_string(), "\u{1}\n".to_string(), "\u{1F600}".to_string()];
    let text = string_list(&items);
    let Some(Json::List(read)) = parse(&text) else { panic!() };
    let read: Vec<&str> = read.iter().map(|v| v.as_text().unwrap()).collect();
    assert_eq!(read, ["a\"b", "\u{1}\n", "\u{1F600}"]);
    assert_eq!(string_list(&vec![]), "[]");
}

#[test]
fn numbers_and_texts() {
    assert_eq!((decimal_text(0), decimal_text(u64::MAX)), ("0".to_string(), u64::MAX.to_string()));
    assert_eq!((signed_text(i64::MIN), signed_text(7)), (i64::MIN.to_string(), "7".to_string()));
    assert_eq!(hex_text(0xBEEF, 6), "00beef");
    assert_eq!(ascii_lower("AbC\u{c9}"), "abc\u{c9}");
    assert_eq!(trim_text(" \u{a0}x y\t\n"), "x y");
    assert!(contains_text("abcd", "bc") && !contains_text("abcd", "cb") && contains_text("", ""));
    assert_eq!(replace_text("a{q}b{q}", "{q}", "xy"), "axybxy");
    assert_eq!(encode_uri_component("a b/\u{e9}~*"), "a%20b%2F%C3%A9~*");
    assert_eq!((scheme("HTTPS://x"), scheme("1a:x"), scheme("ab")), (Some("https".to_string()), None, None));
}
