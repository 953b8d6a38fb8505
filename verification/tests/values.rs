use ignite_server::json::{
    from_value, jmillis, jstr, parse_json, to_pretty, to_text, to_value, Json,
};
use ignite_server::net::{parse_ip_text, IpAddress};
use ignite_server::paths::join;
use ignite_server::strmap::StrMap;
use ignite_server::text::{
    chars_of, decimal_of, find_char, items_of, replace_all, split_chars, str_lt, string_of,
    strings_of, trim_chars, uint_of, words_of,
};

#[test]
fn json_goes_there_and_back() {
    let text = r#"{"a":[1,-2,1.5,"x\n",null,true],"b":{"c":18446744073709551615}}"#;
    let j = parse_json(text).unwrap();
    assert_eq!(to_text(&j), text);
    let v: serde_json::Value = serde_json::from_str(text).unwrap();
    assert_eq!(to_value(&j), v);
    assert_eq!(to_value(&from_value(&v)), v);
    assert_eq!(to_pretty(&Json::Array(vec![Json::Uint(1)])), "[\n  1\n]");
    for bad in ["", "{", "[1,]", "nul", "1 2"] {
        assert!(parse_json(bad).is_none(), "{bad}");
    }
}

#[test]
fn json_members_are_found() {
    let j = parse_json(r#"{"s":"t","n":7,"m":-7,"f":7.0}"#).unwrap();
    assert_eq!(j.get_str("s"), Some("t"));
    assert_eq!(j.get_str("n"), None);
    assert_eq!(j.get("n").unwrap().as_u64(), Some(7));
    assert_eq!(j.get("m").unwrap().as_u64(), None);
    assert_eq!(j.get("f").unwrap().as_u64(), None);
    assert!(j.get("x").is_none());
    assert!(j.is_object() && !jstr("x").is_object());
    let twice = Json::Object(vec![("k".to_string(), Json::Uint(1)), ("k".to_string(), Json::Uint(2))]);
    assert_eq!(twice.get("k").unwrap().as_u64(), Some(2));
    assert_eq!(to_text(&twice), r#"{"k":2}"#);
}

#[test]
fn whole_numbers_stay_whole() {
    let five = Json::Real(serde_json::Number::from(5));
    assert_eq!(five.as_u64(), Some(5));
    assert!(matches!(from_value(&to_value(&five)), Json::Uint(5)));
    assert_eq!(to_text(&five), "5");
    let minus = Json::Real(serde_json::Number::from(-5));
    assert_eq!(minus.as_u64(), None);
    assert!(matches!(from_value(&to_value(&minus)), Json::Int(-5)));
    assert_eq!(jmillis(5).as_u64(), None);
}

#[test]
fn times_are_floating_point_on_the_wire() {
    assert_eq!(to_text(&jmillis(0)), "0.0");
    assert_eq!(to_text(&jmillis(1_700_000_000_123)), "1700000000123.0");
    for ms in [1, 1_801_439_850_948_199, 1_900_000_000_000_001, 9_007_199_254_740_993, u64::MAX] {
        assert_eq!(to_value(&jmillis(ms)), serde_json::Value::from(ms as f64), "{ms}");
    }
}

fn v4(s: &str) -> Option<[u8; 4]> {
    match parse_ip_text(s) {
        Some(IpAddress::V4(o)) => Some(o),
        _ => None,
    }
}

fn v6(s: &str) -> Option<[u16; 8]> {
    match parse_ip_text(s) {
        Some(IpAddress::V6(g)) => Some(g),
        _ => None,
    }
}

#[test]
fn addresses_in_text() {
    assert_eq!(v4("1.2.3.255"), Some([1, 2, 3, 255]));
    for bad in ["1.2.3", "1.2.3.4.5", "1.2.3.256", "01.2.3.4", "1.2.3.", "1.2.3.4 ", "", "1.2.3.+4", "1..3.4"] {
        assert!(parse_ip_text(bad).is_none(), "{bad}");
    }
    assert_eq!(v6("::"), Some([0; 8]));
    assert_eq!(v6("1:2:3:4:5:6:7:8"), Some([1, 2, 3, 4, 5, 6, 7, 8]));
    assert_eq!(v6("1::8"), Some([1, 0, 0, 0, 0, 0, 0, 8]));
    assert_eq!(v6("1:2:3:4:5:6:7::"), Some([1, 2, 3, 4, 5, 6, 7, 0]));
    assert_eq!(v6("::ffff:1.2.3.4"), Some([0, 0, 0, 0, 0, 0xffff, 0x0102, 0x0304]));
    assert_eq!(v6("1:2:3:4:5:6:1.2.3.4"), Some([1, 2, 3, 4, 5, 6, 0x0102, 0x0304]));
    assert_eq!(v6("FE80::aBcD"), Some([0xfe80, 0, 0, 0, 0, 0, 0, 0xabcd]));
    for bad in [
        ":", ":::", "1:::2", "1:2:3:4:5:6:7", "1:2:3:4:5:6:7:8:9", "1:2:3:4:5:6:7:8::", "12345::",
        "g::", "1.2.3.4::", "::1.2.3.4:5", "1::2::3", ":1::2", "1:2:3:4:5:6:7:1.2.3.4",
    ] {
        assert!(parse_ip_text(bad).is_none(), "{bad}");
    }
}

#[test]
fn addresses_read_as_the_standard_library_reads_them() {
    for s in [
        "0.0.0.0", "255.255.255.255", "256.1.1.1", "::1", "::ffff:0:0", "2001:db8::ff00:42:8329",
        "1:2:3:4::5:6:7", "1::2:3:4:5:6:7:8", "::2:3:4:5:6:7:8", "1:2:3:4:5:6::8", "fe80::1%eth0",
        "::00001", "::1.2.3", "0000:0000::", "::ffff:1.02.3.4",
    ] {
        assert_eq!(parse_ip_text(s).is_some(), s.parse::<core::net::IpAddr>().is_ok(), "{s}");
    }
}

#[test]
fn maps_are_sorted_by_key() {
    let mut m: StrMap<u8> = StrMap::new();
    for (k, v) in [("b", 1), ("a", 2), ("c", 3), ("a", 4), ("", 5), ("\u{e4}", 6)] {
        m.insert(k.to_string(), v);
    }
    assert_eq!(m.len(), 5);
    assert_eq!(m.keys(), ["", "a", "b", "c", "\u{e4}"].map(|s| s.to_string()).to_vec());
    assert_eq!(m.get("a"), Some(&4));
    assert_eq!(m.remove("b"), Some(1));
    assert_eq!(m.remove("b"), None);
    assert!(!m.contains_key("b"));
    assert_eq!(m.key_at(1), "a");
    assert_eq!(*m.value_at(1), 4);
}

#[test]
fn text_is_split_trimmed_and_replaced() {
    let c = |s: &str| chars_of(s);
    assert_eq!(strings_of(&split_chars(&c("a,,b"), ',')), ["a", "", "b"].map(|s| s.to_string()).to_vec());
    assert_eq!(strings_of(&split_chars(&c(""), ',')), vec![String::new()]);
    assert_eq!(string_of(&trim_chars(&c("\u{3000} a b \t\n"))), "a b");
    assert_eq!(strings_of(&words_of(&c("  a \tbc\u{a0}d "))), ["a", "bc", "d"].map(|s| s.to_string()).to_vec());
    assert_eq!(strings_of(&items_of(&c(" a ,, b"), ',')), ["a", "b"].map(|s| s.to_string()).to_vec());
    assert_eq!(replace_all("aaab", "aa", "x"), "xab");
    assert_eq!(replace_all("abc", "", "x"), "abc");
    assert_eq!(find_char(&c("abc"), 'c'), 2);
    assert_eq!(find_char(&c("abc"), 'x'), 3);
}

#[test]
fn numbers_in_text() {
    assert_eq!(decimal_of(0), "0");
    assert_eq!(decimal_of(u64::MAX), "18446744073709551615");
    let n = |s: &str, max: u64| uint_of(&chars_of(s), max);
    assert_eq!(n("+42", 100), Some(42));
    assert_eq!(n("0042", 100), Some(42));
    assert_eq!(n("18446744073709551615", u64::MAX), Some(u64::MAX));
    assert_eq!(n("18446744073709551616", u64::MAX), None);
    for bad in ["", "+", "-1", "1 ", "1a", "101"] {
        assert_eq!(n(bad, 100), None, "{bad}");
    }
    assert!(str_lt("a", "ab") && str_lt("", "a") && str_lt("a", "b") && !str_lt("b", "a"));
}

#[test]
fn paths_are_joined() {
    assert_eq!(join("/a", "b"), "/a/b");
    assert_eq!(join("/a/", "b"), "/a/b");
    assert_eq!(join("", "b"), "b");
}
