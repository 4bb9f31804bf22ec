//! Texts and JSON members.
use switchyard::json::{
    get_member, get_member_mut, insert_default, insert_member, remove_member, Json, JsonNumber,
};
use switchyard::text::{
    chars_of, comes_before, contains, parse_unsigned, push_decimal, str_eq, to_lower, to_upper,
    trim,
};

#[test]
fn trimming_agrees_with_std() {
    for c in '\0'..=char::MAX {
        let s = format!("{c}a{c}");
        if c.is_whitespace() || c as u32 % 97 == 0 {
            assert_eq!(trim(&s), s.trim(), "{:x}", c as u32);
        }
    }
    assert_eq!(trim(" \t\n"), "");
    assert_eq!(trim("a b"), "a b");
}

#[test]
fn case_changes_touch_ascii_alone() {
    let s = "aZ[`{@\u{c9}\u{e9}\u{130}09";
    assert_eq!(to_lower(s), s.to_ascii_lowercase());
    assert_eq!(to_upper(s), s.to_ascii_uppercase());
}

#[test]
fn search_and_order_agree_with_std() {
    let words = ["", "a", "ab", "ba", "b", "\u{e9}", "a\u{10ffff}", "\u{ffff}", "aba", "abab"];
    for a in words {
        for b in words {
            assert_eq!(contains(a, b), a.contains(b), "{a:?} {b:?}");
            assert_eq!(comes_before(a, b), a < b, "{a:?} {b:?}");
            assert_eq!(str_eq(a, b), a == b);
        }
        assert_eq!(chars_of(a), a.chars().collect::<Vec<_>>());
    }
}

#[test]
fn numbers_are_read_as_std_reads_them() {
    for s in [
        "", "+", "-", "0", "+7", "-0", "007", "1 ", "18446744073709551615", "18446744073709551616",
        "99999999999999999999999", "1e3", "\u{661}",
    ] {
        assert_eq!(parse_unsigned(s), s.parse::<u64>().ok(), "{s:?}");
    }
    for n in [0u64, 7, 10, 4096, u64::MAX] {
        let mut out = "n=".to_string();
        push_decimal(&mut out, n);
        assert_eq!(out, format!("n={n}"));
    }
}

fn number(n: u64) -> Json {
    Json::Number(JsonNumber::Unsigned(n))
}

#[test]
fn members_are_set_dropped_and_kept() {
    let mut members = vec![("a".to_string(), number(1)), ("b".to_string(), number(2))];
    insert_member(&mut members, "a", number(3));
    insert_member(&mut members, "c", Json::Null);
    assert_eq!(members.len(), 3);
    assert_eq!(get_member(&members, "a"), Some(&number(3)));
    assert_eq!(get_member(&members, "b"), Some(&number(2)));
    insert_default(&mut members, "b", Json::Null);
    insert_default(&mut members, "d", Json::Bool(true));
    assert_eq!(get_member(&members, "b"), Some(&number(2)));
    assert_eq!(get_member(&members, "d"), Some(&Json::Bool(true)));
    if let Some(value) = get_member_mut(&mut members, "c") {
        *value = number(9);
    }
    assert!(get_member_mut(&mut members, "z").is_none());
    members.push(("a".to_string(), Json::Null));
    remove_member(&mut members, "a");
    assert_eq!(get_member(&members, "a"), None);
    assert_eq!(get_member(&members, "c"), Some(&number(9)));
    assert_eq!(members.len(), 3);
    let copied = Json::Object(members.clone());
    assert_eq!(copied.copy(), copied);
    assert_eq!(copied.get("c").and_then(Json::as_u64), Some(9));
    assert_eq!(copied.as_u64(), None);
}
