use xcinfo::plist_tree::{string_items, PlistValue};

fn text(s: &str) -> PlistValue {
    PlistValue::String(s.to_string())
}

fn dict(entries: Vec<(&str, PlistValue)>) -> PlistValue {
    PlistValue::Dictionary(entries.into_iter().map(|(k, v)| (k.to_string(), v)).collect())
}

#[test]
fn get_finds_the_value_under_a_key() {
    let d = dict(vec![("a", text("1")), ("b", PlistValue::Boolean(true))]);
    assert_eq!(d.get("a"), Some(&text("1")));
    assert_eq!(d.get("b"), Some(&PlistValue::Boolean(true)));
    assert_eq!(d.get("c"), None);
    assert_eq!(d.get(""), None);
}

#[test]
fn get_takes_the_first_entry_with_the_key() {
    let d = dict(vec![("a", text("first")), ("a", text("second"))]);
    assert_eq!(d.get("a"), Some(&text("first")));
}

#[test]
fn get_on_what_is_no_dictionary_finds_nothing() {
    assert_eq!(text("a").get("a"), None);
    assert_eq!(PlistValue::Array(vec![text("a")]).get("a"), None);
    assert_eq!(PlistValue::Other.get("a"), None);
}

#[test]
fn typed_readers_accept_their_kind_only() {
    assert_eq!(text("x").as_string(), Some(&"x".to_string()));
    assert_eq!(PlistValue::Boolean(false).as_string(), None);
    assert_eq!(PlistValue::Boolean(false).as_boolean(), Some(false));
    assert_eq!(text("true").as_boolean(), None);
    assert_eq!(PlistValue::Array(vec![text("x")]).as_array(), Some(&vec![text("x")]));
    assert_eq!(text("x").as_array(), None);
    assert_eq!(PlistValue::Other.as_array(), None);
}

#[test]
fn readers_under_a_key() {
    let d = dict(vec![
        ("name", text("Demo")),
        ("flag", PlistValue::Boolean(true)),
        ("list", PlistValue::Array(vec![text("a"), PlistValue::Other, text("b")])),
    ]);
    assert_eq!(d.string_at("name"), Some("Demo".to_string()));
    assert_eq!(d.string_at("flag"), None);
    assert_eq!(d.string_at("none"), None);
    assert_eq!(d.boolean_at("flag"), Some(true));
    assert_eq!(d.boolean_at("name"), None);
    assert_eq!(d.array_at("list").map(|items| items.len()), Some(3));
    assert_eq!(d.array_at("name"), None);
    assert_eq!(d.strings_at("list"), Some(vec!["a".to_string(), "b".to_string()]));
    assert_eq!(d.strings_at("flag"), None);
}

#[test]
fn string_items_leaves_other_kinds_out() {
    let items = vec![
        PlistValue::Boolean(true),
        text("arm64"),
        PlistValue::Array(vec![text("inner")]),
        text("x86_64"),
        PlistValue::Other,
    ];
    assert_eq!(string_items(&items), vec!["arm64".to_string(), "x86_64".to_string()]);
    assert_eq!(string_items(&Vec::new()), Vec::<String>::new());
}
