use xcinfo::plist_source::{decode_plist, tree_from};
use xcinfo::plist_tree::PlistValue;

const DOCUMENT: &str = r#"<?xml version="1.0" encoding="UTF-8"?>
<!DOCTYPE plist PUBLIC "-//Apple//DTD PLIST 1.0//EN" "http://www.apple.com/DTDs/PropertyList-1.0.dtd">
<plist version="1.0">
<dict>
    <key>Zeta</key>
    <string>last letter first</string>
    <key>Flag</key>
    <true/>
    <key>Off</key>
    <false/>
    <key>Count</key>
    <integer>3</integer>
    <key>Ratio</key>
    <real>1.5</real>
    <key>When</key>
    <date>2024-01-02T03:04:05Z</date>
    <key>Blob</key>
    <data>AAEC</data>
    <key>List</key>
    <array>
        <string>a</string>
        <integer>1</integer>
        <dict>
            <key>Inner</key>
            <string>b</string>
        </dict>
        <array/>
    </array>
</dict>
</plist>
"#;

fn text(s: &str) -> PlistValue {
    PlistValue::String(s.to_string())
}

fn expected() -> PlistValue {
    PlistValue::Dictionary(vec![
        ("Zeta".to_string(), text("last letter first")),
        ("Flag".to_string(), PlistValue::Boolean(true)),
        ("Off".to_string(), PlistValue::Boolean(false)),
        ("Count".to_string(), PlistValue::Other),
        ("Ratio".to_string(), PlistValue::Other),
        ("When".to_string(), PlistValue::Other),
        ("Blob".to_string(), PlistValue::Other),
        (
            "List".to_string(),
            PlistValue::Array(vec![
                text("a"),
                PlistValue::Other,
                PlistValue::Dictionary(vec![("Inner".to_string(), text("b"))]),
                PlistValue::Array(Vec::new()),
            ]),
        ),
    ])
}

#[test]
fn decodes_an_xml_document() {
    assert_eq!(decode_plist(DOCUMENT.as_bytes()), Ok(expected()));
}

#[test]
fn decodes_a_binary_document() {
    let value = plist::Value::from_reader_xml(DOCUMENT.as_bytes()).unwrap();
    let mut binary = Vec::new();
    value.to_writer_binary(&mut binary).unwrap();
    assert!(binary.starts_with(b"bplist"));
    let decoded = decode_plist(&binary).unwrap();
    assert_eq!(decoded.string_at("Zeta"), Some("last letter first".to_string()));
    assert_eq!(decoded.boolean_at("Flag"), Some(true));
    assert_eq!(decoded.strings_at("List"), Some(vec!["a".to_string()]));
    assert_eq!(decoded.get("Count"), Some(&PlistValue::Other));
}

#[test]
fn a_document_may_be_a_bare_value() {
    let doc = "<plist version=\"1.0\"><string>alone</string></plist>";
    assert_eq!(decode_plist(doc.as_bytes()), Ok(text("alone")));
    let doc = "<plist version=\"1.0\"><array><true/></array></plist>";
    assert_eq!(decode_plist(doc.as_bytes()), Ok(PlistValue::Array(vec![PlistValue::Boolean(true)])));
}

#[test]
fn what_is_no_property_list_is_an_error() {
    assert!(decode_plist(b"").is_err());
    assert!(decode_plist(b"<plist version=\"1.0\"><dict><key>a</key>").is_err());
    let message = decode_plist(b"\x00\x01\x02 not a plist").unwrap_err();
    assert!(!message.is_empty());
}

#[test]
fn tree_from_copies_every_kind() {
    let mut inner = plist::Dictionary::new();
    inner.insert("b".to_string(), plist::Value::Boolean(true));
    inner.insert("a".to_string(), plist::Value::String("x".to_string()));
    let value = plist::Value::Array(vec![
        plist::Value::Dictionary(inner),
        plist::Value::Integer(7u64.into()),
        plist::Value::String("s".to_string()),
        plist::Value::Data(vec![1, 2, 3]),
    ]);
    assert_eq!(
        tree_from(&value),
        PlistValue::Array(vec![
            PlistValue::Dictionary(vec![
                ("b".to_string(), PlistValue::Boolean(true)),
                ("a".to_string(), text("x")),
            ]),
            PlistValue::Other,
            text("s"),
            PlistValue::Other,
        ])
    );
}
