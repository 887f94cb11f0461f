use vaultx::json::{is_blank, Json};

fn doc() -> Json {
    Json::Object(vec![
        ("name".to_string(), Json::Str("Faker".to_string())),
        ("level".to_string(), Json::Number(Some(512))),
        ("ratio".to_string(), Json::Number(None)),
        ("tags".to_string(), Json::Array(vec![Json::Bool(true), Json::Null])),
        ("name".to_string(), Json::Str("second".to_string())),
    ])
}

#[test]
fn members_by_key() {
    let d = doc();
    assert_eq!(d.get("name").and_then(|v| v.as_str()), Some("Faker"));
    assert_eq!(d.member_str("name"), Some("Faker"));
    assert_eq!(d.member_str("level"), None);
    assert_eq!(d.get("level").and_then(|v| v.as_u64()), Some(512));
    assert_eq!(d.get("ratio").and_then(|v| v.as_u64()), None);
    assert_eq!(d.get("tags").and_then(|v| v.as_array()).map(|a| a.len()), Some(2));
    assert!(d.get("missing").is_none());
    assert!(Json::Array(vec![]).get("name").is_none());
    assert!(d.as_array().is_none());
    assert!(d.as_str().is_none());
}

#[test]
fn blank_text() {
    assert!(is_blank(""));
    assert!(is_blank(" \t\n\u{00A0}\u{3000}"));
    assert!(!is_blank(" x "));
}
