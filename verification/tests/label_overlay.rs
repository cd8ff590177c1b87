use mc_translator::i18n::overlay_label_texts;
use mc_translator::json::{overlay_fields, JsonValue};

fn s(x: &str) -> JsonValue {
    JsonValue::String(x.to_string())
}

fn field<'a>(v: &'a JsonValue, key: &str) -> Option<&'a JsonValue> {
    match v {
        JsonValue::Object(fields) => fields.iter().find(|(k, _)| k == key).map(|(_, v)| v),
        _ => None,
    }
}

fn text(v: Option<&JsonValue>) -> Option<String> {
    match v {
        Some(JsonValue::String(t)) => Some(t.clone()),
        _ => None,
    }
}

#[test]
fn overlay_replaces_in_place_and_appends_new_fields() {
    let base = vec![("a".to_string(), s("A")), ("b".to_string(), s("B"))];
    let over = vec![("b".to_string(), s("b1")), ("c".to_string(), s("C")), ("b".to_string(), s("b2"))];
    let r = overlay_fields(base, over);
    let keys: Vec<&str> = r.iter().map(|(k, _)| k.as_str()).collect();
    assert_eq!(keys, vec!["a", "b", "c"]);
    let v = JsonValue::Object(r);
    assert_eq!(text(field(&v, "a")), Some("A".to_string()));
    assert_eq!(text(field(&v, "b")), Some("b2".to_string()));
    assert_eq!(text(field(&v, "c")), Some("C".to_string()));
}

#[test]
fn language_labels_fall_back_to_english_fields() {
    let v = overlay_label_texts(
        Some(r#"{"app_title":"Translator","btn_save":"Save"}"#),
        r#"{"btn_save":"儲存"}"#,
    )
    .unwrap();
    assert_eq!(text(field(&v, "app_title")), Some("Translator".to_string()));
    assert_eq!(text(field(&v, "btn_save")), Some("儲存".to_string()));
}

#[test]
fn language_file_that_is_not_json_gives_nothing() {
    assert!(overlay_label_texts(Some(r#"{"a":"b"}"#), "{ broken").is_none());
}

#[test]
fn missing_english_file_counts_as_empty() {
    let v = overlay_label_texts(None, r#"{"btn_save":"Save"}"#).unwrap();
    assert_eq!(text(field(&v, "btn_save")), Some("Save".to_string()));
    let w = overlay_label_texts(Some("not json"), "[1]").unwrap();
    assert!(matches!(w, JsonValue::Object(ref f) if f.is_empty()));
    let u = overlay_label_texts(Some(r#"{"a":"b"}"#), "[1]").unwrap();
    assert_eq!(text(field(&u, "a")), Some("b".to_string()));
}
