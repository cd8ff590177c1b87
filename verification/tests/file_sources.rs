use mc_translator::file::jar_handler::{counterpart_name, jar_entry_is_target, jar_entry_task, jar_entry_tasks};
use mc_translator::file::json_handler::{
    sibling_text_pairs,
    attach_sibling_texts, collect_translatable_strings, flatten_json_values, json_file_task, json_task_items,
    sibling_lang, JsonValue,
};
use mc_translator::translation::batching::GlobalBatchItem;

fn s(v: &str) -> JsonValue {
    JsonValue::String(v.to_string())
}

fn obj(fields: Vec<(&str, JsonValue)>) -> JsonValue {
    JsonValue::Object(fields.into_iter().map(|(k, v)| (k.to_string(), v)).collect())
}

fn pairs(v: &[(&str, &str)]) -> Vec<(String, String)> {
    v.iter().map(|(a, b)| (a.to_string(), b.to_string())).collect()
}

#[test]
fn test_flatten_json_values_depth_first() {
    let value = obj(vec![
        ("a", s("x")),
        ("b", obj(vec![("c", s("y"))])),
        (
            "d",
            JsonValue::Array(vec![s("z"), JsonValue::Number("1".to_string()), obj(vec![("e", s("w"))])]),
        ),
        ("f", JsonValue::Null),
        ("g", JsonValue::Bool(true)),
    ]);
    let mut out = Vec::new();
    flatten_json_values(&value, None, &mut out);
    assert_eq!(
        out,
        pairs(&[("a", "x"), ("c", "y"), ("__ARRAY_ELEMENT__", "z"), ("e", "w")])
    );
    let mut top = vec![("keep".to_string(), "me".to_string())];
    flatten_json_values(&s("t"), None, &mut top);
    assert_eq!(top, pairs(&[("keep", "me"), ("__ARRAY_ELEMENT__", "t")]));
    let mut keyed = Vec::new();
    flatten_json_values(&s("t"), Some("k"), &mut keyed);
    assert_eq!(keyed, pairs(&[("k", "t")]));
}

#[test]
fn test_sibling_lang_choice() {
    assert_eq!(sibling_lang(true, "en_us", "zh_tw"), Some("zh_cn".to_string()));
    assert_eq!(sibling_lang(true, "en_us", "zh_cn"), Some("zh_tw".to_string()));
    assert_eq!(sibling_lang(true, "zh_cn", "zh_tw"), None);
    assert_eq!(sibling_lang(false, "en_us", "zh_tw"), None);
    assert_eq!(sibling_lang(true, "en_us", "ja_jp"), None);
}

#[test]
fn test_attach_sibling_texts_takes_repeated_keys_in_turn() {
    let mut items: Vec<GlobalBatchItem> = ["k1", "k2", "k1", "k3"]
        .iter()
        .map(|k| GlobalBatchItem::new("text", 0, "a.json", k))
        .collect();
    let alt = pairs(&[("k1", "a"), ("k2", "b"), ("k1", "c")]);
    attach_sibling_texts(&mut items, &alt);
    let got: Vec<Option<String>> = items.iter().map(|it| it.alt_source.clone()).collect();
    assert_eq!(
        got,
        vec![Some("a".to_string()), Some("b".to_string()), Some("c".to_string()), None]
    );
}

#[test]
fn test_jar_entry_fallback_to_english() {
    let names = vec![
        "assets/minecraft/lang/en_us.json".to_string(),
        "assets/minecraft/patchouli_books/guide/en_us/book.json".to_string(),
    ];
    assert!(jar_entry_is_target(&names[0], &names, "zh_tw", false));
    assert!(jar_entry_is_target(&names[1], &names, "zh_tw", false));
    assert!(!jar_entry_is_target(&names[1], &names, "zh_tw", true));
}

#[test]
fn test_jar_entry_prefers_source_file() {
    let names = vec![
        "assets/m/lang/en_us.json".to_string(),
        "assets/m/lang/zh_tw.json".to_string(),
        "assets/m/textures/x.png".to_string(),
    ];
    assert!(!jar_entry_is_target(&names[0], &names, "zh_tw", false));
    assert!(jar_entry_is_target(&names[1], &names, "zh_tw", false));
    assert!(!jar_entry_is_target(&names[2], &names, "zh_tw", false));
    assert!(jar_entry_is_target(&names[0], &names, "en_us", false));
    assert!(!jar_entry_is_target("assets/m/lang/de_de.json", &names, "en_us", false));
}

#[test]
fn test_counterpart_names() {
    assert_eq!(counterpart_name("assets/m/lang/en_us.json", "zh_tw", "zh_cn"), "assets/m/lang/zh_cn.json");
    assert_eq!(
        counterpart_name("assets/m/patchouli_books/g/en_us/b.json", "zh_tw", "zh_tw"),
        "assets/m/patchouli_books/g/zh_tw/b.json"
    );
    assert_eq!(counterpart_name("assets/m/lang/zh_tw.json", "zh_tw", "en_us"), "assets/m/lang/en_us.json");
}

#[test]
fn test_json_task_items_pending_then_prefilled() {
    let pending = pairs(&[("Hello", "a"), ("World", "b"), ("Hi", "a")]);
    let prefilled = vec![("Orig".to_string(), "c".to_string(), "已翻".to_string())];
    let sibling = pairs(&[("a", "甲1"), ("a", "甲2"), ("b", "乙")]);
    let items = json_task_items(&pending, &prefilled, 7, "lang/en_us.json", &sibling).unwrap();
    assert_eq!(items.len(), 4);
    let keys: Vec<&str> = items.iter().map(|it| it.key.as_str()).collect();
    assert_eq!(keys, vec!["a", "b", "a", "c"]);
    assert_eq!(items[0].alt_source.as_deref(), Some("甲1"));
    assert_eq!(items[1].alt_source.as_deref(), Some("乙"));
    assert_eq!(items[2].alt_source.as_deref(), Some("甲2"));
    assert_eq!(items[3].alt_source, None);
    assert_eq!(items[3].translated.as_deref(), Some("已翻"));
    assert!(items[..3].iter().all(|it| it.translated.is_none()));
    assert!(items.iter().all(|it| it.file_id == 7 && it.rel_path == "lang/en_us.json"));
}

#[test]
fn test_json_task_items_none_when_nothing() {
    assert!(json_task_items(&[], &[], 1, "x.json", &Vec::new()).is_none());
    let only_prefilled = vec![("A".to_string(), "k".to_string(), "甲".to_string())];
    assert_eq!(json_task_items(&[], &only_prefilled, 1, "x.json", &Vec::new()).unwrap().len(), 1);
}

fn walk(v: &JsonValue, base: &JsonValue, skip_memory: bool) -> (Vec<(String, String)>, Vec<(String, String, String)>) {
    let mut pending = Vec::new();
    let mut prefilled = Vec::new();
    collect_translatable_strings(v, base, None, skip_memory, &mut pending, &mut prefilled);
    (pending, prefilled)
}

#[test]
fn test_collect_translatable_strings_nested() {
    let v = obj(vec![
        ("title", s("Welcome")),
        ("list", JsonValue::Array(vec![s("Item 1"), s("Item 2"), obj(vec![("nested_key", s("Nested Value"))])])),
        ("details", obj(vec![("desc", s("Detail info"))])),
    ]);
    let (pending, prefilled) = walk(&v, &JsonValue::Null, false);
    assert!(prefilled.is_empty());
    assert_eq!(pending.len(), 5);
    let keys: Vec<&str> = pending.iter().map(|p| p.1.as_str()).collect();
    assert_eq!(keys, vec!["title", "__ARRAY_ELEMENT__", "__ARRAY_ELEMENT__", "nested_key", "desc"]);
}

#[test]
fn test_collect_translatable_strings_prefilled() {
    let mut pending = Vec::new();
    let mut prefilled = Vec::new();
    collect_translatable_strings(&s("Original Text"), &s("已翻譯文字"), Some("title"), false, &mut pending, &mut prefilled);
    assert!(pending.is_empty());
    assert_eq!(prefilled.len(), 1);
    assert_eq!(prefilled[0].0, "Original Text");
    assert_eq!(prefilled[0].1, "title");
    assert_eq!(prefilled[0].2, "已翻譯文字");
}

#[test]
fn test_collect_translatable_strings_skip_memory() {
    let (pending, prefilled) = walk(&s("Test text"), &s("舊"), true);
    assert_eq!(pending.len(), 1);
    assert_eq!(pending[0].0, "Test text");
    assert!(prefilled.is_empty());
}

#[test]
fn test_json_file_task_reads_target_and_sibling() {
    let content = r#"{"a": "Apple", "b": "Banana", "c": "Same"}"#;
    let target = r#"{"a": "蘋果", "c": "Same"}"#;
    let sibling = r#"{"b": "香蕉"}"#;
    let items = json_file_task(content, Some(target), Some(sibling), 3, "lang/en_us.json", false).unwrap().unwrap();
    assert_eq!(items.len(), 3);
    assert_eq!(items[0].key, "b");
    assert_eq!(items[0].alt_source.as_deref(), Some("香蕉"));
    assert_eq!(items[1].key, "c");
    assert_eq!(items[2].key, "a");
    assert_eq!(items[2].translated.as_deref(), Some("蘋果"));
    assert!(json_file_task("{not json", None, None, 0, "x.json", false).is_err());
    assert!(json_file_task("{\"n\": 1}", None, None, 0, "x.json", false).unwrap().is_none());
    assert_eq!(json_file_task(content, Some("bad"), None, 0, "x.json", false).unwrap().unwrap().len(), 3);
}

#[test]
fn test_jar_entry_task_takes_source_entries() {
    let names = vec!["assets/m/lang/en_us.json".to_string()];
    let r = jar_entry_task("assets/m/lang/en_us.json", &names, "en_us", false, r#"{"k": "v"}"#, None, None, 5);
    let items = r.unwrap().unwrap();
    assert_eq!(items[0].rel_path, "assets/m/lang/en_us.json");
    assert_eq!(items[0].file_id, 5);
    assert!(jar_entry_task("assets/m/textures/a.png", &names, "en_us", false, "x", None, None, 5).is_none());
    assert!(jar_entry_task("assets/m/lang/en_us.json", &names, "en_us", false, "{bad", None, None, 5).is_none());
}

#[test]
fn sibling_pairs_of_a_json_text() {
    let pairs = sibling_text_pairs(Some(r#"{"a":"甲","b":{"c":"乙"},"d":["丙"],"e":1}"#));
    assert_eq!(
        pairs,
        vec![
            ("a".to_string(), "甲".to_string()),
            ("c".to_string(), "乙".to_string()),
            ("__ARRAY_ELEMENT__".to_string(), "丙".to_string()),
        ]
    );
    assert!(sibling_text_pairs(Some("{ broken")).is_empty());
    assert!(sibling_text_pairs(None).is_empty());
}

#[test]
fn archive_entries_are_numbered_in_order() {
    let names: Vec<String> = vec![
        "assets/a/lang/en_us.json".to_string(),
        "assets/b/lang/en_us.json".to_string(),
        "assets/c/lang/en_us.json".to_string(),
        "assets/d/lang/en_us.json".to_string(),
    ];
    let entries = vec![
        (names[0].clone(), r#"{"k":"Hello"}"#.to_string(), None, None),
        (names[1].clone(), "not json".to_string(), None, None),
        (names[2].clone(), r#"{"n":1}"#.to_string(), None, None),
        (names[3].clone(), r#"{"k":"World"}"#.to_string(), None, None),
    ];
    let (used, r) = jar_entry_tasks(&entries, &names, "en_us", false, 5);
    assert_eq!(used, 3);
    assert_eq!(r.len(), 4);
    let ids: Vec<Option<usize>> = r.iter().map(|x| x.as_ref().map(|(id, _)| *id)).collect();
    assert_eq!(ids, vec![Some(5), None, None, Some(7)]);
    let (_, items) = r[3].as_ref().unwrap();
    assert_eq!(items[0].original, "World");
    assert_eq!(items[0].file_id, 7);
}
