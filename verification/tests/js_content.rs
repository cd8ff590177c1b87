use mc_translator::file::js_handler::{collect_js_matches, filter_js_matches, js_translated_content};
use mc_translator::translation::batching::GlobalBatchItem;

fn item(key: &str, translated: Option<&str>) -> GlobalBatchItem {
    let mut it = GlobalBatchItem::new("x", 0, "a.js", key);
    it.translated = translated.map(|t| t.to_string());
    it
}

fn range(s: &str, part: &str) -> (usize, usize) {
    let start = s.find(part).unwrap();
    (start, start + part.len())
}

#[test]
fn test_js_content_replaces_matches() {
    let original = "Text.of('Hello') + Text.of('World')";
    let (a, b) = range(original, "Hello");
    let (c, d) = range(original, "World");
    let matches = vec![(a, b, 0), (c, d, 1)];
    let items = vec![
        item("js_key_0", Some("你好")),
        item("js_key_1", Some("世界")),
        item("js_key_1", Some("later")),
    ];
    assert_eq!(
        js_translated_content(original, &matches, &items),
        Some("Text.of('你好') + Text.of('世界')".to_string())
    );
}

#[test]
fn test_js_content_skips_untranslated_and_bad_ranges() {
    let original = "say('Hi') and ('Yo')";
    let (a, b) = range(original, "Hi");
    let (c, d) = range(original, "Yo");
    let matches = vec![(a, b, 0), (c, d, 1), (5, 5, 2), (3, 999, 2)];
    let items = vec![item("js_key_0", None), item("js_key_1", Some("喲")), item("js_key_2", Some("!"))];
    assert_eq!(
        js_translated_content(original, &matches, &items),
        Some("say('Hi') and ('喲')".to_string())
    );
}

#[test]
fn test_js_content_refuses_to_cut_a_character() {
    let original = "('你好')";
    let matches = vec![(3, 4, 0)];
    let items = vec![item("js_key_0", Some("x"))];
    assert_eq!(js_translated_content(original, &matches, &items), None);
}

fn found(s: &str, part: &str, idx: usize) -> (usize, usize, String, usize) {
    let (a, b) = range(s, part);
    (a, b, part.to_string(), idx)
}

#[test]
fn test_collect_js_matches_orders_by_start() {
    let content = "Text.of('你好')\n.title(\"世界\")\naddItem('something', ['新增', '編輯'])";
    // In the order the patterns find them: Text.of, the list of addItem, .title.
    let raw = vec![
        found(content, "你好", 0),
        found(content, "新增", 1),
        found(content, "編輯", 2),
        found(content, "世界", 3),
    ];
    let (kept, items) = collect_js_matches(&raw, 1, "test.js").unwrap();
    assert_eq!(kept.len(), 4);
    assert_eq!(items.len(), 4);
    let texts: Vec<&str> = items.iter().map(|it| it.preprocessed.as_str()).collect();
    assert_eq!(texts, vec!["你好", "世界", "新增", "編輯"]);
    let keys: Vec<&str> = items.iter().map(|it| it.key.as_str()).collect();
    assert_eq!(keys, vec!["js_key_0", "js_key_3", "js_key_1", "js_key_2"]);
    assert!(items.iter().all(|it| it.file_id == 1 && it.rel_path == "test.js" && it.translated.is_none()));
}

#[test]
fn test_collect_js_matches_none_without_matches() {
    assert!(collect_js_matches(&Vec::new(), 1, "empty.js").is_none());
}

#[test]
fn test_filter_js_matches_drops_overlaps() {
    let raw = vec![
        (10, 20, "b".to_string(), 0),
        (0, 12, "a".to_string(), 1),
        (12, 15, "c".to_string(), 2),
        (20, 25, "d".to_string(), 3),
        (20, 22, "e".to_string(), 4),
    ];
    let kept = filter_js_matches(&raw);
    let idx: Vec<usize> = kept.iter().map(|m| m.3).collect();
    // Sorted by start: a(0..12), b(10..20), c(12..15), d(20..25), e(20..22).
    // b starts before a's end; c starts at a's end; d starts after c's end;
    // e starts before d's end.
    assert_eq!(idx, vec![1, 2, 3]);
}
