use mc_translator::translation::batch_answers::{apply_batch_answers, fill_single, finish_answer, single_answer, tag_index};
use mc_translator::translation::batching::{build_tagged_batch_texts, GlobalBatchItem};

fn items(texts: &[&str]) -> Vec<GlobalBatchItem> {
    texts
        .iter()
        .enumerate()
        .map(|(i, t)| GlobalBatchItem::new(t, 0, "a.json", &format!("k{}", i)))
        .collect()
}

fn pair(a: &str, b: &str) -> (String, String) {
    (a.to_string(), b.to_string())
}

#[test]
fn test_tag_index_reads_first_tag() {
    assert_eq!(tag_index("[i0]Hello", 2), Some(0));
    assert_eq!(tag_index("[i01]Hello", 2), Some(1));
    assert_eq!(tag_index("x[i1]y[i0]", 2), Some(1));
    assert_eq!(tag_index("[i]x[i1]", 2), Some(1));
    assert_eq!(tag_index("[i5]x", 2), None);
    assert_eq!(tag_index("no tag", 2), None);
    assert_eq!(tag_index("[i0", 2), None);
    assert_eq!(tag_index("[i99999999999999999999999999]x", 3), None);
    assert_eq!(tag_index("[i0]x", 0), None);
}

#[test]
fn test_finish_answer_strips_tags_and_trims() {
    assert_eq!(finish_answer("  [i0]你好 [i12] ", false), "你好");
    assert_eq!(finish_answer("[i]kept", false), "[i]kept");
    assert_eq!(finish_answer("[i0]简体", true), "簡體");
}

#[test]
fn test_apply_batch_answers_fills_every_item_with_the_text() {
    let mut v = items(&["Hello", "World", "Hello"]);
    let batch = vec![0, 1, 2];
    let (tagged, texts) = build_tagged_batch_texts(&v, &batch);
    assert_eq!(tagged, vec!["[i0]Hello".to_string(), "[i1]World".to_string()]);
    assert_eq!(texts, vec!["Hello".to_string(), "World".to_string()]);
    let answers = vec![pair("[i0]Hello", "[i0] 你好"), pair("[i1]World", "世界")];
    assert!(apply_batch_answers(&mut v, &batch, &answers, false));
    let got: Vec<Option<&str>> = v.iter().map(|it| it.translated.as_deref()).collect();
    assert_eq!(got, vec![Some("你好"), Some("世界"), Some("你好")]);
    assert!(v.iter().all(|it| it.alt_source.is_none()));
}

#[test]
fn test_apply_batch_answers_later_answer_wins_and_tw() {
    let mut v = items(&["A", "B"]);
    let batch = vec![1, 0];
    let answers = vec![pair("[i0]B", "简一"), pair("[i0]B", "简体"), pair("[i7]?", "x")];
    assert!(apply_batch_answers(&mut v, &batch, &answers, true));
    assert_eq!(v[0].translated, None);
    assert_eq!(v[1].translated.as_deref(), Some("簡體"));
}

#[test]
fn test_apply_batch_answers_nothing_named() {
    let mut v = items(&["A"]);
    let answers = vec![pair("A", "甲"), pair("[i3]A", "甲")];
    assert!(!apply_batch_answers(&mut v, &[0], &answers, false));
    assert_eq!(v[0].translated, None);
}

#[test]
fn test_single_answer_converts_for_tw() {
    assert_eq!(single_answer("简体", true), "簡體");
    assert_eq!(single_answer(" 简体 ", false), " 简体 ");
}

#[test]
fn answers_keep_items_translated_before() {
    let mut v = items(&["Hello", "Hello", "World"]);
    v[0].translated = Some("舊".to_string());
    let batch = vec![1, 2];
    assert!(apply_batch_answers(&mut v, &batch, &[pair("[i0]Hello", "你好"), pair("[i1]World", "世界")], false));
    assert_eq!(v[0].translated, Some("舊".to_string()));
    assert_eq!(v[1].translated, Some("你好".to_string()));
    assert_eq!(v[2].translated, Some("世界".to_string()));
}

#[test]
fn single_answers_fill_only_their_item() {
    let mut v = items(&["Hello", "World"]);
    v[0].translated = Some("舊".to_string());
    fill_single(&mut v, 1, "简体", true);
    assert_eq!(v[0].translated, Some("舊".to_string()));
    assert_eq!(v[1].translated, Some("簡體".to_string()));
    assert_eq!(v[1].original, "World");
}
