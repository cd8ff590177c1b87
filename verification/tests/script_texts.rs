use mc_translator::file::js_scan::{collect_js_task, js_text_matches};

fn texts(content: &str) -> Vec<String> {
    js_text_matches(content).into_iter().map(|m| m.2).collect()
}

#[test]
fn test_collect_js_task_matches_original_example() {
    let content = "Text.of('你好')\n.title(\"世界\")\naddItem('something', ['新增', '編輯'])";
    let (_kept, items) = collect_js_task(content, 1, "test.js").unwrap();
    assert_eq!(items.len(), 4);
    assert_eq!(items[0].preprocessed, "你好");
    assert_eq!(items[1].preprocessed, "世界");
    assert_eq!(items[2].preprocessed, "新增");
    assert_eq!(items[3].preprocessed, "編輯");
}

#[test]
fn test_collect_js_task_no_matches() {
    assert!(collect_js_task("// no matches here", 1, "empty.js").is_none());
}

#[test]
fn test_js_text_matches_patterns_and_offsets() {
    let content = "x.text(a, 'A') y.text(\"B\") text: 'C' .scene('id', 'D') .scene(\"id\", \"E\") Text.of(\"F\")";
    let found = js_text_matches(content);
    let got: Vec<&str> = found.iter().map(|m| m.2.as_str()).collect();
    assert_eq!(got, vec!["F", "A", "B", "C", "D", "E"]);
    for (i, m) in found.iter().enumerate() {
        assert_eq!(&content[m.0..m.1], m.2);
        assert_eq!(m.3, i);
    }
}

#[test]
fn test_js_text_matches_rejects_bad_text_args() {
    assert!(texts(".text(a b 'x')").is_empty());
    assert_eq!(texts(".text(  'x')"), vec!["x"]);
    assert_eq!(texts("add('k', [\"a\", 'b'])"), vec!["b", "a"]);
    assert!(texts("Text.of('unclosed").is_empty());
}
