use mc_translator::json::{counted_map_from_json, string_map_from_json};

fn pairs(p: &[(&str, &str)]) -> Vec<(String, String)> {
    p.iter().map(|(a, b)| (a.to_string(), b.to_string())).collect()
}

#[test]
fn dictionary_text_reads_as_its_members() {
    assert_eq!(
        string_map_from_json(r#"{"b":"乙","a":"甲"}"#),
        Some(pairs(&[("a", "甲"), ("b", "乙")]))
    );
    assert_eq!(string_map_from_json("{}"), Some(vec![]));
    assert_eq!(string_map_from_json(r#"{"a":1}"#), None);
    assert_eq!(string_map_from_json(r#"["a"]"#), None);
    assert_eq!(string_map_from_json("not json"), None);
}

#[test]
fn cache_is_kept_only_for_the_same_count() {
    let text = r#"[3,{"stone":"石"}]"#;
    assert_eq!(counted_map_from_json(text, 3), Some(pairs(&[("stone", "石")])));
    assert_eq!(counted_map_from_json(text, 4), None);
    assert_eq!(counted_map_from_json(r#"[3.0,{"stone":"石"}]"#, 3), None);
    assert_eq!(counted_map_from_json(r#"[3,{"stone":"石"},1]"#, 3), None);
    assert_eq!(counted_map_from_json(r#"[-3,{}]"#, 3), None);
}
