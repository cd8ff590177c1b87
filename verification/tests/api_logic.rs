use mc_translator::data_processing::hashmap_to_entries;
use mc_translator::translation::api::client::{build_system_prompt, map_lang_deepl, map_lang_google};
use mc_translator::translation::api::models::{
    get_static_mc_versions, release_versions, releases_from_manifest, version_to_pack_format,
};
use mc_translator::translation::glossary::automaton::{GlossaryEntry, TermType};
use mc_translator::config::settings::DEFAULT_PROMPT;

fn entry(o: &str, t: &str, s: TermType) -> GlossaryEntry {
    GlossaryEntry { original: o.to_string(), translated: t.to_string(), source: s }
}

#[test]
fn test_version_to_pack_format_branches() {
    assert_eq!(version_to_pack_format("1.21.4"), 46);
    assert_eq!(version_to_pack_format("1.20.1"), 15);
    assert_eq!(version_to_pack_format("1.12.2"), 3);
    assert_eq!(version_to_pack_format("1.9"), 2);
    assert_eq!(version_to_pack_format("1.6.1"), 1);
    assert_eq!(version_to_pack_format("9.9.9"), 46);
}

#[test]
fn static_versions_start_with_newest() {
    let v = get_static_mc_versions();
    assert_eq!(v.len(), 20);
    assert_eq!(v[0], ("1.21.4".to_string(), 46));
    assert_eq!(v[19], ("1.18".to_string(), 8));
}

#[test]
fn only_releases_are_listed() {
    let entries = vec![
        ("snapshot".to_string(), "24w14a".to_string()),
        ("release".to_string(), "1.20.4".to_string()),
        ("old_beta".to_string(), "b1.7.3".to_string()),
        ("release".to_string(), "1.19.3".to_string()),
    ];
    assert_eq!(
        release_versions(&entries),
        vec![("1.20.4".to_string(), 22), ("1.19.3".to_string(), 12)]
    );
}

#[test]
fn language_codes_of_services() {
    assert_eq!(map_lang_google("en_gb"), "en");
    assert_eq!(map_lang_google("zh_tw"), "zh-TW");
    assert_eq!(map_lang_google("xx_yy"), "en");
    assert_eq!(map_lang_deepl("en_us"), "EN-US");
    assert_eq!(map_lang_deepl("zh_tw"), "ZH");
    assert_eq!(map_lang_deepl("ru_ru"), "RU");
    assert_eq!(map_lang_deepl("xx_yy"), "ZH");
}

#[test]
fn prompt_lists_sorted_terms_official_first() {
    let terms = vec![
        entry("Zombie", "殭屍", TermType::Official),
        entry("Oak", "橡木", TermType::Inferred),
        entry("Apple", "蘋果", TermType::Official),
    ];
    let p = build_system_prompt("BASE", Some(&terms), "|END");
    assert_eq!(
        p,
        "BASE\n\n請根據以下【術語建議】進行翻譯（僅供參考，請靈活使用）：\n- Apple => 蘋果\n- Zombie => 殭屍\n- Oak => 橡木\n|END"
    );
}

#[test]
fn prompt_without_terms_uses_default_base() {
    assert_eq!(build_system_prompt("", None, "X"), format!("{}X", DEFAULT_PROMPT));
    let none: Vec<GlossaryEntry> = Vec::new();
    assert_eq!(build_system_prompt("B", Some(&none), ""), "B");
}

#[test]
fn prompt_lists_at_most_thirty_terms_stably() {
    let mut terms = Vec::new();
    for i in 0..40 {
        terms.push(entry("Same", &format!("t{}", i), TermType::Official));
    }
    let p = build_system_prompt("B", Some(&terms), "");
    assert_eq!(p.matches("- Same => ").count(), 30);
    assert!(p.contains("- Same => t0\n- Same => t1\n"));
    assert!(p.ends_with("- Same => t29\n"));
}

#[test]
fn entries_are_official_and_in_order() {
    let map = vec![("a".to_string(), "甲".to_string()), ("b".to_string(), "乙".to_string())];
    let e = hashmap_to_entries(&map);
    assert_eq!(e.len(), 2);
    assert_eq!(e[1].original, "b");
    assert_eq!(e[1].translated, "乙");
    assert!(e.iter().all(|x| x.source == TermType::Official));
}

#[test]
fn manifest_releases_are_read_from_its_text() {
    let text = r#"{"latest":{"release":"1.20.4"},"versions":[
        {"id":"24w14a","type":"snapshot"},
        {"id":"1.20.4","type":"release"},
        {"type":"release"},
        {"id":"1.19.3","type":"release"}]}"#;
    assert_eq!(
        releases_from_manifest(text),
        vec![("1.20.4".to_string(), 22), ("1.19.3".to_string(), 12)]
    );
}

#[test]
fn manifest_that_does_not_read_gives_the_built_in_list() {
    assert_eq!(releases_from_manifest("not json"), get_static_mc_versions());
    assert_eq!(releases_from_manifest(r#"{"versions":3}"#), get_static_mc_versions());
}
