use mc_translator::translation::glossary::analyzer::{
    analyze_dictionary, clean_inferred_zh, find_common_hanzi, is_cjk,
};

fn pairs(v: &[(&str, &str)]) -> Vec<(String, String)> {
    v.iter().map(|(a, b)| (a.to_string(), b.to_string())).collect()
}

fn lookup<'a>(m: &'a [(String, String)], k: &str) -> Option<&'a String> {
    m.iter().find(|(a, _)| a == k).map(|(_, b)| b)
}

#[test]
fn test_is_cjk_check() {
    assert!(is_cjk('中'));
    assert!(is_cjk('文'));
    assert!(!is_cjk('A'));
    assert!(!is_cjk('1'));
}

#[test]
fn test_clean_inferred_zh_cases() {
    assert_eq!(clean_inferred_zh("紅色"), Some("紅".to_string()));
    assert_eq!(clean_inferred_zh("色床"), Some("床".to_string()));
    assert_eq!(clean_inferred_zh("木牌"), Some("牌".to_string()));
    assert_eq!(clean_inferred_zh("的"), None);
}

#[test]
fn test_find_common_hanzi_structure() {
    let s1 = "紅色的床".to_string();
    let s2 = "藍色的床".to_string();
    let s3 = "綠色的床".to_string();
    let texts = vec![&s1, &s2, &s3];
    let common = find_common_hanzi(texts);
    assert_eq!(common, Some("的床".to_string()));
}

#[test]
fn test_analyze_dictionary_inferring() {
    let map = pairs(&[
        ("Red Bed", "紅色的床"),
        ("Blue Bed", "藍色的床"),
        ("Green Bed", "綠色的床"),
    ]);
    let inferred = analyze_dictionary(&map);
    assert!(lookup(&inferred, "bed").is_some());
    assert_eq!(lookup(&inferred, "bed").unwrap(), "的床");
}

#[test]
fn is_cjk_covers_extension_a_and_not_kana() {
    assert!(is_cjk('\u{3400}'));
    assert!(is_cjk('\u{4dbf}'));
    assert!(is_cjk('\u{9fff}'));
    assert!(!is_cjk('\u{3041}'));
    assert!(!is_cjk('\u{a000}'));
}

#[test]
fn clean_keeps_single_characters_and_drops_blacklist() {
    assert_eq!(clean_inferred_zh("色"), None);
    assert_eq!(clean_inferred_zh("木"), Some("木".to_string()));
    assert_eq!(clean_inferred_zh(""), None);
    assert_eq!(clean_inferred_zh("牆上"), None);
    assert_eq!(clean_inferred_zh("色紅色"), Some("紅".to_string()));
    assert_eq!(clean_inferred_zh("木色"), Some("木".to_string()));
}

#[test]
fn find_common_hanzi_needs_three_texts() {
    let s1 = "紅色的床".to_string();
    let s2 = "藍色的床".to_string();
    assert_eq!(find_common_hanzi(vec![&s1, &s2]), None);
}

#[test]
fn find_common_hanzi_limited_by_shortest_text() {
    let s1 = "鑽石劍".to_string();
    let s2 = "鑽石鎬".to_string();
    let s3 = "Stone".to_string();
    assert_eq!(find_common_hanzi(vec![&s1, &s2, &s3]), None);
}

#[test]
fn find_common_hanzi_prefers_longest_majority_run() {
    let s1 = "鑽石劍".to_string();
    let s2 = "鑽石鎬".to_string();
    let s3 = "鐵劍".to_string();
    assert_eq!(find_common_hanzi(vec![&s1, &s2, &s3]), Some("鑽石".to_string()));
}

#[test]
fn analyze_dictionary_needs_three_uses_and_skips_stop_words() {
    let map = pairs(&[
        ("Red Bed", "紅色的床"),
        ("Blue Bed", "藍色的床"),
        ("Block of Gold", "金塊"),
        ("Single", "單"),
    ]);
    let inferred = analyze_dictionary(&map);
    assert!(inferred.is_empty());
}

#[test]
fn analyze_dictionary_lists_each_word_once() {
    let map = pairs(&[
        ("Oak Planks", "橡木材"),
        ("Oak Door", "橡木門"),
        ("Oak Fence", "橡木柵欄"),
        ("Oak Boat", "橡木船"),
    ]);
    let inferred = analyze_dictionary(&map);
    let oaks = inferred.iter().filter(|(k, _)| k == "oak").count();
    assert_eq!(oaks, 1);
    assert_eq!(lookup(&inferred, "oak").unwrap(), "橡木");
}
