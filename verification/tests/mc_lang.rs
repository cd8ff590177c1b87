use mc_translator::translation::glossary::mc_lang::{
    build_exact_table, build_script_diffs, build_term_tables, merge_term_diffs, McLangFiles,
};

fn pairs(v: &[(&str, &str)]) -> Vec<(String, String)> {
    v.iter().map(|(a, b)| (a.to_string(), b.to_string())).collect()
}

#[test]
fn exact_table_pairs_english_with_traditional() {
    let en = pairs(&[("block.stone", "Stone"), ("item.apple", "Apple"), ("only.en", "Only")]);
    let tw = pairs(&[("item.apple", "蘋果"), ("block.stone", "石頭")]);
    let mut t = build_exact_table(&en, &tw);
    t.sort();
    assert_eq!(t, pairs(&[("apple", "蘋果"), ("stone", "石頭")]));
}

#[test]
fn exact_table_later_entry_wins() {
    let en = pairs(&[("a", "Stone"), ("b", "STONE")]);
    let tw = pairs(&[("a", "石頭"), ("b", "石")]);
    assert_eq!(build_exact_table(&en, &tw), pairs(&[("stone", "石")]));
}

#[test]
fn diffs_keep_what_conversion_misses() {
    let cn = pairs(&[("k1", "苹果"), ("k2", "鼠标"), ("k3", "同样"), ("k4", "软件")]);
    let tw = pairs(&[("k1", "蘋果"), ("k2", "滑鼠"), ("k3", "同样"), ("k4", "軟體")]);
    let d = build_script_diffs(&cn, &tw);
    assert!(d.contains(&("鼠标".to_string(), "滑鼠".to_string())));
    assert!(!d.iter().any(|(c, _)| c == "苹果" || c == "同样"));
}

#[test]
fn term_tables_only_for_english_to_traditional() {
    let files = McLangFiles {
        langs: vec![
            ("en_us".to_string(), pairs(&[("k", "Stone")])),
            ("zh_tw".to_string(), pairs(&[("k", "石頭")])),
            ("zh_cn".to_string(), pairs(&[("k", "石头")])),
        ],
    };
    let (exact, diffs) = build_term_tables(&files, "en_us", "zh_tw");
    assert_eq!(exact, pairs(&[("stone", "石頭")]));
    assert!(diffs.is_empty());
    let (e2, d2) = build_term_tables(&files, "en_us", "ja_jp");
    assert!(e2.is_empty() && d2.is_empty());
}

fn sorted(mut v: Vec<(String, String)>) -> Vec<(String, String)> {
    v.sort();
    v
}

#[test]
fn merge_term_diffs_only_for_chinese_or_fast_runs() {
    let exact = pairs(&[("Stone", "石頭"), ("Apple", "蘋果")]);
    let diffs = pairs(&[("石头", "石頭"), ("Apple", "苹果→蘋果")]);
    let plain = merge_term_diffs(&exact, &diffs, false, "ja_jp");
    assert_eq!(sorted(plain), sorted(exact.clone()));
    let merged = merge_term_diffs(&exact, &diffs, false, "zh_tw");
    assert_eq!(
        sorted(merged),
        sorted(pairs(&[("Stone", "石頭"), ("Apple", "苹果→蘋果"), ("石头", "石頭")]))
    );
    let fast = merge_term_diffs(&exact, &diffs, true, "ja_jp");
    assert_eq!(fast.len(), 3);
}
