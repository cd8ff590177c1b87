use mc_translator::config::settings::default_excluded_paths;
use mc_translator::file::pipeline::{
    extract_group_label, group_label_from_parts, is_excluded_path, json_file_wanted,
    file_action, files_taken_up, result_key, run_glossary_table, shorten_from_parts, shorten_rel_paths, FileAction,
};
use mc_translator::file::pack_gen::get_output_dir;
use mc_translator::config::settings::AppConfig;
use mc_translator::i18n::CommonLabels;
use mc_translator::translation::job::JobConfig;

#[test]
fn test_extract_group_label() {
    assert_eq!(
        extract_group_label("assets/bloodmagic/lang/en_us.json"),
        "bloodmagic"
    );
    assert_eq!(extract_group_label("data/myapp/tags/items/1.json"), "myapp");
    assert_eq!(extract_group_label("some_folder/file.json"), "some_folder");
    assert_eq!(extract_group_label("root_file.json"), "root_file.json");
}

#[test]
fn test_path_filtering_logic() {
    let test_cases = vec![
        ("kubejs/data/worldgen/structure.json", true),
        ("journeymap/icon/theme/flat/DesertTemple.theme2.json", true),
        ("packmenu/resources/assets/atm/buttons/play.json", true),
        ("config/almostunified/unify.json", true),
        ("mods/my_awesome_mod.jar", false),
        ("config/minecraft/server.properties", false),
        ("patchouli_books/manual/en_us/chapters/intro.json", false),
        ("kubejs/server_scripts/script.js", false),
    ];
    let excluded = default_excluded_paths();
    for (rel_path, should_skip) in test_cases {
        let is_skipped = is_excluded_path(rel_path, &excluded);
        assert_eq!(is_skipped, should_skip, "Path '{}' filtering mismatch", rel_path);
    }
}

#[test]
fn test_shorten_rel_paths_styling() {
    let paths: Vec<String> = vec![
        "a/1.json".into(),
        "a/2.json".into(),
        "b/3.json".into(),
        "4.json".into(),
    ];
    let result = shorten_rel_paths(&paths);
    assert!(result.starts_with('\n'));
    assert!(result.contains(" <dir>a/</dir>"));
    assert!(result.contains(" <file>1.json</file>, <file>2.json</file>"));
    assert!(result.contains(" <dir>b/</dir>"));
    assert!(result.contains(" <file>3.json</file>"));
    assert!(result.contains(" <file>4.json</file>"));
}

#[test]
fn test_shorten_rel_paths_line_split() {
    let paths = vec![
        "a/b/c/1.json".to_string(),
        "a/b/c/2.json".to_string(),
        "a/b/c/3.json".to_string(),
        "a/b/c/4.json".to_string(),
        "a/b/c/5.json".to_string(),
        "a/b/c/6.json".to_string(),
    ];
    let result = shorten_rel_paths(&paths);
    assert!(result.contains(" <dir>a/b/c/</dir>"));
    assert!(result.contains(" <file>1.json</file>, <file>2.json</file>, <file>3.json</file>, <file>4.json</file>, <file>5.json</file>"));
    assert!(!result.contains("5.json</file>,"));
    assert!(result.contains(" <file>6.json</file>"));
}

#[test]
fn shorten_orders_folders_and_keeps_file_order() {
    let parts = vec![
        ("b".to_string(), "3.json".to_string()),
        ("".to_string(), "4.json".to_string()),
        ("a".to_string(), "2.json".to_string()),
        ("a".to_string(), "1.json".to_string()),
    ];
    assert_eq!(
        shorten_from_parts(&parts),
        "\n <file>4.json</file>\n <dir>a/</dir>\n <file>2.json</file>, <file>1.json</file>\n <dir>b/</dir>\n <file>3.json</file>"
    );
}

#[test]
fn shorten_of_nothing_is_empty() {
    let none: Vec<String> = Vec::new();
    assert_eq!(shorten_rel_paths(&none), "");
    assert_eq!(shorten_from_parts(&Vec::new()), "");
}

#[test]
fn group_label_falls_back_in_order() {
    assert_eq!(
        group_label_from_parts("x\\assets\\create\\lang\\en_us.json", None, None),
        "create"
    );
    assert_eq!(
        group_label_from_parts("assets//data/ae2/x.json", Some("x".into()), None),
        "ae2"
    );
    assert_eq!(group_label_from_parts("f.json", Some(".".into()), Some("f.json".into())), "f.json");
    assert_eq!(group_label_from_parts("", None, None), "Unknown");
}

#[test]
fn excluded_paths_ignore_case_and_backslashes() {
    let excluded = vec!["Config\\AlmostUnified\\".to_string(), "".to_string()];
    assert!(is_excluded_path("CONFIG/almostunified/x.json", &excluded));
    assert!(!is_excluded_path("config/other/x.json", &excluded));
    assert!(is_excluded_path("x/y.THEME2.JSON", &Vec::new()));
}

#[test]
fn json_files_of_other_languages_are_left_out() {
    assert!(json_file_wanted("lang", "EN_US.json", "assets/m/lang/EN_US.json", "en_us", "zh_tw"));
    assert!(!json_file_wanted("Lang", "zh_tw.json", "assets/m/lang/zh_tw.json", "en_us", "zh_tw"));
    assert!(!json_file_wanted("x", "a.json", "patchouli_books/b/zh_tw/a.json", "en_us", "zh_tw"));
    assert!(json_file_wanted("x", "a.json", "patchouli_books/b/en_us/a.json", "en_us", "zh_tw"));
    assert!(json_file_wanted("models", "a.json", "assets/m/models/a.json", "en_us", "zh_tw"));
}

fn job() -> JobConfig {
    let mut c = JobConfig::from_app_config_and_i18n(&AppConfig::default(), &CommonLabels::default());
    c.source_lang = "en_us".to_string();
    c.target_lang = "zh_tw".to_string();
    c.excluded_paths = vec!["config/".to_string()];
    c.skip_json = false;
    c.skip_js = false;
    c.skip_jar = false;
    c
}

#[test]
fn test_file_action_by_kind_and_filters() {
    let c = job();
    let act = |p: &str| file_action(p, p, &c);
    assert_eq!(act("assets/m/lang/en_us.json"), FileAction::Json);
    assert_eq!(act("assets/m/lang/zh_tw.json"), FileAction::Skip);
    assert_eq!(act("assets/m/LANG/EN_US.json"), FileAction::Json);
    assert_eq!(act("m/patchouli_books/b/zh_tw/x.json"), FileAction::Skip);
    assert_eq!(act("m/patchouli_books/b/en_us/x.json"), FileAction::Json);
    assert_eq!(act("kubejs/startup.js"), FileAction::Js);
    assert_eq!(act("mods/a.jar"), FileAction::Jar);
    assert_eq!(act("mods/a.JAR"), FileAction::Skip);
    assert_eq!(act("readme.txt"), FileAction::Skip);
    assert_eq!(act("journeymap/x.theme2.json"), FileAction::Skip);
    assert_eq!(act("Config/a.json"), FileAction::Skip);
    let mut off = job();
    off.skip_js = true;
    off.skip_jar = true;
    assert_eq!(file_action("a.js", "a.js", &off), FileAction::Skip);
    assert_eq!(file_action("a.jar", "a.jar", &off), FileAction::Skip);
}

fn pairs(p: &[(&str, &str)]) -> Vec<(String, String)> {
    p.iter().map(|(a, b)| (a.to_string(), b.to_string())).collect()
}

#[test]
fn glossary_table_takes_differences_for_chinese_targets() {
    let exact = pairs(&[("Stone", "石頭"), ("Dirt", "泥土")]);
    let diffs = pairs(&[("石头", "石頭"), ("Stone", "岩石")]);
    assert_eq!(
        run_glossary_table(exact.clone(), &diffs, false, "zh_tw"),
        pairs(&[("Stone", "岩石"), ("Dirt", "泥土"), ("石头", "石頭")])
    );
    assert_eq!(
        run_glossary_table(exact.clone(), &diffs, true, "ja_jp"),
        pairs(&[("Stone", "岩石"), ("Dirt", "泥土"), ("石头", "石頭")])
    );
    assert_eq!(run_glossary_table(exact.clone(), &diffs, false, "ja_jp"), exact);
}

#[test]
fn archive_results_are_marked() {
    assert_eq!(result_key("assets/m/lang/en_us.json", true), "[BUNDLE]assets/m/lang/en_us.json");
    assert_eq!(result_key("kubejs/a.js", false), "kubejs/a.js");
}

#[test]
fn output_folder_defaults_to_the_working_folder() {
    let mut c = job();
    c.output_dir = String::new();
    let sep = std::path::MAIN_SEPARATOR;
    assert_eq!(get_output_dir(&c), format!(".{}LLMTranslator", sep));
    c.output_dir = "out/packs".to_string();
    assert_eq!(get_output_dir(&c), format!("out/packs{}LLMTranslator", sep));
}

#[test]
fn run_takes_up_only_wanted_files() {
    let mut c = job();
    c.excluded_paths = vec!["Config\\".to_string(), "".to_string()];
    c.skip_js = true;
    let paths: Vec<(String, String)> = [
        "config/a.json",
        "assets/m/lang/en_us.json",
        "x/y.theme2.json",
        "kubejs/a.js",
        "mods/a.jar",
        "assets/m/lang/zh_tw.json",
    ]
    .iter()
    .map(|p| (p.to_string(), p.to_string()))
    .collect();
    assert_eq!(files_taken_up(&paths, &c), vec![(1, FileAction::Json), (4, FileAction::Jar)]);
}
