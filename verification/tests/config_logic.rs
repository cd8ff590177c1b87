use mc_translator::config::dictionary::{finalize_dict_langs, get_official_dict_path, get_user_dict_path};
use mc_translator::config::settings::{
    default_excluded_paths, AppConfig, DEFAULT_PROMPT, DEFAULT_SYSTEM_PROMPT,
};

#[test]
fn test_dictionary_paths_and_dirs() {
    let lang = "en_us";
    let path = get_user_dict_path(lang);
    assert!(path.contains("dicts"));
    assert!(path.contains("user"));
}

#[test]
fn dictionary_paths_are_exact() {
    assert_eq!(get_user_dict_path("zh_tw"), "dicts/user/zh_tw.json");
    assert_eq!(get_official_dict_path("ja_jp"), "dicts/official/ja_jp.json");
    assert_eq!(get_user_dict_path("/tmp/x"), "/tmp/x.json");
}

#[test]
fn dict_langs_sorted_unique_with_fallback() {
    let got = finalize_dict_langs(vec!["zh_tw".into(), "en_us".into(), "zh_tw".into(), "de_de".into()]);
    assert_eq!(got, vec!["de_de", "en_us", "zh_tw"]);
    let fallback = finalize_dict_langs(Vec::new());
    assert_eq!(fallback, vec!["en_us", "ja_jp", "zh_cn", "zh_tw"]);
}

#[test]
fn test_validate_corrects_empty_strings() {
    let mut app = AppConfig {
        api_provider: String::new(),
        ollama_url: String::new(),
        source_lang: String::new(),
        target_lang: String::new(),
        user_prompt: String::new(),
        system_prompt: String::new(),
        glossary_priority: String::new(),
        ..AppConfig::default()
    };
    app.validate();
    assert_eq!(app.api_provider, "無");
    assert_eq!(app.ollama_url, "http://localhost:11434");
    assert_eq!(app.source_lang, "en_us");
    assert_eq!(app.target_lang, "zh_tw");
    assert_eq!(app.user_prompt, DEFAULT_PROMPT);
    assert_eq!(app.system_prompt, DEFAULT_SYSTEM_PROMPT);
    assert_eq!(app.glossary_priority, "official");
}

#[test]
fn validate_clamps_numbers() {
    let mut app = AppConfig {
        batch_size: 999,
        timeout: 0,
        batch_max_chars: 50000,
        pack_format: 200,
        ..AppConfig::default()
    };
    app.validate();
    assert_eq!(app.batch_size, 500);
    assert_eq!(app.timeout, 60);
    assert_eq!(app.batch_max_chars, 20000);
    assert_eq!(app.pack_format, 128);
    let before = (app.batch_size, app.timeout, app.batch_max_chars, app.pack_format);
    app.validate();
    assert_eq!(before, (app.batch_size, app.timeout, app.batch_max_chars, app.pack_format));
}

#[test]
fn defaults_match_the_settings_file() {
    let app = AppConfig::default();
    assert_eq!(app.api_provider, "無");
    assert_eq!(app.batch_size, 150);
    assert_eq!(app.batch_max_chars, 3500);
    assert_eq!(app.pack_format, 15);
    assert_eq!(app.excluded_paths, default_excluded_paths());
    assert_eq!(default_excluded_paths().len(), 12);
    assert!(DEFAULT_SYSTEM_PROMPT.starts_with("\n\n[內部技術指令"));
}

#[test]
fn test_app_config_defaults() {
    let config = AppConfig::default();
    assert_eq!(config.api_provider, "無");
    assert_eq!(config.batch_size, 150);
}

#[test]
fn test_get_default_config() {
    let config = AppConfig::default();
    assert_eq!(config.api_provider, "無");
    assert_eq!(config.source_lang, "en_us");
}

#[test]
fn test_config_validation() {
    let mut app = AppConfig::default();
    app.batch_size = 999;
    app.timeout = 0;
    app.batch_max_chars = 50000;
    app.pack_format = 200;
    app.validate();
    assert_eq!(app.batch_size, 500);
    assert_eq!(app.timeout, 60);
    assert_eq!(app.batch_max_chars, 20000);
    assert_eq!(app.pack_format, 128);
}
