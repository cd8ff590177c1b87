use mc_translator::config::settings::AppConfig;
use mc_translator::i18n::CommonLabels;
use mc_translator::translation::job::{update_job_config, JobConfig};

fn labels(prefix: &str) -> CommonLabels {
    let mut l = CommonLabels::default();
    l.cleanup_prefixes = vec![prefix.to_string()];
    l.cleanup_contains = vec![format!("{}-contains", prefix)];
    l
}

#[test]
fn test_update_job_config_same_target_keeps_rules() {
    let base = AppConfig::default();
    let job = JobConfig::from_app_config_and_i18n(&base, &labels("old"));
    let mut next = AppConfig::default();
    next.model = "m2".to_string();
    next.batch_size = 7;
    next.timeout = 99;
    let (updated, clear) = update_job_config(job, next, "stored-key".to_string(), &labels("new"));
    assert!(!clear);
    assert_eq!(updated.selected_model, "m2");
    assert_eq!(updated.batch_size, 7);
    assert_eq!(updated.timeout, 99);
    assert_eq!(updated.api_key, "stored-key");
    assert_eq!(updated.cleanup_prefixes, vec!["old".to_string()]);
}

#[test]
fn test_update_job_config_new_target_takes_its_rules() {
    let mut base = AppConfig::default();
    base.target_lang = "zh_tw".to_string();
    base.fast_convert = true;
    let job = JobConfig::from_app_config_and_i18n(&base, &labels("old"));
    let mut next = AppConfig::default();
    next.target_lang = "ja_jp".to_string();
    next.fast_convert = false;
    let (updated, clear) = update_job_config(job, next, String::new(), &labels("new"));
    assert!(clear);
    assert_eq!(updated.target_lang, "ja_jp");
    assert_eq!(updated.cleanup_prefixes, vec!["new".to_string()]);
    assert_eq!(updated.cleanup_contains, vec!["new-contains".to_string()]);
    assert!(updated.fast_convert);
}
