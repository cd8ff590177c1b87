use mc_translator::cli_wizard::{apply_overrides, CliOverrides, CliWizard, SetupStep, WizardAction, WizardInput};
use mc_translator::config::settings::AppConfig;

fn pick(index: usize, len: usize) -> WizardInput {
    WizardInput::Pick { index, len, custom: false }
}

fn text(t: &str) -> WizardInput {
    WizardInput::Text { text: t.to_string(), path_exists: true }
}

#[test]
fn test_wizard_back_navigation_flow() {
    let mut w = CliWizard::new();
    assert_eq!(w.answer("Gemini", &pick(0, 3)), WizardAction::SetUiLang(0));
    assert_eq!(w.step, SetupStep::Provider);
    // "back" from the service list returns to the language step
    assert_eq!(w.answer("Gemini", &pick(7, 8)), WizardAction::Ask);
    assert_eq!(w.step, SetupStep::UiLang);
    assert!(w.history.is_empty());
    assert_eq!(w.answer("Gemini", &pick(0, 3)), WizardAction::SetUiLang(0));
    assert_eq!(w.answer("Gemini", &pick(4, 8)), WizardAction::SetProvider(4));
    // Ollama needs no key
    assert_eq!(w.answer("Ollama", &WizardInput::Nothing), WizardAction::Ask);
    assert_eq!(w.step, SetupStep::Model);
    // "back" from Ollama's model list returns to the service step
    assert_eq!(w.answer("Ollama", &pick(1, 2)), WizardAction::Ask);
    assert_eq!(w.step, SetupStep::Provider);
    assert_eq!(w.answer("Ollama", &pick(0, 8)), WizardAction::SetProvider(0));
    assert_eq!(w.answer("Gemini", &text("test_key")), WizardAction::SetApiKey);
    assert_eq!(w.step, SetupStep::Model);
    let custom = WizardInput::Pick { index: 0, len: 2, custom: true };
    assert_eq!(w.answer("Gemini", &custom), WizardAction::Ask);
    assert_eq!(w.step, SetupStep::CustomModel);
    assert_eq!(w.answer("Gemini", &text("mod_a")), WizardAction::SetCustomModel);
    assert_eq!(w.step, SetupStep::InputPath);
    assert_eq!(w.answer("Gemini", &text("/tmp/in.json")), WizardAction::SetInputPath);
    assert_eq!(w.answer("Gemini", &text("out")), WizardAction::SetOutputDir);
    assert_eq!(w.step, SetupStep::Confirm);
    assert_eq!(w.answer("Gemini", &pick(3, 4)), WizardAction::Ask);
    assert_eq!(w.step, SetupStep::OutputDir);
    assert_eq!(w.answer("Gemini", &text("out2")), WizardAction::SetOutputDir);
    assert_eq!(w.answer("Gemini", &pick(2, 4)), WizardAction::Cancel);
}

#[test]
fn test_wizard_google_free_skips_key_and_model() {
    let mut w = CliWizard::new();
    w.answer("Gemini", &pick(0, 3));
    assert_eq!(w.answer("Gemini", &pick(6, 8)), WizardAction::SetProvider(6));
    assert_eq!(w.answer("Google Free", &WizardInput::Nothing), WizardAction::Ask);
    assert_eq!(w.answer("Google Free", &WizardInput::Nothing), WizardAction::Ask);
    assert_eq!(w.step, SetupStep::InputPath);
    // "back" at the input step goes to the service step for the free service
    assert_eq!(w.answer("Google Free", &text("<")), WizardAction::Ask);
    assert_eq!(w.step, SetupStep::Provider);
}

#[test]
fn test_wizard_key_back_and_blank_answers() {
    let mut w = CliWizard::new();
    w.answer("Gemini", &pick(0, 3));
    w.answer("Gemini", &pick(0, 8));
    assert_eq!(w.step, SetupStep::ApiKey);
    assert_eq!(w.answer("Gemini", &text("<")), WizardAction::Ask);
    assert_eq!(w.step, SetupStep::Provider);
    w.answer("Gemini", &pick(0, 8));
    // a blank key keeps the saved one
    assert_eq!(w.answer("Gemini", &text("   ")), WizardAction::Ask);
    assert_eq!(w.step, SetupStep::Model);
    assert_eq!(w.answer("Gemini", &pick(1, 4)), WizardAction::SetModelFromList(1));
    let missing = WizardInput::Text { text: "nowhere".to_string(), path_exists: false };
    assert_eq!(w.answer("Gemini", &missing), WizardAction::PathMissing);
    assert_eq!(w.step, SetupStep::InputPath);
    w.answer("Gemini", &text("in"));
    w.answer("Gemini", &text(""));
    assert_eq!(w.answer("Gemini", &pick(1, 4)), WizardAction::Start { advanced: true });
    assert_eq!(w.answer("Gemini", &pick(0, 4)), WizardAction::Start { advanced: false });
}

#[test]
fn test_wizard_restart_histories() {
    let mut w = CliWizard::new();
    w.restart("Google Free");
    assert_eq!(w.step, SetupStep::InputPath);
    assert_eq!(w.history, vec![SetupStep::UiLang, SetupStep::Provider]);
    w.restart("Ollama");
    assert_eq!(w.history, vec![SetupStep::UiLang, SetupStep::Provider, SetupStep::Model]);
    w.restart("Gemini");
    assert_eq!(
        w.history,
        vec![SetupStep::UiLang, SetupStep::Provider, SetupStep::ApiKey, SetupStep::Model]
    );
    assert_eq!(w.answer("Gemini", &text("<")), WizardAction::Ask);
    assert_eq!(w.step, SetupStep::Model);
}

#[test]
fn test_wizard_wrong_kind_of_answer_changes_nothing() {
    let mut w = CliWizard::new();
    assert_eq!(w.answer("Gemini", &text("x")), WizardAction::Ask);
    assert_eq!(w.step, SetupStep::UiLang);
    assert!(w.history.is_empty());
}

fn no_overrides() -> CliOverrides {
    CliOverrides {
        output: None,
        provider: None,
        model: None,
        api_key: None,
        batch_size: None,
        batch_max_chars: None,
        timeout: None,
        glossary_priority: None,
        source_lang: None,
        target_lang: None,
        skip_json: false,
        skip_js: false,
        skip_jar: false,
        skip_book: false,
        log_llm: false,
        log_debug: false,
        exclude: Vec::new(),
        fast_convert: false,
    }
}

#[test]
fn test_apply_overrides_headless_arguments() {
    let base = AppConfig::default();
    let excluded_before = base.excluded_paths.clone();
    let o = CliOverrides {
        output: Some("output_dir_test".to_string()),
        provider: Some("Gemini".to_string()),
        model: Some("gemini-1.5-pro".to_string()),
        api_key: Some("test_key".to_string()),
        batch_size: Some(100),
        batch_max_chars: Some(2000),
        timeout: Some(30),
        glossary_priority: Some("official".to_string()),
        source_lang: Some("en".to_string()),
        target_lang: Some("es".to_string()),
        skip_json: true,
        skip_js: true,
        skip_jar: true,
        skip_book: true,
        log_llm: true,
        log_debug: false,
        exclude: vec!["secret_folder".to_string()],
        fast_convert: false,
    };
    let c = apply_overrides(base, o);
    assert_eq!(c.output_dir, "output_dir_test");
    assert_eq!(c.api_provider, "Gemini");
    assert_eq!(c.model, "gemini-1.5-pro");
    assert_eq!(c.api_key, "test_key");
    assert_eq!((c.batch_size, c.batch_max_chars, c.timeout), (100, 2000, 30));
    assert_eq!(c.glossary_priority, "official");
    assert_eq!((c.source_lang.as_str(), c.target_lang.as_str()), ("en", "es"));
    assert!(c.skip_json && c.skip_js && c.skip_jar && c.skip_book && c.enable_llm_log);
    assert!(!c.enable_debug_log);
    let mut expected = excluded_before;
    expected.push("secret_folder".to_string());
    assert_eq!(c.excluded_paths, expected);
}

#[test]
fn test_apply_overrides_none_keeps_configuration() {
    let base = AppConfig::default();
    let (provider, batch) = (base.api_provider.clone(), base.batch_size);
    let c = apply_overrides(base, no_overrides());
    assert_eq!(c.api_provider, provider);
    assert_eq!(c.batch_size, batch);
}
