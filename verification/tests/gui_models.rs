use mc_translator::json::JsonValue;
use mc_translator::translation::api::gui_models::{gui_model_names, gui_model_source, GuiModelSource};

fn s(x: &str) -> JsonValue {
    JsonValue::String(x.to_string())
}

fn obj(fields: Vec<(&str, JsonValue)>) -> JsonValue {
    JsonValue::Object(fields.into_iter().map(|(k, v)| (k.to_string(), v)).collect())
}

fn list(key: &str, field: &str, names: &[&str]) -> JsonValue {
    obj(vec![(key, JsonValue::Array(names.iter().map(|n| obj(vec![(field, s(n))])).collect()))])
}

#[test]
fn which_list_is_asked_for() {
    assert_eq!(gui_model_source("Ollama", ""), Ok(GuiModelSource::Ollama));
    assert_eq!(gui_model_source("Gemini", "k"), Ok(GuiModelSource::Gemini));
    assert_eq!(gui_model_source("OpenAI", ""), Err("err_api_key_empty".to_string()));
    assert_eq!(gui_model_source("DeepSeek", "k"), Ok(GuiModelSource::DeepSeek));
    assert_eq!(gui_model_source("Mistral", "k"), Err("err_unsupported_provider".to_string()));
}

#[test]
fn openai_names_are_gpt_only_and_sorted() {
    let a = list("data", "id", &["gpt-4o", "whisper-1", "gpt-3.5-turbo", "dall-e"]);
    assert_eq!(
        gui_model_names(GuiModelSource::OpenAI, Some(&a)),
        Ok(vec!["gpt-3.5-turbo".to_string(), "gpt-4o".to_string()])
    );
}

#[test]
fn gemini_names_lose_their_prefix() {
    let a = list("models", "name", &["models/gemini-1.5-pro", "models/embedding-001", "gemini-x"]);
    assert_eq!(
        gui_model_names(GuiModelSource::Gemini, Some(&a)),
        Ok(vec!["gemini-1.5-pro".to_string(), "gemini-x".to_string()])
    );
}

#[test]
fn empty_or_missing_lists_are_errors() {
    let a = list("models", "name", &[]);
    assert_eq!(gui_model_names(GuiModelSource::Ollama, Some(&a)), Err("err_ollama_connect".to_string()));
    assert_eq!(gui_model_names(GuiModelSource::DeepSeek, None), Err("err_deepseek_models".to_string()));
    let d = list("data", "id", &["deepseek-chat"]);
    assert_eq!(gui_model_names(GuiModelSource::DeepSeek, Some(&d)), Ok(vec!["deepseek-chat".to_string()]));
}
