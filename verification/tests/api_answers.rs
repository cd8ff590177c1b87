use mc_translator::json::JsonValue;
use mc_translator::translation::api::client::{
    batch_prompt, chat_answer, extract_json_from_text, ollama_reply_translation, chat_url, deepl_answer, deepl_url, free_google_answer,
    gemini_answer, gemini_url, google_retry_wait, ollama_prompt, ollama_response,
    ollama_translation, translate_route, url_under_base, TranslateRoute,
};
use mc_translator::translation::api::models::{
    deepl_models, gemini_models, listed_texts, model_source, ModelSource,
};

fn s(v: &str) -> JsonValue {
    JsonValue::String(v.to_string())
}

fn obj(fields: Vec<(&str, JsonValue)>) -> JsonValue {
    JsonValue::Object(fields.into_iter().map(|(k, v)| (k.to_string(), v)).collect())
}

fn arr(items: Vec<JsonValue>) -> JsonValue {
    JsonValue::Array(items)
}

#[test]
fn test_translate_route() {
    assert_eq!(translate_route("Gemini", "k"), TranslateRoute::Gemini);
    assert_eq!(translate_route("Gemini", ""), TranslateRoute::FreeGoogle);
    assert_eq!(translate_route("DeepSeek", "k"), TranslateRoute::OpenAiCompatible);
    assert_eq!(translate_route("Mistral", ""), TranslateRoute::FreeGoogle);
    assert_eq!(translate_route("Ollama", ""), TranslateRoute::Ollama);
    assert_eq!(translate_route("DeepL", ""), TranslateRoute::DeepL);
    assert_eq!(translate_route("Other", "k"), TranslateRoute::FreeGoogle);
}

#[test]
fn test_gemini_answer_reads_first_candidate() {
    let v = obj(vec![(
        "candidates",
        arr(vec![obj(vec![(
            "content",
            obj(vec![("parts", arr(vec![obj(vec![("text", s("  \"你好\"\n"))])]))]),
        )])]),
    )]);
    assert_eq!(gemini_answer(&v), Some("你好".to_string()));
    assert_eq!(gemini_answer(&obj(vec![("candidates", arr(vec![]))])), None);
}

#[test]
fn test_chat_deepl_google_ollama_answers() {
    let chat = obj(vec![(
        "choices",
        arr(vec![obj(vec![("message", obj(vec![("content", s("\"Hi\""))]))])]),
    )]);
    assert_eq!(chat_answer(&chat), Some("Hi".to_string()));
    let deepl = obj(vec![("translations", arr(vec![obj(vec![("text", s(" Hallo "))])]))]);
    assert_eq!(deepl_answer(&deepl), Some(" Hallo ".to_string()));
    let google = arr(vec![arr(vec![arr(vec![s("你好"), s("Hello")])])]);
    assert_eq!(free_google_answer(&google), Some("你好".to_string()));
    assert_eq!(free_google_answer(&arr(vec![])), None);
    assert_eq!(ollama_response(&obj(vec![("response", s("ok"))])), Some("ok".to_string()));
    assert_eq!(ollama_response(&obj(vec![("response", JsonValue::Null)])), None);
}

#[test]
fn test_ollama_translation_choices() {
    let with_key = obj(vec![("other", s("x")), ("translated", s("'譯文'"))]);
    assert_eq!(ollama_translation(Some(&with_key), "raw"), Some("譯文".to_string()));
    let first = obj(vec![("a", s("\"first\"")), ("b", s("second"))]);
    assert_eq!(ollama_translation(Some(&first), "raw"), Some("first".to_string()));
    let not_text = obj(vec![("a", JsonValue::Bool(true))]);
    assert_eq!(ollama_translation(Some(&not_text), "  reply  "), Some("reply".to_string()));
    assert_eq!(ollama_translation(None, " \"plain\" "), Some("plain".to_string()));
    assert_eq!(ollama_translation(Some(&obj(vec![])), "{ }"), None);
    assert_eq!(ollama_translation(None, "{}"), None);
}

#[test]
fn test_prompts_and_addresses() {
    assert_eq!(
        ollama_prompt("Hi"),
        "Hi\nReturn a JSON object with a \"translated\" key containing ONLY the translated text."
    );
    let long = "x".repeat(500);
    assert_eq!(ollama_prompt(&long), long);
    let texts = vec!["A".to_string(), "B".to_string()];
    assert_eq!(
        batch_prompt(&texts),
        "以下是需要翻譯的多行字串，請按照相同的編號格式輸出翻譯結果，每行一個：\n[1] A\n[2] B"
    );
    assert_eq!(
        gemini_url("gemini-pro", "KEY"),
        "https://generativelanguage.googleapis.com/v1beta/models/gemini-pro:generateContent?key=KEY"
    );
    assert_eq!(chat_url("DeepSeek"), "https://api.deepseek.com/v1/chat/completions");
    assert_eq!(chat_url("OpenAI"), "https://api.openai.com/v1/chat/completions");
    assert_eq!(deepl_url("deepl-free"), "https://api-free.deepl.com/v2/translate");
    assert_eq!(deepl_url("deepl-standard"), "https://api.deepl.com/v2/translate");
    assert_eq!(url_under_base("http://localhost:11434//", "/api/tags"), "http://localhost:11434/api/tags");
    assert_eq!(google_retry_wait(1), Some(2));
    assert_eq!(google_retry_wait(2), Some(4));
    assert_eq!(google_retry_wait(3), None);
}

#[test]
fn test_model_sources_and_lists() {
    assert!(matches!(model_source("Gemini", ""), ModelSource::Nothing));
    assert!(matches!(model_source("Ollama", ""), ModelSource::Ollama));
    assert!(matches!(model_source("Mistral", "k"), ModelSource::Chat("https://api.mistral.ai/v1/models")));
    assert!(matches!(model_source("DeepL", "k"), ModelSource::DeepL));
    assert!(matches!(model_source("Unknown", "k"), ModelSource::Nothing));
    assert_eq!(deepl_models(), vec!["deepl-free".to_string(), "deepl-standard".to_string()]);

    let ollama = obj(vec![(
        "models",
        arr(vec![obj(vec![("name", s("llama3"))]), obj(vec![("size", s("1"))]), obj(vec![("name", s("qwen"))])]),
    )]);
    assert_eq!(listed_texts(&ollama, "models", "name"), vec!["llama3".to_string(), "qwen".to_string()]);
    assert!(listed_texts(&obj(vec![]), "data", "id").is_empty());

    let gemini = obj(vec![(
        "models",
        arr(vec![
            obj(vec![
                ("name", s("models/gemini-1.5-pro")),
                ("supportedGenerationMethods", arr(vec![s("countTokens"), s("generateContent")])),
            ]),
            obj(vec![
                ("name", s("models/embedding-001")),
                ("supportedGenerationMethods", arr(vec![s("generateContent")])),
            ]),
            obj(vec![("name", s("models/gemini-vision")), ("supportedGenerationMethods", arr(vec![s("embed")]))]),
            obj(vec![("name", s("models/gemini-x"))]),
        ]),
    )]);
    assert_eq!(gemini_models(&gemini), vec!["gemini-1.5-pro".to_string()]);
}

#[test]
fn test_extract_json_from_text_cases() {
    assert_eq!(extract_json_from_text("  {\"a\":1}  "), Some("{\"a\":1}".to_string()));
    assert_eq!(
        extract_json_from_text("Here:\n```json\n{\"translated\": \"你好\"}\n```\nthanks"),
        Some("{\"translated\": \"你好\"}".to_string())
    );
    assert_eq!(extract_json_from_text("```\n{\"x\": 1}\n```"), Some("{\"x\": 1}".to_string()));
    assert_eq!(
        extract_json_from_text("prefix {\"a\": \"b\"} suffix"),
        Some("{\"a\": \"b\"}".to_string())
    );
    assert_eq!(extract_json_from_text("prefix {\"a\": \"b\""), Some("{\"a\": \"b\"}".to_string()));
    assert_eq!(extract_json_from_text("no json here"), None);
    assert_eq!(extract_json_from_text("{ broken"), None);
}

#[test]
fn test_ollama_reply_translation_cases() {
    assert_eq!(
        ollama_reply_translation("```json\n{\"translated\":\"'你好'\"}\n```"),
        Some("你好".to_string())
    );
    assert_eq!(ollama_reply_translation("  plain text "), Some("plain text".to_string()));
    assert_eq!(ollama_reply_translation("{}"), None);
    assert_eq!(ollama_reply_translation("{\"other\": \"x\"}"), Some("x".to_string()));
}

#[test]
fn test_extract_json_self_healing() {
    let raw1 = r#"{"1": "hello", "2": "world"}"#;
    assert!(extract_json_from_text(raw1).is_some());

    let raw2 = r#"Here is result:
```json
{"1": "hello"}
```
"#;
    assert_eq!(extract_json_from_text(raw2), Some(r#"{"1": "hello"}"#.to_string()));

    let raw3 = r#"{"1": "hello", "2": "world""#;
    assert_eq!(extract_json_from_text(raw3), Some(r#"{"1": "hello", "2": "world"}"#.to_string()));

    let raw4 = r#"The LLM says: {"key": "val"} hope you like it."#;
    assert_eq!(extract_json_from_text(raw4), Some(r#"{"key": "val"}"#.to_string()));
}
