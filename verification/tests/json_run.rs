use mc_translator::config::settings::AppConfig;
use mc_translator::i18n::CommonLabels;
use mc_translator::translation::job::JobConfig;
use mc_translator::translation::json_run::{
    batch_error_is_fatal, distinct_pending_texts, single_error_is_fatal, uses_batches, BatchReply,
    JsonNote, JsonPhase, JsonRun, JsonStep, SingleReply, StepEnd,
};

fn config(provider: &str, key: &str, batch_size: u32) -> JobConfig {
    let mut c = JobConfig::from_app_config_and_i18n(&AppConfig::default(), &CommonLabels::default());
    c.api_provider = provider.to_string();
    c.api_key = key.to_string();
    c.batch_size = batch_size;
    c
}

fn items(v: &[(&str, &str)]) -> Vec<(String, String)> {
    v.iter().map(|(t, k)| (t.to_string(), k.to_string())).collect()
}

fn expect_batch(step: JsonStep) -> Vec<String> {
    match step {
        JsonStep::Batch(b) => b,
        other => panic!("expected a batch, got {:?}", other),
    }
}

fn expect_single(step: JsonStep) -> String {
    match step {
        JsonStep::Single(t) => t,
        other => panic!("expected a single text, got {:?}", other),
    }
}

fn values_of(run: &JsonRun, key: &str) -> Vec<String> {
    run.translations.iter().filter(|(k, _)| k == key).map(|(_, v)| v.clone()).collect()
}

#[test]
fn test_distinct_texts_keep_first_occurrence_order() {
    let p = items(&[("B", "k1"), ("A", "k2"), ("B", "k3"), ("C", "k4"), ("A", "k5")]);
    assert_eq!(distinct_pending_texts(&p), vec!["B".to_string(), "A".to_string(), "C".to_string()]);
    assert!(distinct_pending_texts(&[]).is_empty());
}

#[test]
fn test_uses_batches_rules() {
    assert!(uses_batches(&config("Ollama", "", 5), 2));
    assert!(uses_batches(&config("Gemini", "key", 5), 2));
    assert!(!uses_batches(&config("Gemini", "", 5), 2));
    assert!(!uses_batches(&config("Ollama", "", 1), 2));
    assert!(!uses_batches(&config("Ollama", "", 5), 1));
}

#[test]
fn test_error_classification() {
    assert!(batch_error_is_fatal("TIMEOUT: 30s"));
    assert!(batch_error_is_fatal("API_ERROR: 500"));
    assert!(batch_error_is_fatal("NETWORK_ERROR: refused"));
    assert!(batch_error_is_fatal("PARSE_ERROR: bad json"));
    assert!(batch_error_is_fatal("UNSUPPORTED: provider"));
    assert!(!batch_error_is_fatal("count mismatch"));
    assert!(!batch_error_is_fatal(" TIMEOUT:"));
    assert!(single_error_is_fatal("TIMEOUT: 30s"));
    assert!(!single_error_is_fatal("API_ERROR: 500"));
}

#[test]
fn test_empty_pending_is_done_at_once() {
    let mut run = JsonRun::new(Vec::new(), &config("Ollama", "", 5));
    assert_eq!(run.phase, JsonPhase::Finished);
    assert!(matches!(run.next_step(), JsonStep::Done));
    assert_eq!(run.batch_total, 0);
}

#[test]
fn test_batch_answers_are_recorded_for_every_key() {
    let p = items(&[("text-A", "itemA"), ("text-B", "itemB"), ("text-A", "itemC")]);
    let mut run = JsonRun::new(p, &config("Ollama", "", 5));
    assert_eq!(run.phase, JsonPhase::Batches);
    assert_eq!(run.batch_total, 1);
    let b = expect_batch(run.next_step());
    assert_eq!(b, vec!["text-A".to_string(), "text-B".to_string()]);
    let fatal = run.batch_done(BatchReply::Answered(vec![
        Some("translated-A".to_string()),
        Some("translated-B".to_string()),
    ]));
    assert!(!fatal);
    assert_eq!(run.counter, 2);
    run.after_step(StepEnd::Go);
    assert!(matches!(run.next_step(), JsonStep::Done));
    assert_eq!(values_of(&run, "itemA"), vec!["translated-A".to_string()]);
    assert_eq!(values_of(&run, "itemB"), vec!["translated-B".to_string()]);
    assert_eq!(values_of(&run, "itemC"), vec!["translated-A".to_string()]);
}

#[test]
fn test_texts_missing_from_the_batch_go_alone() {
    let p = items(&[("a", "k1"), ("b", "k2"), ("c", "k3")]);
    let mut run = JsonRun::new(p, &config("Gemini", "key", 2));
    assert_eq!(run.batch_total, 2);
    assert_eq!(expect_batch(run.next_step()), vec!["a".to_string(), "b".to_string()]);
    run.batch_done(BatchReply::Answered(vec![None, Some("B".to_string())]));
    run.after_step(StepEnd::Go);
    assert_eq!(expect_batch(run.next_step()), vec!["c".to_string()]);
    run.batch_done(BatchReply::Failed("count mismatch".to_string()));
    assert!(matches!(run.notes.last(), Some(JsonNote::BatchError(m)) if m == "count mismatch"));
    run.after_step(StepEnd::Go);
    assert_eq!(expect_single(run.next_step()), "a");
    assert_eq!(run.phase, JsonPhase::Singles);
    run.single_done(SingleReply::Translated("A".to_string()));
    run.after_step(StepEnd::Go);
    assert_eq!(expect_single(run.next_step()), "c");
    run.single_done(SingleReply::Rejected);
    assert!(matches!(run.notes.last(), Some(JsonNote::LoopDetected)));
    run.after_step(StepEnd::Go);
    assert!(matches!(run.next_step(), JsonStep::Done));
    assert_eq!(run.counter, 3);
    assert_eq!(
        run.results,
        vec![Some("A".to_string()), Some("B".to_string()), None]
    );
    assert_eq!(values_of(&run, "k1"), vec!["A".to_string()]);
    assert_eq!(values_of(&run, "k3"), Vec::<String>::new());
}

#[test]
fn test_batch_size_one_goes_straight_to_single_texts() {
    let p = items(&[("text-A", "itemA")]);
    let mut run = JsonRun::new(p, &config("Ollama", "", 1));
    assert_eq!(run.phase, JsonPhase::Singles);
    assert_eq!(expect_single(run.next_step()), "text-A");
    assert!(!run.single_done(SingleReply::Translated("single-translated-text".to_string())));
    assert!(matches!(run.next_step(), JsonStep::Done));
    assert_eq!(values_of(&run, "itemA"), vec!["single-translated-text".to_string()]);
}

#[test]
fn test_fatal_batch_error_ends_the_run() {
    let p = items(&[("text-A", "itemA"), ("text-B", "itemB")]);
    let mut run = JsonRun::new(p, &config("Ollama", "", 5));
    expect_batch(run.next_step());
    assert!(run.batch_done(BatchReply::Failed("API_ERROR: 500".to_string())));
    assert_eq!(run.phase, JsonPhase::Finished);
    assert_eq!(run.error, Some("API_ERROR: 500".to_string()));
    assert!(matches!(run.next_step(), JsonStep::Done));
}

#[test]
fn test_single_error_is_noted_and_timeout_ends() {
    let p = items(&[("a", "k1"), ("b", "k2")]);
    let mut run = JsonRun::new(p, &config("Ollama", "", 1));
    expect_single(run.next_step());
    assert!(!run.single_done(SingleReply::Failed("API_ERROR: 500".to_string())));
    assert!(matches!(run.notes.last(), Some(JsonNote::SingleFailed(m)) if m == "API_ERROR: 500"));
    assert_eq!(expect_single(run.next_step()), "b");
    assert!(run.single_done(SingleReply::Failed("TIMEOUT: 30".to_string())));
    assert_eq!(run.error, Some("TIMEOUT: 30".to_string()));
    assert_eq!(run.counter, 1);
}

#[test]
fn test_cancel_leaves_batches_then_stops_after_one_text() {
    let p = items(&[("a", "k1"), ("b", "k2"), ("c", "k3"), ("d", "k4")]);
    let mut run = JsonRun::new(p, &config("Ollama", "", 2));
    expect_batch(run.next_step());
    run.batch_done(BatchReply::Answered(vec![Some("A".to_string()), None]));
    run.after_step(StepEnd::Break);
    assert_eq!(run.phase, JsonPhase::Singles);
    assert_eq!(expect_single(run.next_step()), "b");
    run.single_done(SingleReply::Translated("B".to_string()));
    run.after_step(StepEnd::Break);
    assert!(matches!(run.next_step(), JsonStep::Done));
    assert_eq!(run.counter, 2);
}

#[test]
fn test_cancel_while_paused_stops_at_once() {
    let p = items(&[("a", "k1"), ("b", "k2"), ("c", "k3")]);
    let mut run = JsonRun::new(p, &config("Ollama", "", 2));
    expect_batch(run.next_step());
    run.batch_done(BatchReply::Answered(vec![None, None]));
    run.after_step(StepEnd::Stop);
    assert!(matches!(run.next_step(), JsonStep::Done));
    assert!(run.translations.is_empty());
}
