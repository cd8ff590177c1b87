//! A translation job: its state and its settings.
use vstd::prelude::*;
use crate::config::settings::{strs, AppConfig};
use crate::i18n::CommonLabels;
use crate::text::{chars_eq, chars_of};

verus! {

/// Whether a translation job is idle, running or paused.
#[derive(Clone, Copy, Debug, PartialEq, Eq, Structural)]
pub enum JobStatus {
    Idle,
    Running,
    Paused,
}

/// The settings of a translation job, as the run reads them.
pub struct JobConfig {
    pub api_key: String,
    pub api_provider: String,
    pub selected_model: String,
    pub ollama_url: String,
    pub api_base_url: String,
    pub cleanup_prefixes: Vec<String>,
    pub cleanup_contains: Vec<String>,
    pub user_prompt: String,
    pub system_prompt: String,
    pub timeout: u64,
    pub batch_size: u32,
    pub batch_max_chars: u32,
    pub output_dir: String,
    pub pack_format: u32,
    pub glossary_priority: String,
    pub skip_json: bool,
    pub skip_js: bool,
    pub skip_jar: bool,
    pub skip_book: bool,
    pub enable_llm_log: bool,
    pub source_lang: String,
    pub target_lang: String,
    pub enable_debug_log: bool,
    pub excluded_paths: Vec<String>,
    pub fast_convert: bool,
}

fn copy_strings(v: &Vec<String>) -> (r: Vec<String>)
    ensures
        strs(r@) == strs(v@),
{
    let mut r: Vec<String> = Vec::new();
    let mut i: usize = 0;
    while i < v.len()
        invariant
            i <= v.len(),
            strs(r@) == strs(v@).take(i as int),
        decreases v.len() - i,
    {
        let ghost before = strs(r@);
        let x = v[i].clone();
        r.push(x);
        assert(strs(r@) =~= before.push(v@[i as int]@));
        i = i + 1;
        assert(strs(r@) =~= strs(v@).take(i as int));
    }
    assert(strs(v@).take(v.len() as int) =~= strs(v@));
    r
}

impl JobConfig {
    /// A job's settings from each of its values (the timeout widened to 64
    /// bits).
    pub fn new(
        api_key: String,
        api_provider: String,
        selected_model: String,
        ollama_url: String,
        api_base_url: String,
        cleanup_prefixes: Vec<String>,
        cleanup_contains: Vec<String>,
        user_prompt: String,
        system_prompt: String,
        timeout: u32,
        batch_size: u32,
        batch_max_chars: u32,
        output_dir: String,
        pack_format: u32,
        glossary_priority: String,
        skip_json: bool,
        skip_js: bool,
        skip_jar: bool,
        skip_book: bool,
        enable_llm_log: bool,
        source_lang: String,
        target_lang: String,
        enable_debug_log: bool,
        excluded_paths: Vec<String>,
        fast_convert: bool,
    ) -> (r: Self)
        ensures
            r.api_key@ == api_key@,
            r.api_provider@ == api_provider@,
            r.selected_model@ == selected_model@,
            r.ollama_url@ == ollama_url@,
            r.api_base_url@ == api_base_url@,
            r.cleanup_prefixes@ == cleanup_prefixes@,
            r.cleanup_contains@ == cleanup_contains@,
            r.user_prompt@ == user_prompt@,
            r.system_prompt@ == system_prompt@,
            r.timeout == timeout as u64,
            r.batch_size == batch_size,
            r.batch_max_chars == batch_max_chars,
            r.output_dir@ == output_dir@,
            r.pack_format == pack_format,
            r.glossary_priority@ == glossary_priority@,
            r.skip_json == skip_json,
            r.skip_js == skip_js,
            r.skip_jar == skip_jar,
            r.skip_book == skip_book,
            r.enable_llm_log == enable_llm_log,
            r.source_lang@ == source_lang@,
            r.target_lang@ == target_lang@,
            r.enable_debug_log == enable_debug_log,
            r.excluded_paths@ == excluded_paths@,
            r.fast_convert == fast_convert,
    {
        JobConfig {
            api_key,
            api_provider,
            selected_model,
            ollama_url,
            api_base_url,
            cleanup_prefixes,
            cleanup_contains,
            user_prompt,
            system_prompt,
            timeout: timeout as u64,
            batch_size,
            batch_max_chars,
            output_dir,
            pack_format,
            glossary_priority,
            skip_json,
            skip_js,
            skip_jar,
            skip_book,
            enable_llm_log,
            source_lang,
            target_lang,
            enable_debug_log,
            excluded_paths,
            fast_convert,
        }
    }

    /// A job's settings from the settings of the application and the
    /// cleanup rules of the target language's labels (the timeout widened to
    /// 64 bits).
    pub fn from_app_config_and_i18n(config: &AppConfig, i18n: &CommonLabels) -> (r: Self)
        ensures
            r.api_key@ == config.api_key@,
            r.api_provider@ == config.api_provider@,
            r.selected_model@ == config.model@,
            r.ollama_url@ == config.ollama_url@,
            r.api_base_url@ == config.api_base_url@,
            strs(r.cleanup_prefixes@) == strs(i18n.cleanup_prefixes@),
            strs(r.cleanup_contains@) == strs(i18n.cleanup_contains@),
            r.user_prompt@ == config.user_prompt@,
            r.system_prompt@ == config.system_prompt@,
            r.timeout == config.timeout as u64,
            r.batch_size == config.batch_size,
            r.batch_max_chars == config.batch_max_chars,
            r.output_dir@ == config.output_dir@,
            r.pack_format == config.pack_format,
            r.glossary_priority@ == config.glossary_priority@,
            r.skip_json == config.skip_json,
            r.skip_js == config.skip_js,
            r.skip_jar == config.skip_jar,
            r.skip_book == config.skip_book,
            r.enable_llm_log == config.enable_llm_log,
            r.source_lang@ == config.source_lang@,
            r.target_lang@ == config.target_lang@,
            r.enable_debug_log == config.enable_debug_log,
            strs(r.excluded_paths@) == strs(config.excluded_paths@),
            r.fast_convert == config.fast_convert,
    {
        JobConfig {
            api_key: config.api_key.clone(),
            api_provider: config.api_provider.clone(),
            selected_model: config.model.clone(),
            ollama_url: config.ollama_url.clone(),
            api_base_url: config.api_base_url.clone(),
            cleanup_prefixes: copy_strings(&i18n.cleanup_prefixes),
            cleanup_contains: copy_strings(&i18n.cleanup_contains),
            user_prompt: config.user_prompt.clone(),
            system_prompt: config.system_prompt.clone(),
            timeout: config.timeout as u64,
            batch_size: config.batch_size,
            batch_max_chars: config.batch_max_chars,
            output_dir: config.output_dir.clone(),
            pack_format: config.pack_format,
            glossary_priority: config.glossary_priority.clone(),
            skip_json: config.skip_json,
            skip_js: config.skip_js,
            skip_jar: config.skip_jar,
            skip_book: config.skip_book,
            enable_llm_log: config.enable_llm_log,
            source_lang: config.source_lang.clone(),
            target_lang: config.target_lang.clone(),
            enable_debug_log: config.enable_debug_log,
            excluded_paths: copy_strings(&config.excluded_paths),
            fast_convert: config.fast_convert,
        }
    }
}

/// A running job's settings after the application's settings changed: the
/// key is the stored one, the service, model, addresses, prompts, limits,
/// output, glossary priority, skips, logs and languages are the new
/// settings' (the excluded paths and fast conversion stay). When the target
/// language changed, the cleanup rules become those of the new target's
/// labels and the second result is `true` (the translation memory is to be
/// cleared); else the rules stay.
pub fn update_job_config(job: JobConfig, config: AppConfig, api_key: String, target_labels: &CommonLabels) -> (r: (
    JobConfig,
    bool,
))
    ensures
        r.1 == (job.target_lang@ != config.target_lang@),
        r.0.api_key@ == api_key@,
        r.0.api_provider@ == config.api_provider@,
        r.0.selected_model@ == config.model@,
        r.0.ollama_url@ == config.ollama_url@,
        r.0.api_base_url@ == config.api_base_url@,
        r.0.user_prompt@ == config.user_prompt@,
        r.0.system_prompt@ == config.system_prompt@,
        r.0.timeout == config.timeout as u64,
        r.0.batch_size == config.batch_size,
        r.0.batch_max_chars == config.batch_max_chars,
        r.0.output_dir@ == config.output_dir@,
        r.0.pack_format == config.pack_format,
        r.0.glossary_priority@ == config.glossary_priority@,
        r.0.skip_json == config.skip_json,
        r.0.skip_js == config.skip_js,
        r.0.skip_jar == config.skip_jar,
        r.0.skip_book == config.skip_book,
        r.0.enable_llm_log == config.enable_llm_log,
        r.0.source_lang@ == config.source_lang@,
        r.0.target_lang@ == config.target_lang@,
        r.0.enable_debug_log == config.enable_debug_log,
        strs(r.0.excluded_paths@) == strs(job.excluded_paths@),
        r.0.fast_convert == job.fast_convert,
        r.1 ==> strs(r.0.cleanup_prefixes@) == strs(target_labels.cleanup_prefixes@) && strs(r.0.cleanup_contains@)
            == strs(target_labels.cleanup_contains@),
        !r.1 ==> strs(r.0.cleanup_prefixes@) == strs(job.cleanup_prefixes@) && strs(r.0.cleanup_contains@)
            == strs(job.cleanup_contains@),
{
    let changed = !chars_eq(&chars_of(job.target_lang.as_str()), &chars_of(config.target_lang.as_str()));
    let (prefixes, contains) = if changed {
        (copy_strings(&target_labels.cleanup_prefixes), copy_strings(&target_labels.cleanup_contains))
    } else {
        (copy_strings(&job.cleanup_prefixes), copy_strings(&job.cleanup_contains))
    };
    let updated = JobConfig {
        api_key,
        api_provider: config.api_provider,
        selected_model: config.model,
        ollama_url: config.ollama_url,
        api_base_url: config.api_base_url,
        cleanup_prefixes: prefixes,
        cleanup_contains: contains,
        user_prompt: config.user_prompt,
        system_prompt: config.system_prompt,
        timeout: config.timeout as u64,
        batch_size: config.batch_size,
        batch_max_chars: config.batch_max_chars,
        output_dir: config.output_dir,
        pack_format: config.pack_format,
        glossary_priority: config.glossary_priority,
        skip_json: config.skip_json,
        skip_js: config.skip_js,
        skip_jar: config.skip_jar,
        skip_book: config.skip_book,
        enable_llm_log: config.enable_llm_log,
        source_lang: config.source_lang,
        target_lang: config.target_lang,
        enable_debug_log: config.enable_debug_log,
        excluded_paths: job.excluded_paths,
        fast_convert: job.fast_convert,
    };
    (updated, changed)
}

} // verus!
