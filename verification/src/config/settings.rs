//! The core settings of the application, their defaults and how they are
//! brought back into range.
use vstd::prelude::*;

verus! {

/// The instruction that opens every prompt unless the user wrote another.
pub const DEFAULT_PROMPT: &'static str = "你是一位專業的 Minecraft 模組翻譯員。現在請將以下模組字串翻譯為「繁體中文 (zh_tw)」。\n保持專業的遊戲術語風格（如方塊、實體、附魔）。";

/// The technical rules appended to every prompt.
pub const DEFAULT_SYSTEM_PROMPT: &'static str = "\n\n[內部技術指令 - 請務必遵守]\n1. 僅針對 %%VAR_n%%, %%MC_n%%, %%HEX_n%% 等技術佔位符執行「保持原樣」操作（不可修改、翻譯或增刪標籤）。\n2. 嚴禁在此類標籤（%%...%%）之外自行臆造、增加或移動任何格式標籤。若原文無標籤，譯文亦不可有標籤。\n3. 其餘文本內容均「必須」按要求翻譯，絕對不可將全文原樣輸出。";

/// The folders that a scan leaves out by default.
pub open spec fn spec_default_excluded_paths() -> Seq<Seq<char>> {
    seq![
        "kubejs/data/"@,
        "packmenu/"@,
        "config/almostunified/"@,
        "fancymenu/"@,
        "journeymap/icon/theme"@,
        "shaderpacks/"@,
        "screenshots/"@,
        "saves/"@,
        "logs/"@,
        "defaultconfigs/"@,
        "local/"@,
        ".mixin.out/"@,
    ]
}

/// The strings' character sequences.
pub open spec fn strs(v: Seq<String>) -> Seq<Seq<char>> {
    v.map_values(|s: String| s@)
}

/// The folders that a scan leaves out by default.
pub fn default_excluded_paths() -> (r: Vec<String>)
    ensures
        strs(r@) == spec_default_excluded_paths(),
{
    let r = vec![
        "kubejs/data/".to_owned(),
        "packmenu/".to_owned(),
        "config/almostunified/".to_owned(),
        "fancymenu/".to_owned(),
        "journeymap/icon/theme".to_owned(),
        "shaderpacks/".to_owned(),
        "screenshots/".to_owned(),
        "saves/".to_owned(),
        "logs/".to_owned(),
        "defaultconfigs/".to_owned(),
        "local/".to_owned(),
        ".mixin.out/".to_owned(),
    ];
    assert(strs(r@) =~= spec_default_excluded_paths());
    r
}

/// The default translation service: none.
pub fn default_api_provider() -> (r: String)
    ensures
        r@ == "無"@,
{
    "無".to_owned()
}

/// The default address of a local Ollama server.
pub fn default_ollama_url() -> (r: String)
    ensures
        r@ == "http://localhost:11434"@,
{
    "http://localhost:11434".to_owned()
}

/// The default user prompt.
pub fn default_user_prompt() -> (r: String)
    ensures
        r@ == DEFAULT_PROMPT@,
{
    DEFAULT_PROMPT.to_owned()
}

/// The default technical rules of the prompt.
pub fn default_system_prompt() -> (r: String)
    ensures
        r@ == DEFAULT_SYSTEM_PROMPT@,
{
    DEFAULT_SYSTEM_PROMPT.to_owned()
}

/// The default number of texts per batch.
pub fn default_batch_size() -> (r: u32)
    ensures
        r == 150,
{
    150
}

/// The default number of bytes per batch.
pub fn default_batch_max_chars() -> (r: u32)
    ensures
        r == 3500,
{
    3500
}

/// The default request timeout, in seconds.
pub fn default_timeout() -> (r: u32)
    ensures
        r == 60,
{
    60
}

/// Which glossary wins by default when two define a term.
pub fn default_glossary_priority() -> (r: String)
    ensures
        r@ == "official"@,
{
    "official".to_owned()
}

/// The default source language.
pub fn default_source_lang() -> (r: String)
    ensures
        r@ == "en_us"@,
{
    "en_us".to_owned()
}

/// The default target language.
pub fn default_target_lang() -> (r: String)
    ensures
        r@ == "zh_tw"@,
{
    "zh_tw".to_owned()
}

/// The default resource-pack format.
pub fn default_pack_format() -> (r: u32)
    ensures
        r == 15,
{
    15
}

/// The default language of the interface.
pub fn default_ui_lang() -> (r: String)
    ensures
        r@ == "zh_tw"@,
{
    "zh_tw".to_owned()
}

/// The default colour theme.
pub fn default_theme() -> (r: String)
    ensures
        r@ == "dark"@,
{
    "dark".to_owned()
}

/// `true`, the default of the switches that start on.
pub fn default_true() -> (r: bool)
    ensures
        r,
{
    true
}

// ---------------------------------------------------------------------------
// The core settings
// ---------------------------------------------------------------------------

/// The settings of `config.cfg` that decide how a translation runs, with
/// the API key (the window geometry is kept by the application around it).
pub struct AppConfig {
    pub api_key: String,
    pub api_provider: String,
    pub model: String,
    pub ollama_url: String,
    pub api_base_url: String,
    pub user_prompt: String,
    pub system_prompt: String,
    pub batch_size: u32,
    pub batch_max_chars: u32,
    pub timeout: u32,
    pub glossary_priority: String,
    pub source_lang: String,
    pub target_lang: String,
    pub ui_lang: String,
    pub output_dir: String,
    pub pack_format: u32,
    pub show_api_settings: bool,
    pub show_developer_mode: bool,
    pub show_debug_tools: bool,
    pub skip_json: bool,
    pub skip_js: bool,
    pub skip_jar: bool,
    pub skip_book: bool,
    pub enable_llm_log: bool,
    pub enable_debug_log: bool,
    pub excluded_paths: Vec<String>,
    pub fast_convert: bool,
}

/// A number brought into `[lo, hi]`, a zero first replaced by `dflt`.
pub open spec fn fix_number(v: u32, dflt: u32, lo: u32, hi: u32) -> u32 {
    let w = if v == 0 {
        dflt
    } else {
        v
    };
    if w < lo {
        lo
    } else if w > hi {
        hi
    } else {
        w
    }
}

/// A text, an empty one replaced by `dflt`.
pub open spec fn fix_text(s: Seq<char>, dflt: Seq<char>) -> Seq<char> {
    if s.len() == 0 {
        dflt
    } else {
        s
    }
}

fn fix_number_exec(v: u32, dflt: u32, lo: u32, hi: u32) -> (r: u32)
    requires
        lo <= hi,
    ensures
        r == fix_number(v, dflt, lo, hi),
{
    let w = if v == 0 {
        dflt
    } else {
        v
    };
    if w < lo {
        lo
    } else if w > hi {
        hi
    } else {
        w
    }
}

impl AppConfig {
    /// The settings are in range: every number within its bounds and every
    /// text that must not be empty filled in.
    pub open spec fn is_valid(&self) -> bool {
        &&& 1 <= self.batch_size <= 500
        &&& 1 <= self.batch_max_chars <= 20000
        &&& 1 <= self.timeout <= 300
        &&& 1 <= self.pack_format <= 128
        &&& self.api_provider@.len() > 0
        &&& self.ollama_url@.len() > 0
        &&& self.source_lang@.len() > 0
        &&& self.target_lang@.len() > 0
        &&& self.user_prompt@.len() > 0
        &&& self.system_prompt@.len() > 0
        &&& self.glossary_priority@.len() > 0
    }

    /// What `validate` makes of the settings `old`, field by field.
    pub open spec fn validated_from(&self, old: &AppConfig) -> bool {
        &&& self.batch_size == fix_number(old.batch_size, 150, 1, 500)
        &&& self.batch_max_chars == fix_number(old.batch_max_chars, 3500, 1, 20000)
        &&& self.timeout == fix_number(old.timeout, 60, 1, 300)
        &&& self.pack_format == fix_number(old.pack_format, 15, 1, 128)
        &&& self.api_provider@ == fix_text(old.api_provider@, "無"@)
        &&& self.ollama_url@ == fix_text(old.ollama_url@, "http://localhost:11434"@)
        &&& self.source_lang@ == fix_text(old.source_lang@, "en_us"@)
        &&& self.target_lang@ == fix_text(old.target_lang@, "zh_tw"@)
        &&& self.user_prompt@ == fix_text(old.user_prompt@, DEFAULT_PROMPT@)
        &&& self.system_prompt@ == fix_text(old.system_prompt@, DEFAULT_SYSTEM_PROMPT@)
        &&& self.glossary_priority@ == fix_text(old.glossary_priority@, "official"@)
        &&& self.api_key@ == old.api_key@
        &&& self.model@ == old.model@
        &&& self.api_base_url@ == old.api_base_url@
        &&& self.ui_lang@ == old.ui_lang@
        &&& self.output_dir@ == old.output_dir@
        &&& self.show_api_settings == old.show_api_settings
        &&& self.show_developer_mode == old.show_developer_mode
        &&& self.show_debug_tools == old.show_debug_tools
        &&& self.skip_json == old.skip_json
        &&& self.skip_js == old.skip_js
        &&& self.skip_jar == old.skip_jar
        &&& self.skip_book == old.skip_book
        &&& self.enable_llm_log == old.enable_llm_log
        &&& self.enable_debug_log == old.enable_debug_log
        &&& strs(self.excluded_paths@) == strs(old.excluded_paths@)
        &&& self.fast_convert == old.fast_convert
    }

    /// Brings the settings into range: a zero number takes its default and is
    /// then clamped (batch size to 1..=500, bytes per batch to 1..=20000,
    /// timeout to 1..=300, pack format to 1..=128), and an empty provider,
    /// server address, language, prompt or glossary priority takes its
    /// default.
    pub fn validate(&mut self)
        ensures
            final(self).validated_from(old(self)),
    {
        self.batch_size = fix_number_exec(self.batch_size, default_batch_size(), 1, 500);
        self.batch_max_chars = fix_number_exec(self.batch_max_chars, default_batch_max_chars(), 1, 20000);
        self.timeout = fix_number_exec(self.timeout, default_timeout(), 1, 300);
        self.pack_format = fix_number_exec(self.pack_format, default_pack_format(), 1, 128);
        fix_text_exec(&mut self.api_provider, "無");
        fix_text_exec(&mut self.ollama_url, "http://localhost:11434");
        fix_text_exec(&mut self.source_lang, "en_us");
        fix_text_exec(&mut self.target_lang, "zh_tw");
        fix_text_exec(&mut self.user_prompt, DEFAULT_PROMPT);
        fix_text_exec(&mut self.system_prompt, DEFAULT_SYSTEM_PROMPT);
        fix_text_exec(&mut self.glossary_priority, "official");
    }
}

fn fix_text_exec(s: &mut String, dflt: &str)
    ensures
        final(s)@ == fix_text(old(s)@, dflt@),
{
    if s.as_str().is_empty() {
        *s = dflt.to_owned();
    }
}

impl Default for AppConfig {
    fn default() -> (r: Self)
        ensures
            r.api_key@.len() == 0,
            r.api_provider@ == "無"@,
            r.model@.len() == 0,
            r.ollama_url@ == "http://localhost:11434"@,
            r.api_base_url@.len() == 0,
            r.user_prompt@ == DEFAULT_PROMPT@,
            r.system_prompt@ == DEFAULT_SYSTEM_PROMPT@,
            r.batch_size == 150,
            r.batch_max_chars == 3500,
            r.timeout == 60,
            r.glossary_priority@ == "official"@,
            r.source_lang@ == "en_us"@,
            r.target_lang@ == "zh_tw"@,
            r.ui_lang@ == "zh_tw"@,
            r.output_dir@.len() == 0,
            r.pack_format == 15,
            !r.show_api_settings,
            !r.show_developer_mode,
            !r.show_debug_tools,
            !r.skip_json,
            !r.skip_js,
            !r.skip_jar,
            !r.skip_book,
            !r.enable_llm_log,
            !r.enable_debug_log,
            strs(r.excluded_paths@) == spec_default_excluded_paths(),
            !r.fast_convert,
    {
        AppConfig {
            api_key: String::new(),
            api_provider: default_api_provider(),
            model: String::new(),
            ollama_url: default_ollama_url(),
            api_base_url: String::new(),
            user_prompt: default_user_prompt(),
            system_prompt: default_system_prompt(),
            batch_size: default_batch_size(),
            batch_max_chars: default_batch_max_chars(),
            timeout: default_timeout(),
            glossary_priority: default_glossary_priority(),
            source_lang: default_source_lang(),
            target_lang: default_target_lang(),
            ui_lang: default_ui_lang(),
            output_dir: String::new(),
            pack_format: default_pack_format(),
            show_api_settings: false,
            show_developer_mode: false,
            show_debug_tools: false,
            skip_json: false,
            skip_js: false,
            skip_jar: false,
            skip_book: false,
            enable_llm_log: false,
            enable_debug_log: false,
            excluded_paths: default_excluded_paths(),
            fast_convert: false,
        }
    }
}

/// After `validate` the settings are in range, and a second `validate`
/// changes nothing.
pub proof fn law_validate_settles(a: AppConfig, b: AppConfig, c: AppConfig)
    requires
        b.validated_from(&a),
        c.validated_from(&b),
    ensures
        b.is_valid(),
        c.validated_from(&b) && c.batch_size == b.batch_size && c.batch_max_chars
            == b.batch_max_chars && c.timeout == b.timeout && c.pack_format == b.pack_format
            && c.api_provider@ == b.api_provider@ && c.ollama_url@ == b.ollama_url@
            && c.source_lang@ == b.source_lang@ && c.target_lang@ == b.target_lang@
            && c.user_prompt@ == b.user_prompt@ && c.system_prompt@ == b.system_prompt@
            && c.glossary_priority@ == b.glossary_priority@,
{
    reveal_strlit("無");
    reveal_strlit("http://localhost:11434");
    reveal_strlit("en_us");
    reveal_strlit("zh_tw");
    reveal_strlit("official");
    reveal_strlit("你是一位專業的 Minecraft 模組翻譯員。現在請將以下模組字串翻譯為「繁體中文 (zh_tw)」。\n保持專業的遊戲術語風格（如方塊、實體、附魔）。");
    reveal_strlit("\n\n[內部技術指令 - 請務必遵守]\n1. 僅針對 %%VAR_n%%, %%MC_n%%, %%HEX_n%% 等技術佔位符執行「保持原樣」操作（不可修改、翻譯或增刪標籤）。\n2. 嚴禁在此類標籤（%%...%%）之外自行臆造、增加或移動任何格式標籤。若原文無標籤，譯文亦不可有標籤。\n3. 其餘文本內容均「必須」按要求翻譯，絕對不可將全文原樣輸出。");
}

} // verus!
