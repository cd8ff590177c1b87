//! The interactive setup of the command-line tool: the steps it walks
//! through, what each answer changes, and where "back" leads. The caller
//! asks the questions and applies the changes; this module decides.
use vstd::prelude::*;
use crate::config::settings::AppConfig;
use crate::text::{chars_eq_str, chars_of, trim, trim_chars};

verus! {

/// A step of the setup.
#[derive(Clone, Copy, Debug, PartialEq, Eq, Structural)]
pub enum SetupStep {
    /// The interface language.
    UiLang,
    /// The translation service.
    Provider,
    /// The service's key.
    ApiKey,
    /// The model, picked from a list.
    Model,
    /// The model, typed in.
    CustomModel,
    /// The file or folder to translate.
    InputPath,
    /// The output folder.
    OutputDir,
    /// Start, advanced settings, cancel, or back.
    Confirm,
}

/// An answer to the current step.
pub enum WizardInput {
    /// The item at `index` of a list of `len` items was picked; `custom`
    /// tells that it is the "type a model" item of the model list. In the
    /// lists of the service, model and confirm steps the last item is
    /// "back".
    Pick { index: usize, len: usize, custom: bool },
    /// Text was typed (`<` means back); `path_exists` tells whether the
    /// trimmed text names an existing path (read at the input step only).
    Text { text: String, path_exists: bool },
    /// Nothing was asked: the step does not apply to the service.
    Nothing,
}

/// What the caller does with the answer.
#[derive(Clone, Copy, Debug, PartialEq, Eq, Structural)]
pub enum WizardAction {
    /// Nothing to apply; ask the current step.
    Ask,
    /// The interface language becomes the language at this position.
    SetUiLang(usize),
    /// The service becomes the service at this position.
    SetProvider(usize),
    /// The key becomes the trimmed answer.
    SetApiKey,
    /// The model becomes the model at this position of the list.
    SetModelFromList(usize),
    /// The model becomes the trimmed answer.
    SetCustomModel,
    /// The input path becomes the trimmed answer.
    SetInputPath,
    /// The typed path does not exist; say so and ask again.
    PathMissing,
    /// The output folder becomes the trimmed answer.
    SetOutputDir,
    /// Run the translation (`advanced`: the advanced settings were asked
    /// for, and are those of the configuration).
    Start { advanced: bool },
    /// Leave without translating.
    Cancel,
}

/// The services that need no key.
pub open spec fn keyless(provider: Seq<char>) -> bool {
    provider == "Ollama"@ || provider == "Google Free"@
}

/// The step that "back" returns to, and the history left: the last step
/// recorded, or the first step when none is.
pub open spec fn back_target(history: Seq<SetupStep>) -> (SetupStep, Seq<SetupStep>) {
    if history.len() == 0 {
        (SetupStep::UiLang, history)
    } else {
        (history.last(), history.drop_last())
    }
}

/// A step done: the next step, with the finished one recorded.
pub open spec fn forward(
    next: SetupStep,
    done: SetupStep,
    history: Seq<SetupStep>,
    action: WizardAction,
) -> (SetupStep, Seq<SetupStep>, WizardAction) {
    (next, history.push(done), action)
}

/// The step after an answer, the history after it, and what to apply.
///
/// The language and service steps record themselves and move on (the last
/// service item goes back). The key step is passed for keyless services;
/// else `<` goes back and any other text moves on, setting the key when it
/// is not blank. The model step is passed for the free Google service; the
/// last item goes back (to the service step, history kept, for Ollama),
/// the "type a model" item asks for the name, any other item sets it. The
/// typed name: `<` returns to the list, other text moves on (setting the
/// model when not blank). The input step: `<` goes back (to the service
/// step for the free Google service), a path that does not exist is
/// refused, else it is set. The output step: `<` goes back, other text
/// moves on (setting the folder when not blank). The confirm step: the
/// fourth item goes back, the third cancels, the second starts with the
/// advanced settings, any other starts. An answer of the wrong kind
/// changes nothing.
pub open spec fn spec_answer(step: SetupStep, history: Seq<SetupStep>, provider: Seq<char>, input: WizardInput) -> (
    SetupStep,
    Seq<SetupStep>,
    WizardAction,
) {
    let stay = (step, history, WizardAction::Ask);
    let back = (back_target(history).0, back_target(history).1, WizardAction::Ask);
    match step {
        SetupStep::UiLang => match input {
            WizardInput::Pick { index, .. } => forward(SetupStep::Provider, step, history, WizardAction::SetUiLang(index)),
            _ => stay,
        },
        SetupStep::Provider => match input {
            WizardInput::Pick { index, len, .. } => if index + 1 == len {
                back
            } else {
                forward(SetupStep::ApiKey, step, history, WizardAction::SetProvider(index))
            },
            _ => stay,
        },
        SetupStep::ApiKey => if keyless(provider) {
            forward(SetupStep::Model, step, history, WizardAction::Ask)
        } else {
            match input {
                WizardInput::Text { text, .. } => if text@ == "<"@ {
                    back
                } else {
                    forward(
                        SetupStep::Model,
                        step,
                        history,
                        if trim(text@).len() > 0 {
                            WizardAction::SetApiKey
                        } else {
                            WizardAction::Ask
                        },
                    )
                },
                _ => stay,
            }
        },
        SetupStep::Model => if provider == "Google Free"@ {
            forward(SetupStep::InputPath, step, history, WizardAction::Ask)
        } else {
            match input {
                WizardInput::Pick { index, len, custom } => if index + 1 == len {
                    if keyless(provider) {
                        (SetupStep::Provider, history, WizardAction::Ask)
                    } else {
                        back
                    }
                } else if custom {
                    (SetupStep::CustomModel, history, WizardAction::Ask)
                } else {
                    forward(SetupStep::InputPath, step, history, WizardAction::SetModelFromList(index))
                },
                _ => stay,
            }
        },
        SetupStep::CustomModel => match input {
            WizardInput::Text { text, .. } => if text@ == "<"@ {
                (SetupStep::Model, history, WizardAction::Ask)
            } else {
                forward(
                    SetupStep::InputPath,
                    SetupStep::Model,
                    history,
                    if trim(text@).len() > 0 {
                        WizardAction::SetCustomModel
                    } else {
                        WizardAction::Ask
                    },
                )
            },
            _ => stay,
        },
        SetupStep::InputPath => match input {
            WizardInput::Text { text, path_exists } => if text@ == "<"@ {
                if provider == "Google Free"@ {
                    (SetupStep::Provider, history, WizardAction::Ask)
                } else {
                    back
                }
            } else if !path_exists {
                (step, history, WizardAction::PathMissing)
            } else {
                forward(SetupStep::OutputDir, step, history, WizardAction::SetInputPath)
            },
            _ => stay,
        },
        SetupStep::OutputDir => match input {
            WizardInput::Text { text, .. } => if text@ == "<"@ {
                back
            } else {
                forward(
                    SetupStep::Confirm,
                    step,
                    history,
                    if trim(text@).len() > 0 {
                        WizardAction::SetOutputDir
                    } else {
                        WizardAction::Ask
                    },
                )
            },
            _ => stay,
        },
        SetupStep::Confirm => match input {
            WizardInput::Pick { index, .. } => if index == 3 {
                back
            } else if index == 2 {
                (step, history, WizardAction::Cancel)
            } else {
                (step, history, WizardAction::Start { advanced: index == 1 })
            },
            _ => stay,
        },
    }
}

/// The answer `<`, "back", typed.
pub open spec fn is_back_text(input: WizardInput) -> bool {
    input matches WizardInput::Text { text, .. } && text@ == "<"@
}

/// The last item of a list, "back", picked.
pub open spec fn is_back_pick(input: WizardInput) -> bool {
    input matches WizardInput::Pick { index, len, .. } && index + 1 == len
}

/// "Back" undoes a step: after a step recorded `prev` and moved on, `<`
/// typed at the key, input or output step, or the last item picked at the
/// service, model or confirm step, returns to `prev` with the history as
/// it was (at the key step for a service that needs a key, at the model
/// step for one that needs a key, at the input step for any service but the
/// free Google one).
pub proof fn law_back_undoes_step(
    step: SetupStep,
    prev: SetupStep,
    history: Seq<SetupStep>,
    provider: Seq<char>,
    input: WizardInput,
)
    requires
        match step {
            SetupStep::ApiKey => !keyless(provider) && is_back_text(input),
            SetupStep::InputPath => provider != "Google Free"@ && is_back_text(input),
            SetupStep::OutputDir => is_back_text(input),
            SetupStep::Provider => is_back_pick(input),
            SetupStep::Model => !keyless(provider) && is_back_pick(input),
            SetupStep::Confirm => input matches WizardInput::Pick { index, .. } && index == 3,
            _ => false,
        },
    ensures
        spec_answer(step, history.push(prev), provider, input) == (prev, history, WizardAction::Ask),
{
    assert(history.push(prev).drop_last() =~= history);
}

/// The state of the setup: the current step and the steps done before it.
pub struct CliWizard {
    pub step: SetupStep,
    pub history: Vec<SetupStep>,
}

/// The history a new task starts from at the input step: the steps that
/// apply to the service.
pub open spec fn restart_history(provider: Seq<char>) -> Seq<SetupStep> {
    if provider == "Google Free"@ {
        seq![SetupStep::UiLang, SetupStep::Provider]
    } else if provider == "Ollama"@ {
        seq![SetupStep::UiLang, SetupStep::Provider, SetupStep::Model]
    } else {
        seq![SetupStep::UiLang, SetupStep::Provider, SetupStep::ApiKey, SetupStep::Model]
    }
}

impl CliWizard {
    /// A setup at its first step.
    pub fn new() -> (r: Self)
        ensures
            r.step == SetupStep::UiLang,
            r.history@.len() == 0,
    {
        CliWizard { step: SetupStep::UiLang, history: Vec::new() }
    }

    /// Goes back: to the last step recorded, or the first step.
    fn go_back(&mut self)
        ensures
            (final(self).step, final(self).history@) == back_target(old(self).history@),
    {
        match self.history.pop() {
            Some(s) => {
                self.step = s;
            },
            None => {
                self.step = SetupStep::UiLang;
            },
        }
    }

    /// Records the current step as done and moves to `next`.
    fn go_forward(&mut self, next: SetupStep)
        ensures
            final(self).step == next,
            final(self).history@ == old(self).history@.push(old(self).step),
    {
        let done = self.step;
        self.history.push(done);
        self.step = next;
    }

    /// Takes the answer to the current step (see `spec_answer`).
    pub fn answer(&mut self, provider: &str, input: &WizardInput) -> (a: WizardAction)
        ensures
            (final(self).step, final(self).history@, a) == spec_answer(
                old(self).step,
                old(self).history@,
                provider@,
                *input,
            ),
    {
        let p = chars_of(provider);
        let free = chars_eq_str(&p, "Google Free");
        let keyless = free || chars_eq_str(&p, "Ollama");
        match self.step {
            SetupStep::UiLang => match input {
                WizardInput::Pick { index, .. } => {
                    self.go_forward(SetupStep::Provider);
                    WizardAction::SetUiLang(*index)
                },
                _ => WizardAction::Ask,
            },
            SetupStep::Provider => match input {
                WizardInput::Pick { index, len, .. } => {
                    if *len > 0 && *index == *len - 1 {
                        self.go_back();
                        WizardAction::Ask
                    } else {
                        self.go_forward(SetupStep::ApiKey);
                        WizardAction::SetProvider(*index)
                    }
                },
                _ => WizardAction::Ask,
            },
            SetupStep::ApiKey => {
                if keyless {
                    self.go_forward(SetupStep::Model);
                    return WizardAction::Ask;
                }
                match input {
                    WizardInput::Text { text, .. } => {
                        if is_back(text) {
                            self.go_back();
                            WizardAction::Ask
                        } else {
                            self.go_forward(SetupStep::Model);
                            if not_blank(text) {
                                WizardAction::SetApiKey
                            } else {
                                WizardAction::Ask
                            }
                        }
                    },
                    _ => WizardAction::Ask,
                }
            },
            SetupStep::Model => {
                if free {
                    self.go_forward(SetupStep::InputPath);
                    return WizardAction::Ask;
                }
                match input {
                    WizardInput::Pick { index, len, custom } => {
                        if *len > 0 && *index == *len - 1 {
                            if keyless {
                                self.step = SetupStep::Provider;
                            } else {
                                self.go_back();
                            }
                            WizardAction::Ask
                        } else if *custom {
                            self.step = SetupStep::CustomModel;
                            WizardAction::Ask
                        } else {
                            self.go_forward(SetupStep::InputPath);
                            WizardAction::SetModelFromList(*index)
                        }
                    },
                    _ => WizardAction::Ask,
                }
            },
            SetupStep::CustomModel => match input {
                WizardInput::Text { text, .. } => {
                    if is_back(text) {
                        self.step = SetupStep::Model;
                        WizardAction::Ask
                    } else {
                        self.step = SetupStep::Model;
                        self.go_forward(SetupStep::InputPath);
                        if not_blank(text) {
                            WizardAction::SetCustomModel
                        } else {
                            WizardAction::Ask
                        }
                    }
                },
                _ => WizardAction::Ask,
            },
            SetupStep::InputPath => match input {
                WizardInput::Text { text, path_exists } => {
                    if is_back(text) {
                        if free {
                            self.step = SetupStep::Provider;
                        } else {
                            self.go_back();
                        }
                        WizardAction::Ask
                    } else if !*path_exists {
                        WizardAction::PathMissing
                    } else {
                        self.go_forward(SetupStep::OutputDir);
                        WizardAction::SetInputPath
                    }
                },
                _ => WizardAction::Ask,
            },
            SetupStep::OutputDir => match input {
                WizardInput::Text { text, .. } => {
                    if is_back(text) {
                        self.go_back();
                        WizardAction::Ask
                    } else {
                        self.go_forward(SetupStep::Confirm);
                        if not_blank(text) {
                            WizardAction::SetOutputDir
                        } else {
                            WizardAction::Ask
                        }
                    }
                },
                _ => WizardAction::Ask,
            },
            SetupStep::Confirm => match input {
                WizardInput::Pick { index, .. } => {
                    if *index == 3 {
                        self.go_back();
                        WizardAction::Ask
                    } else if *index == 2 {
                        WizardAction::Cancel
                    } else {
                        WizardAction::Start { advanced: *index == 1 }
                    }
                },
                _ => WizardAction::Ask,
            },
        }
    }

    /// A new task after a run: the input step, with the steps that apply
    /// to the service recorded before it.
    pub fn restart(&mut self, provider: &str)
        ensures
            final(self).step == SetupStep::InputPath,
            final(self).history@ == restart_history(provider@),
    {
        let p = chars_of(provider);
        let mut h: Vec<SetupStep> = Vec::new();
        h.push(SetupStep::UiLang);
        h.push(SetupStep::Provider);
        if chars_eq_str(&p, "Google Free") {
        } else if chars_eq_str(&p, "Ollama") {
            h.push(SetupStep::Model);
        } else {
            h.push(SetupStep::ApiKey);
            h.push(SetupStep::Model);
        }
        assert(h@ =~= restart_history(provider@));
        self.history = h;
        self.step = SetupStep::InputPath;
    }
}

/// Whether an answer is `<`, "back".
fn is_back(text: &String) -> (r: bool)
    ensures
        r == (text@ == "<"@),
{
    chars_eq_str(&chars_of(text.as_str()), "<")
}

/// Whether an answer has something besides whitespace.
fn not_blank(text: &String) -> (r: bool)
    ensures
        r == (trim(text@).len() > 0),
{
    trim_chars(&chars_of(text.as_str())).len() > 0
}

/// The settings given on the command line; each one given replaces the
/// configured value, each flag given turns its setting on, and excluded
/// paths are added to the configured ones.
pub struct CliOverrides {
    pub output: Option<String>,
    pub provider: Option<String>,
    pub model: Option<String>,
    pub api_key: Option<String>,
    pub batch_size: Option<u32>,
    pub batch_max_chars: Option<u32>,
    pub timeout: Option<u32>,
    pub glossary_priority: Option<String>,
    pub source_lang: Option<String>,
    pub target_lang: Option<String>,
    pub skip_json: bool,
    pub skip_js: bool,
    pub skip_jar: bool,
    pub skip_book: bool,
    pub log_llm: bool,
    pub log_debug: bool,
    pub exclude: Vec<String>,
    pub fast_convert: bool,
}

/// The given text, else the configured one.
pub open spec fn text_or(given: Option<String>, configured: String) -> Seq<char> {
    match given {
        Some(s) => s@,
        None => configured@,
    }
}

/// The given number, else the configured one.
pub open spec fn number_or(given: Option<u32>, configured: u32) -> u32 {
    match given {
        Some(n) => n,
        None => configured,
    }
}

fn pick_text(given: Option<String>, configured: String) -> (r: String)
    ensures
        r@ == text_or(given, configured),
{
    match given {
        Some(s) => s,
        None => configured,
    }
}

fn pick_number(given: Option<u32>, configured: u32) -> (r: u32)
    ensures
        r == number_or(given, configured),
{
    match given {
        Some(n) => n,
        None => configured,
    }
}

/// The configuration with the command line's settings applied (see
/// `CliOverrides`); every other setting stays.
pub fn apply_overrides(config: AppConfig, o: CliOverrides) -> (r: AppConfig)
    ensures
        r.output_dir@ == text_or(o.output, config.output_dir),
        r.api_provider@ == text_or(o.provider, config.api_provider),
        r.model@ == text_or(o.model, config.model),
        r.api_key@ == text_or(o.api_key, config.api_key),
        r.batch_size == number_or(o.batch_size, config.batch_size),
        r.batch_max_chars == number_or(o.batch_max_chars, config.batch_max_chars),
        r.timeout == number_or(o.timeout, config.timeout),
        r.glossary_priority@ == text_or(o.glossary_priority, config.glossary_priority),
        r.source_lang@ == text_or(o.source_lang, config.source_lang),
        r.target_lang@ == text_or(o.target_lang, config.target_lang),
        r.skip_json == (config.skip_json || o.skip_json),
        r.skip_js == (config.skip_js || o.skip_js),
        r.skip_jar == (config.skip_jar || o.skip_jar),
        r.skip_book == (config.skip_book || o.skip_book),
        r.enable_llm_log == (config.enable_llm_log || o.log_llm),
        r.enable_debug_log == (config.enable_debug_log || o.log_debug),
        r.fast_convert == (config.fast_convert || o.fast_convert),
        r.excluded_paths@ == config.excluded_paths@ + o.exclude@,
        r.ollama_url == config.ollama_url,
        r.api_base_url == config.api_base_url,
        r.user_prompt == config.user_prompt,
        r.system_prompt == config.system_prompt,
        r.ui_lang == config.ui_lang,
        r.pack_format == config.pack_format,
        r.show_api_settings == config.show_api_settings,
        r.show_developer_mode == config.show_developer_mode,
        r.show_debug_tools == config.show_debug_tools,
{
    let mut excluded = config.excluded_paths;
    let mut extra = o.exclude;
    excluded.append(&mut extra);
    AppConfig {
        api_key: pick_text(o.api_key, config.api_key),
        api_provider: pick_text(o.provider, config.api_provider),
        model: pick_text(o.model, config.model),
        ollama_url: config.ollama_url,
        api_base_url: config.api_base_url,
        user_prompt: config.user_prompt,
        system_prompt: config.system_prompt,
        batch_size: pick_number(o.batch_size, config.batch_size),
        batch_max_chars: pick_number(o.batch_max_chars, config.batch_max_chars),
        timeout: pick_number(o.timeout, config.timeout),
        glossary_priority: pick_text(o.glossary_priority, config.glossary_priority),
        source_lang: pick_text(o.source_lang, config.source_lang),
        target_lang: pick_text(o.target_lang, config.target_lang),
        ui_lang: config.ui_lang,
        output_dir: pick_text(o.output, config.output_dir),
        pack_format: config.pack_format,
        show_api_settings: config.show_api_settings,
        show_developer_mode: config.show_developer_mode,
        show_debug_tools: config.show_debug_tools,
        skip_json: config.skip_json || o.skip_json,
        skip_js: config.skip_js || o.skip_js,
        skip_jar: config.skip_jar || o.skip_jar,
        skip_book: config.skip_book || o.skip_book,
        enable_llm_log: config.enable_llm_log || o.log_llm,
        enable_debug_log: config.enable_debug_log || o.log_debug,
        excluded_paths: excluded,
        fast_convert: config.fast_convert || o.fast_convert,
    }
}

} // verus!
