//! The decisions behind the GUI: which buttons and panels show in which state,
//! whether a translation may start, how a log message splits into styled
//! segments, and the parsing and printing of colours and numbers typed into
//! forms.
use vstd::prelude::*;
use crate::i18n::GuiLabels;
use crate::config::settings::{fix_number, fix_text, strs, AppConfig, DEFAULT_PROMPT, DEFAULT_SYSTEM_PROMPT};
use crate::translation::LogSegment;
use crate::text::{starts_with_str, digit_value, digits_value, spec_is_whitespace, trim_end, trim_start, char_index_at_byte, char_index_of_byte, decimal, decimal_chars, is_byte_boundary, parse_unsigned, parse_unsigned_exec, utf8_len, all_whitespace, extend_chars, find_from, find_from_exec, lemma_find_from, occurs_at, occurs_at_exec, sub_chars, chars_eq, chars_eq_str, chars_of, is_blank, replace_all, replace_all_chars, string_of, trim, trim_chars};

pub mod dictionary_page;

verus! {

/// The run state of a translation as the front end reports it.
#[derive(Clone, Copy, Debug, PartialEq, Eq, Structural)]
pub enum UiStatus {
    Idle,
    Running,
    Paused,
}

/// The status word that the front end sends for each run state.
pub open spec fn status_word(status: UiStatus) -> Seq<char> {
    match status {
        UiStatus::Idle => "IDLE"@,
        UiStatus::Running => "RUNNING"@,
        UiStatus::Paused => "PAUSED"@,
    }
}

impl UiStatus {
    /// Reads the status word of the front end: `RUNNING` and `PAUSED` name
    /// their states, anything else means idle.
    pub fn from_frontend_status(raw: &str) -> (r: Self)
        ensures
            r == status_of_word(raw@),
    {
        let v = chars_of(raw);
        if chars_eq_str(&v, "RUNNING") {
            UiStatus::Running
        } else if chars_eq_str(&v, "PAUSED") {
            UiStatus::Paused
        } else {
            UiStatus::Idle
        }
    }
}

/// The run state that `from_frontend_status` reads from a status word.
pub open spec fn status_of_word(raw: Seq<char>) -> UiStatus {
    if raw == "RUNNING"@ {
        UiStatus::Running
    } else if raw == "PAUSED"@ {
        UiStatus::Paused
    } else {
        UiStatus::Idle
    }
}

/// Reading back the status word of a run state gives that state.
pub proof fn law_status_word_roundtrip(status: UiStatus)
    ensures
        status_of_word(status_word(status)) == status,
{
    reveal_strlit("IDLE");
    reveal_strlit("RUNNING");
    reveal_strlit("PAUSED");
    assert("IDLE"@ != "RUNNING"@ && "IDLE"@ != "PAUSED"@ && "PAUSED"@ != "RUNNING"@) by {
        assert("IDLE"@.len() != "RUNNING"@.len());
        assert("IDLE"@.len() != "PAUSED"@.len());
        assert("PAUSED"@.len() != "RUNNING"@.len());
    }
}

/// What the front end shows and enables in a run state.
pub struct UiPatch {
    pub status: String,
    pub show_translate: bool,
    pub show_pause: bool,
    pub show_resume: bool,
    pub show_stop: bool,
    pub lock_controls: bool,
    pub pause_notice: String,
    pub clear_current_status: bool,
    pub clear_batch_status: bool,
}

/// The notice shown while paused: the paused-status label with its `{}`
/// placeholders removed and surrounding whitespace trimmed.
pub open spec fn pause_notice_of(label: Seq<char>) -> Seq<char> {
    trim(replace_all(label, "{}"@, Seq::empty()))
}

/// The controls for a run state.
pub fn derive_ui_patch(status: UiStatus, labels: &GuiLabels) -> (p: UiPatch)
    ensures
        p.status@ == status_word(status),
        p.show_translate == (status == UiStatus::Idle),
        p.show_pause == (status == UiStatus::Running),
        p.show_resume == (status == UiStatus::Paused),
        p.show_stop == (status == UiStatus::Paused),
        p.lock_controls == (status == UiStatus::Running),
        p.pause_notice@ == (if status == UiStatus::Paused {
            pause_notice_of(labels.common.status_trans_paused@)
        } else {
            Seq::empty()
        }),
        p.clear_current_status == (status == UiStatus::Idle),
        p.clear_batch_status == (status == UiStatus::Idle),
{
    match status {
        UiStatus::Idle => UiPatch {
            status: "IDLE".to_owned(),
            show_translate: true,
            show_pause: false,
            show_resume: false,
            show_stop: false,
            lock_controls: false,
            pause_notice: String::new(),
            clear_current_status: true,
            clear_batch_status: true,
        },
        UiStatus::Running => UiPatch {
            status: "RUNNING".to_owned(),
            show_translate: false,
            show_pause: true,
            show_resume: false,
            show_stop: false,
            lock_controls: true,
            pause_notice: String::new(),
            clear_current_status: false,
            clear_batch_status: false,
        },
        UiStatus::Paused => {
            let label = chars_of(labels.common.status_trans_paused.as_str());
            let braces = chars_of("{}");
            proof {
                reveal_strlit("{}");
            }
            let nothing: Vec<char> = Vec::new();
            let removed = replace_all_chars(&label, &braces, &nothing);
            let trimmed = trim_chars(&removed);
            proof {
                assert(Seq::<char>::empty() =~= nothing@);
            }
            UiPatch {
                status: "PAUSED".to_owned(),
                show_translate: false,
                show_pause: false,
                show_resume: true,
                show_stop: true,
                lock_controls: false,
                pause_notice: string_of(&trimmed),
                clear_current_status: false,
                clear_batch_status: false,
            }
        },
    }
}

/// Which of the three side panels are open.
#[derive(Clone, Copy, Debug, PartialEq, Eq, Structural)]
pub struct PanelState {
    pub show_api_settings: bool,
    pub show_developer_mode: bool,
    pub show_palette_settings: bool,
}

/// At most one side panel is open.
pub open spec fn at_most_one_panel(p: PanelState) -> bool {
    (p.show_api_settings as int) + (p.show_developer_mode as int) + (p.show_palette_settings as int)
        <= 1
}

/// The panels after a toggle action: the named panel flips, and when it
/// opens the other two close. Unknown actions change nothing.
pub fn derive_panel_state(action: &str, current: PanelState) -> (next: PanelState)
    ensures
        action@ == "toggle_api"@ ==> next == (if current.show_api_settings {
            PanelState { show_api_settings: false, ..current }
        } else {
            PanelState {
                show_api_settings: true,
                show_developer_mode: false,
                show_palette_settings: false,
            }
        }),
        action@ != "toggle_api"@ && action@ == "toggle_dev"@ ==> next == (
        if current.show_developer_mode {
            PanelState { show_developer_mode: false, ..current }
        } else {
            PanelState {
                show_api_settings: false,
                show_developer_mode: true,
                show_palette_settings: false,
            }
        }),
        action@ != "toggle_api"@ && action@ != "toggle_dev"@ && action@ == "toggle_palette"@
            ==> next == (if current.show_palette_settings {
            PanelState { show_palette_settings: false, ..current }
        } else {
            PanelState {
                show_api_settings: false,
                show_developer_mode: false,
                show_palette_settings: true,
            }
        }),
        action@ != "toggle_api"@ && action@ != "toggle_dev"@ && action@ != "toggle_palette"@
            ==> next == current,
{
    let a = chars_of(action);
    let mut next = current;
    if chars_eq_str(&a, "toggle_api") {
        next.show_api_settings = !next.show_api_settings;
        if next.show_api_settings {
            next.show_developer_mode = false;
            next.show_palette_settings = false;
        }
    } else if chars_eq_str(&a, "toggle_dev") {
        next.show_developer_mode = !next.show_developer_mode;
        if next.show_developer_mode {
            next.show_api_settings = false;
            next.show_palette_settings = false;
        }
    } else if chars_eq_str(&a, "toggle_palette") {
        next.show_palette_settings = !next.show_palette_settings;
        if next.show_palette_settings {
            next.show_api_settings = false;
            next.show_developer_mode = false;
        }
    }
    next
}

/// A panel action never opens a second panel: from a state with at most one
/// panel open, every action leads to a state with at most one panel open.
pub proof fn law_panel_exclusive(action: &str, current: PanelState, next: PanelState)
    requires
        at_most_one_panel(current),
        action@ == "toggle_api"@ ==> next == (if current.show_api_settings {
            PanelState { show_api_settings: false, ..current }
        } else {
            PanelState {
                show_api_settings: true,
                show_developer_mode: false,
                show_palette_settings: false,
            }
        }),
        action@ != "toggle_api"@ && action@ == "toggle_dev"@ ==> next == (
        if current.show_developer_mode {
            PanelState { show_developer_mode: false, ..current }
        } else {
            PanelState {
                show_api_settings: false,
                show_developer_mode: true,
                show_palette_settings: false,
            }
        }),
        action@ != "toggle_api"@ && action@ != "toggle_dev"@ && action@ == "toggle_palette"@
            ==> next == (if current.show_palette_settings {
            PanelState { show_palette_settings: false, ..current }
        } else {
            PanelState {
                show_api_settings: false,
                show_developer_mode: false,
                show_palette_settings: true,
            }
        }),
        action@ != "toggle_api"@ && action@ != "toggle_dev"@ && action@ != "toggle_palette"@
            ==> next == current,
    ensures
        at_most_one_panel(next),
{
}

/// What the API settings form shows, and whether a translation may start.
#[derive(Clone, Copy, Debug, PartialEq, Eq, Structural)]
pub struct ConfigUiState {
    pub show_ollama_url: bool,
    pub show_api_key: bool,
    pub show_api_base_url: bool,
    pub show_fast_convert: bool,
    pub can_translate: bool,
}

/// Providers that need no API key.
pub open spec fn needs_no_key(provider: Seq<char>) -> bool {
    provider == "Ollama"@ || provider == "Google Free"@ || provider == "無"@
}

/// The settings form for a provider, model, key and language pair.
pub fn derive_config_ui_state(
    provider: &str,
    selected_model: &str,
    api_key: &str,
    source_lang: &str,
    target_lang: &str,
) -> (r: ConfigUiState)
    ensures
        r.show_ollama_url == (provider@ == "Ollama"@),
        r.show_api_key == !needs_no_key(provider@),
        r.show_api_base_url == !needs_no_key(provider@),
        r.show_fast_convert == ((target_lang@ == "zh_cn"@ || target_lang@ == "zh_tw"@)
            && source_lang@ != target_lang@),
        r.can_translate == ((needs_no_key(provider@) || !all_whitespace(api_key@)) && (
        provider@ == "Google Free"@ || provider@ == "Ollama"@ || !all_whitespace(
            selected_model@,
        ))),
{
    let p = chars_of(provider);
    let is_ollama = chars_eq_str(&p, "Ollama");
    let is_google = chars_eq_str(&p, "Google Free");
    let is_none = chars_eq_str(&p, "無");
    let hide_key = is_ollama || is_google || is_none;
    let can_skip_model = is_google || is_ollama;
    let has_key = if hide_key {
        true
    } else {
        !is_blank(&chars_of(api_key))
    };
    let has_model = can_skip_model || !is_blank(&chars_of(selected_model));
    let t = chars_of(target_lang);
    let s = chars_of(source_lang);
    let target_chinese = chars_eq_str(&t, "zh_cn") || chars_eq_str(&t, "zh_tw");
    ConfigUiState {
        show_ollama_url: is_ollama,
        show_api_key: !hide_key,
        show_api_base_url: !hide_key,
        show_fast_convert: target_chinese && !chars_eq(&s, &t),
        can_translate: has_key && has_model,
    }
}

/// One page of dictionary entries.
pub struct DictionaryPageData {
    pub items: Vec<(String, String)>,
    pub total_pages: usize,
    pub page: usize,
    pub page_size: usize,
}

/// Which element of the style the palette edits.
pub struct PaletteInput {
    pub target_type: String,
    pub target_item: String,
    pub property: String,
}

/// The settings form as the front end sends it, every field as typed.
pub struct ConfigFormInput {
    pub api_provider: String,
    pub api_base_url: String,
    pub ollama_url: String,
    pub model: String,
    pub source_lang: String,
    pub target_lang: String,
    pub batch_size: String,
    pub batch_max_chars: String,
    pub timeout: String,
    pub output_dir: String,
    pub pack_format: String,
    pub user_prompt: String,
    pub system_prompt: String,
    pub glossary_priority: String,
    pub skip_json: bool,
    pub skip_js: bool,
    pub skip_jar: bool,
    pub skip_book: bool,
    pub enable_llm_log: bool,
    pub enable_debug_log: bool,
    pub show_debug_tools: bool,
    pub ui_lang: String,
    pub path: String,
    pub fast_convert: bool,
    pub excluded_paths_text: String,
}

/// One row of the palette editor: the component it edits and whether it is
/// ticked for a batch change.
pub struct PaletteEditSlot {
    pub target_id: String,
    pub is_checked: bool,
}

/// The style form as the front end sends it, every field as typed.
pub struct StyleFormInput {
    pub font_size: String,
    pub btn_rounding_enabled: bool,
    pub btn_rounding_value: String,
    pub progress_pulse_enabled: bool,
    pub progress_pulse_speed: String,
    pub progress_style: String,
    pub color_bg: Option<String>,
    pub color_text: Option<String>,
    pub color_accent: Option<String>,
    pub color_danger: Option<String>,
}


// ---------------------------------------------------------------------------
// Styled log messages
// ---------------------------------------------------------------------------

/// A log segment as (kind, text).
pub open spec fn text_seg(t: Seq<char>) -> (Seq<char>, Seq<char>) {
    ("text"@, t)
}

/// The segments of `s` from position `pos` on: `<dir>…</dir>` and
/// `<file>…</file>` become `dir` and `file` segments, everything else,
/// including a `<` that opens no complete tag, is text.
pub open spec fn segments_from(s: Seq<char>, pos: int) -> Seq<(Seq<char>, Seq<char>)>
    decreases s.len() - pos,
    when 0 <= pos <= s.len()
{
    if pos >= s.len() {
        Seq::empty()
    } else {
        match find_from(s, seq!['<'], pos) {
            None => seq![text_seg(s.subrange(pos, s.len() as int))],
            Some(st) => {
                let pre = if st > pos {
                    seq![text_seg(s.subrange(pos, st))]
                } else {
                    Seq::empty()
                };
                proof {
                    reveal_strlit("</dir>");
                    reveal_strlit("</file>");
                    lemma_find_from(s, seq!['<'], pos);
                    lemma_find_from(s, "</dir>"@, st + 5);
                    lemma_find_from(s, "</file>"@, st + 6);
                }
                if occurs_at("<dir>"@, s, st) && find_from(s, "</dir>"@, st + 5) is Some {
                    let e = find_from(s, "</dir>"@, st + 5)->0;
                    pre + seq![("dir"@, s.subrange(st + 5, e))] + segments_from(s, e + 6)
                } else if occurs_at("<file>"@, s, st) && find_from(s, "</file>"@, st + 6) is Some {
                    let e = find_from(s, "</file>"@, st + 6)->0;
                    pre + seq![("file"@, s.subrange(st + 6, e))] + segments_from(s, e + 7)
                } else {
                    pre + seq![text_seg(seq!['<'])] + segments_from(s, st + 1)
                }
            },
        }
    }
}

/// The segments of a log message; a message without any yields one empty
/// text segment.
pub open spec fn spec_log_segments(message: Seq<char>) -> Seq<(Seq<char>, Seq<char>)> {
    let segs = segments_from(message, 0);
    if segs.len() == 0 {
        seq![text_seg(Seq::empty())]
    } else {
        segs
    }
}

/// A segment written back as markup.
pub open spec fn render_segment(seg: (Seq<char>, Seq<char>)) -> Seq<char> {
    if seg.0 == "dir"@ {
        "<dir>"@ + seg.1 + "</dir>"@
    } else if seg.0 == "file"@ {
        "<file>"@ + seg.1 + "</file>"@
    } else {
        seg.1
    }
}

/// Segments written back as markup, one after the other.
pub open spec fn render_segments(segs: Seq<(Seq<char>, Seq<char>)>) -> Seq<char>
    decreases segs.len(),
{
    if segs.len() == 0 {
        Seq::empty()
    } else {
        render_segment(segs[0]) + render_segments(segs.drop_first())
    }
}

fn make_segment(kind: &str, text: Vec<char>) -> (r: LogSegment)
    ensures
        r@ == (kind@, text@),
{
    LogSegment { kind: kind.to_owned(), text: string_of(&text) }
}

/// Splits a log message into styled segments.
pub fn parse_log_segments(message: &str) -> (segs: Vec<LogSegment>)
    ensures
        segs@.map_values(|g: LogSegment| g@) == spec_log_segments(message@),
{
    let m = chars_of(message);
    let lt = chars_of("<");
    let open_dir = chars_of("<dir>");
    let close_dir = chars_of("</dir>");
    let open_file = chars_of("<file>");
    let close_file = chars_of("</file>");
    proof {
        reveal_strlit("<");
        reveal_strlit("<dir>");
        reveal_strlit("</dir>");
        reveal_strlit("<file>");
        reveal_strlit("</file>");
        assert(lt@ =~= seq!['<']);
    }
    let mut segs: Vec<LogSegment> = Vec::new();
    let mut pos: usize = 0;
    while pos < m.len()
        invariant
            pos <= m@.len(),
            m@ == message@,
            lt@ == seq!['<'],
            open_dir@ == "<dir>"@,
            close_dir@ == "</dir>"@,
            open_file@ == "<file>"@,
            close_file@ == "</file>"@,
            "<dir>"@.len() == 5,
            "</dir>"@.len() == 6,
            "<file>"@.len() == 6,
            "</file>"@.len() == 7,
            segs@.map_values(|g: LogSegment| g@) + segments_from(m@, pos as int) == segments_from(
                m@,
                0,
            ),
        decreases m.len() - pos,
    {
        let ghost before = segs@.map_values(|g: LogSegment| g@);
        proof {
            lemma_find_from(m@, seq!['<'], pos as int);
        }
        match find_from_exec(&m, &lt, pos) {
            None => {
                let t = sub_chars(&m, pos, m.len());
                segs.push(make_segment("text", t));
                proof {
                    assert(segs@.map_values(|g: LogSegment| g@) =~= before + segments_from(
                        m@,
                        pos as int,
                    ));
                    assert(segments_from(m@, m@.len() as int) =~= Seq::empty());
                }
                pos = m.len();
                proof {
                    assert(segs@.map_values(|g: LogSegment| g@) + segments_from(m@, pos as int)
                        =~= segs@.map_values(|g: LogSegment| g@));
                }
            },
            Some(st) => {
                if st > pos {
                    let t = sub_chars(&m, pos, st);
                    segs.push(make_segment("text", t));
                }
                let ghost with_pre = segs@.map_values(|g: LogSegment| g@);
                proof {
                    lemma_find_from(m@, "</dir>"@, st + 5);
                    lemma_find_from(m@, "</file>"@, st + 6);
                }
                let mut done = false;
                if occurs_at_exec(&open_dir, &m, st) {
                    if let Some(e) = find_from_exec(&m, &close_dir, st + 5) {
                        let t = sub_chars(&m, st + 5, e);
                        segs.push(make_segment("dir", t));
                        proof {
                            assert(segs@.map_values(|g: LogSegment| g@) + segments_from(
                                m@,
                                e + 6,
                            ) =~= before + segments_from(m@, pos as int));
                        }
                        pos = e + 6;
                        done = true;
                    }
                }
                if !done && occurs_at_exec(&open_file, &m, st) {
                    if let Some(e) = find_from_exec(&m, &close_file, st + 6) {
                        let t = sub_chars(&m, st + 6, e);
                        segs.push(make_segment("file", t));
                        proof {
                            assert(segs@.map_values(|g: LogSegment| g@) + segments_from(
                                m@,
                                e + 7,
                            ) =~= before + segments_from(m@, pos as int));
                        }
                        pos = e + 7;
                        done = true;
                    }
                }
                if !done {
                    segs.push(make_segment("text", sub_chars(&m, st, st + 1)));
                    proof {
                        assert(m@.subrange(st as int, st + 1) =~= seq!['<']);
                        assert(segs@.map_values(|g: LogSegment| g@) + segments_from(m@, st + 1)
                            =~= before + segments_from(m@, pos as int));
                    }
                    pos = st + 1;
                }
            },
        }
    }
    proof {
        assert(segments_from(m@, pos as int) =~= Seq::empty());
        assert(segs@.map_values(|g: LogSegment| g@) =~= segments_from(m@, 0));
    }
    if segs.len() == 0 {
        segs.push(make_segment("text", Vec::new()));
        proof {
            assert(segs@.map_values(|g: LogSegment| g@) =~= seq![text_seg(Seq::empty())]);
        }
    }
    segs
}


proof fn lemma_render_append(a: Seq<(Seq<char>, Seq<char>)>, b: Seq<(Seq<char>, Seq<char>)>)
    ensures
        render_segments(a + b) == render_segments(a) + render_segments(b),
    decreases a.len(),
{
    if a.len() == 0 {
        assert(a + b =~= b);
    } else {
        lemma_render_append(a.drop_first(), b);
        assert((a + b).drop_first() =~= a.drop_first() + b);
    }
}

proof fn lemma_render_single(x: (Seq<char>, Seq<char>))
    ensures
        render_segments(seq![x]) == render_segment(x),
{
    let one = seq![x];
    assert(one.drop_first() =~= Seq::<(Seq<char>, Seq<char>)>::empty());
    assert(render_segments(one.drop_first()) == Seq::<char>::empty());
    assert(one[0] == x);
    assert(render_segments(one) == render_segment(one[0]) + render_segments(one.drop_first()));
    assert(render_segment(x) + Seq::<char>::empty() =~= render_segment(x));
}

proof fn lemma_render_text(t: Seq<char>)
    ensures
        render_segments(seq![text_seg(t)]) == t,
{
    reveal_strlit("text");
    reveal_strlit("dir");
    reveal_strlit("file");
    lemma_render_single(text_seg(t));
    assert("text"@.len() == 4);
    assert("dir"@.len() == 3);
    assert("text"@ != "dir"@);
    assert("text"@ != "file"@) by {
        assert("text"@[0] == 't');
        assert("file"@[0] == 'f');
    }
}

proof fn lemma_render_from(s: Seq<char>, pos: int)
    requires
        0 <= pos <= s.len(),
    ensures
        render_segments(segments_from(s, pos)) == s.subrange(pos, s.len() as int),
    decreases s.len() - pos,
{
    reveal_strlit("text");
    reveal_strlit("dir");
    reveal_strlit("file");
    reveal_strlit("<dir>");
    reveal_strlit("</dir>");
    reveal_strlit("<file>");
    reveal_strlit("</file>");
    let one = |t: Seq<char>| seq![text_seg(t)];
    if pos >= s.len() {
        assert(s.subrange(pos, s.len() as int) =~= Seq::<char>::empty());
    } else {
        lemma_find_from(s, seq!['<'], pos);
        match find_from(s, seq!['<'], pos) {
            None => {
                lemma_render_text(s.subrange(pos, s.len() as int));
            },
            Some(st) => {
                let pre = if st > pos {
                    seq![text_seg(s.subrange(pos, st))]
                } else {
                    Seq::empty()
                };
                assert(render_segments(pre) =~= s.subrange(pos, st)) by {
                    if st > pos {
                        lemma_render_text(s.subrange(pos, st));
                    }
                }
                lemma_find_from(s, "</dir>"@, st + 5);
                lemma_find_from(s, "</file>"@, st + 6);
                if occurs_at("<dir>"@, s, st) && find_from(s, "</dir>"@, st + 5) is Some {
                    let e = find_from(s, "</dir>"@, st + 5)->0;
                    let mid = seq![("dir"@, s.subrange(st + 5, e))];
                    lemma_render_from(s, e + 6);
                    lemma_render_append(pre, mid);
                    lemma_render_append(pre + mid, segments_from(s, e + 6));
                    lemma_render_single(mid[0]);
                    assert(mid =~= seq![mid[0]]);
                    assert(s.subrange(st, st + 5) == "<dir>"@);
                    assert(s.subrange(e, e + 6) == "</dir>"@);
                    assert(s.subrange(pos, s.len() as int) =~= s.subrange(pos, st) + s.subrange(
                        st,
                        st + 5,
                    ) + s.subrange(st + 5, e) + s.subrange(e, e + 6) + s.subrange(
                        e + 6,
                        s.len() as int,
                    ));
                } else if occurs_at("<file>"@, s, st) && find_from(s, "</file>"@, st + 6) is Some {
                    let e = find_from(s, "</file>"@, st + 6)->0;
                    let mid = seq![("file"@, s.subrange(st + 6, e))];
                    lemma_render_from(s, e + 7);
                    lemma_render_append(pre, mid);
                    lemma_render_append(pre + mid, segments_from(s, e + 7));
                    lemma_render_single(mid[0]);
                    assert(mid =~= seq![mid[0]]);
                    assert("file"@ != "dir"@) by {
                        assert("file"@.len() == 4);
                    }
                    assert(s.subrange(st, st + 6) == "<file>"@);
                    assert(s.subrange(e, e + 7) == "</file>"@);
                    assert(s.subrange(pos, s.len() as int) =~= s.subrange(pos, st) + s.subrange(
                        st,
                        st + 6,
                    ) + s.subrange(st + 6, e) + s.subrange(e, e + 7) + s.subrange(
                        e + 7,
                        s.len() as int,
                    ));
                } else {
                    let mid = seq![text_seg(seq!['<'])];
                    lemma_render_from(s, st + 1);
                    lemma_render_append(pre, mid);
                    lemma_render_append(pre + mid, segments_from(s, st + 1));
                    lemma_render_text(seq!['<']);
                    assert(s.subrange(st, st + 1) =~= seq!['<']);
                    assert(s.subrange(pos, s.len() as int) =~= s.subrange(pos, st) + s.subrange(
                        st,
                        st + 1,
                    ) + s.subrange(st + 1, s.len() as int));
                }
            },
        }
    }
}

/// Writing the segments of a log message back as markup gives the message
/// again: splitting loses nothing.
pub proof fn law_log_segments_roundtrip(message: Seq<char>)
    ensures
        render_segments(spec_log_segments(message)) == message,
{
    reveal_strlit("text");
    reveal_strlit("dir");
    reveal_strlit("file");
    lemma_render_from(message, 0);
    assert(message.subrange(0, message.len() as int) =~= message);
    if segments_from(message, 0).len() == 0 {
        lemma_render_text(Seq::<char>::empty());
    }
}


/// A segment of a known kind: a text segment with text, or a `dir` or
/// `file` segment.
pub open spec fn segment_ok(g: (Seq<char>, Seq<char>)) -> bool {
    ||| g.0 == "text"@ && g.1.len() > 0
    ||| g.0 == "dir"@
    ||| g.0 == "file"@
}

proof fn lemma_ok_concat(a: Seq<(Seq<char>, Seq<char>)>, b: Seq<(Seq<char>, Seq<char>)>)
    requires
        forall|k: int| 0 <= k < a.len() ==> segment_ok(#[trigger] a[k]),
        forall|k: int| 0 <= k < b.len() ==> segment_ok(#[trigger] b[k]),
    ensures
        forall|k: int| 0 <= k < (a + b).len() ==> segment_ok(#[trigger] (a + b)[k]),
{
    assert forall|k: int| 0 <= k < (a + b).len() implies segment_ok(#[trigger] (a + b)[k]) by {
        if k < a.len() {
            assert((a + b)[k] == a[k]);
        } else {
            assert((a + b)[k] == b[k - a.len()]);
        }
    }
}

proof fn lemma_segments_ok(s: Seq<char>, pos: int)
    requires
        0 <= pos <= s.len(),
    ensures
        forall|k: int| 0 <= k < segments_from(s, pos).len() ==> segment_ok(#[trigger] segments_from(s, pos)[k]),
        pos < s.len() ==> segments_from(s, pos).len() > 0,
    decreases s.len() - pos,
{
    reveal_strlit("</dir>");
    reveal_strlit("</file>");
    if pos < s.len() {
        lemma_find_from(s, seq!['<'], pos);
        match find_from(s, seq!['<'], pos) {
            None => {
                let g = text_seg(s.subrange(pos, s.len() as int));
                assert(seq![g][0] == g);
            },
            Some(st) => {
                let pre = if st > pos {
                    seq![text_seg(s.subrange(pos, st))]
                } else {
                    Seq::empty()
                };
                assert forall|k: int| 0 <= k < pre.len() implies segment_ok(#[trigger] pre[k]) by {
                    assert(pre[k] == text_seg(s.subrange(pos, st)));
                }
                lemma_find_from(s, "</dir>"@, st + 5);
                lemma_find_from(s, "</file>"@, st + 6);
                if occurs_at("<dir>"@, s, st) && find_from(s, "</dir>"@, st + 5) is Some {
                    let e = find_from(s, "</dir>"@, st + 5)->0;
                    let mid = seq![("dir"@, s.subrange(st + 5, e))];
                    assert forall|k: int| 0 <= k < mid.len() implies segment_ok(#[trigger] mid[k]) by {}
                    lemma_segments_ok(s, e + 6);
                    lemma_ok_concat(pre, mid);
                    lemma_ok_concat(pre + mid, segments_from(s, e + 6));
                } else if occurs_at("<file>"@, s, st) && find_from(s, "</file>"@, st + 6) is Some {
                    let e = find_from(s, "</file>"@, st + 6)->0;
                    let mid = seq![("file"@, s.subrange(st + 6, e))];
                    assert forall|k: int| 0 <= k < mid.len() implies segment_ok(#[trigger] mid[k]) by {}
                    lemma_segments_ok(s, e + 7);
                    lemma_ok_concat(pre, mid);
                    lemma_ok_concat(pre + mid, segments_from(s, e + 7));
                } else {
                    let mid = seq![text_seg(seq!['<'])];
                    assert forall|k: int| 0 <= k < mid.len() implies segment_ok(#[trigger] mid[k]) by {
                        assert(mid[k] == text_seg(seq!['<']));
                    }
                    lemma_segments_ok(s, st + 1);
                    lemma_ok_concat(pre, mid);
                    lemma_ok_concat(pre + mid, segments_from(s, st + 1));
                }
            },
        }
    }
}

/// The segments of a log message are never none, each is a `text`, `dir`
/// or `file` segment, and a text segment is empty only as the one segment
/// of the empty message.
pub proof fn law_log_segment_kinds(message: Seq<char>)
    ensures
        spec_log_segments(message).len() > 0,
        forall|k: int|
            0 <= k < spec_log_segments(message).len() ==> {
                let g = #[trigger] spec_log_segments(message)[k];
                g.0 == "text"@ || g.0 == "dir"@ || g.0 == "file"@
            },
        message.len() > 0 ==> forall|k: int|
            0 <= k < spec_log_segments(message).len() ==> segment_ok(#[trigger] spec_log_segments(message)[k]),
        message.len() == 0 ==> spec_log_segments(message) == seq![text_seg(Seq::empty())],
{
    lemma_segments_ok(message, 0);
    if message.len() == 0 {
        assert(segments_from(message, 0).len() == 0);
    }
}

// ---------------------------------------------------------------------------
// Colours and numbers in forms
// ---------------------------------------------------------------------------

/// `rgb(r,g,b)` in CSS notation.
pub open spec fn spec_rgb(c: Seq<u8>) -> Seq<char> {
    "rgb("@ + decimal(c[0] as nat) + seq![','] + decimal(c[1] as nat) + seq![','] + decimal(
        c[2] as nat,
    ) + seq![')']
}

/// The CSS `rgb(r,g,b)` notation of a colour.
pub fn rgb(color: [u8; 3]) -> (s: String)
    ensures
        s@ == spec_rgb(color@),
{
    let mut v = chars_of("rgb(");
    extend_chars(&mut v, &decimal_chars(color[0] as usize));
    v.push(',');
    extend_chars(&mut v, &decimal_chars(color[1] as usize));
    v.push(',');
    extend_chars(&mut v, &decimal_chars(color[2] as usize));
    v.push(')');
    string_of(&v)
}

/// The lowercase hexadecimal digit of a value below 16.
pub open spec fn hex_digit(d: nat) -> char {
    if d < 10 {
        ((d + 48) as u8) as char
    } else {
        ((d + 87) as u8) as char
    }
}

/// Two lowercase hexadecimal digits of a byte.
pub open spec fn hex_byte(b: u8) -> Seq<char> {
    seq![hex_digit((b / 16) as nat), hex_digit((b % 16) as nat)]
}

/// `#rrggbb` in lowercase.
pub open spec fn spec_hex(c: Seq<u8>) -> Seq<char> {
    seq!['#'] + hex_byte(c[0]) + hex_byte(c[1]) + hex_byte(c[2])
}

fn hex_digit_exec(d: u8) -> (c: char)
    requires
        d < 16,
    ensures
        c == hex_digit(d as nat),
{
    if d < 10 {
        (d + 48) as char
    } else {
        (d + 87) as char
    }
}

/// The `#rrggbb` notation of a colour, in lowercase.
pub fn hex(color: [u8; 3]) -> (s: String)
    ensures
        s@ == spec_hex(color@),
{
    let mut v: Vec<char> = Vec::new();
    v.push('#');
    let mut i: usize = 0;
    while i < 3
        invariant
            i <= 3,
            v@ == seq!['#'] + (if i >= 1 {
                hex_byte(color@[0])
            } else {
                Seq::empty()
            }) + (if i >= 2 {
                hex_byte(color@[1])
            } else {
                Seq::empty()
            }) + (if i >= 3 {
                hex_byte(color@[2])
            } else {
                Seq::empty()
            }),
        decreases 3 - i,
    {
        let b = color[i];
        v.push(hex_digit_exec(b / 16));
        v.push(hex_digit_exec(b % 16));
        i = i + 1;
        assert(v@ =~= seq!['#'] + (if i >= 1 {
            hex_byte(color@[0])
        } else {
            Seq::empty()
        }) + (if i >= 2 {
            hex_byte(color@[1])
        } else {
            Seq::empty()
        }) + (if i >= 3 {
            hex_byte(color@[2])
        } else {
            Seq::empty()
        }));
    }
    string_of(&v)
}

/// What `str::parse::<u32>` gives for the trimmed text.
pub open spec fn spec_parse_u32_or(raw: Seq<char>, fallback: u32) -> u32 {
    match parse_unsigned(trim(raw), 10, u32::MAX as nat) {
        Some(v) => v as u32,
        None => fallback,
    }
}

/// The number typed into a form field, or `fallback` when the trimmed text is
/// not an unsigned 32-bit number.
pub fn parse_u32_or(raw: &str, fallback: u32) -> (r: u32)
    ensures
        r == spec_parse_u32_or(raw@, fallback),
{
    let t = trim_chars(&chars_of(raw));
    match parse_unsigned_exec(&t, 10, u32::MAX) {
        Some(v) => v,
        None => fallback,
    }
}

/// The trimmed text of a colour field.
pub open spec fn hex_field(raw: Seq<char>) -> Seq<char> {
    trim(raw)
}

/// The trimmed text has the shape that `parse_hex_color` slices: seven bytes
/// that start with `#`.
pub open spec fn hex_shaped(t: Seq<char>) -> bool {
    utf8_len(t) == 7 && t.len() > 0 && t[0] == '#'
}

/// Slicing a seven-byte `#…` text at bytes 3 and 5 falls between characters
/// (else the byte slicing of the text would panic).
pub open spec fn hex_slices_ok(raw: Seq<char>) -> bool {
    let t = hex_field(raw);
    hex_shaped(t) ==> is_byte_boundary(t, 3) && is_byte_boundary(t, 5)
}

/// The three two-byte hexadecimal slices after the `#` of a seven-byte text.
pub open spec fn spec_hex_parts(t: Seq<char>) -> Option<(u8, u8, u8)> {
    let k3 = char_index_of_byte(t, 3);
    let k5 = char_index_of_byte(t, 5);
    let r = parse_unsigned(t.subrange(1, k3), 16, 255);
    let g = parse_unsigned(t.subrange(k3, k5), 16, 255);
    let b = parse_unsigned(t.subrange(k5, t.len() as int), 16, 255);
    if r is Some && g is Some && b is Some {
        Some((r->0 as u8, g->0 as u8, b->0 as u8))
    } else {
        None
    }
}

/// The colour written `#rrggbb`: the trimmed text is seven bytes starting with
/// `#`, and each two-byte slice after it is a hexadecimal `u8` (as
/// `u8::from_str_radix` reads it, an optional `+` included).
pub open spec fn spec_parse_hex_color(raw: Seq<char>) -> Option<(u8, u8, u8)> {
    let t = hex_field(raw);
    if !hex_shaped(t) {
        None
    } else {
        spec_hex_parts(t)
    }
}

proof fn lemma_hash_is_one_byte(t: Seq<char>)
    requires
        t.len() > 0,
        t[0] == '#',
    ensures
        utf8_len(t.take(1)) == 1,
{
    let one = t.take(1);
    assert(one.drop_last() =~= Seq::<char>::empty());
    assert(one.last() == '#');
    assert(('#' as u32) == 35);
    assert(utf8_len(one.drop_last()) == 0);
}

fn hex_parts(t: &Vec<char>) -> (r: Option<[u8; 3]>)
    requires
        hex_shaped(t@),
        is_byte_boundary(t@, 3),
        is_byte_boundary(t@, 5),
    ensures
        match r {
            Some(a) => spec_hex_parts(t@) == Some((a[0], a[1], a[2])),
            None => spec_hex_parts(t@) is None,
        },
{
    let k3 = match char_index_at_byte(t, 3) {
        Some(k) => k,
        None => {
            return None;
        },
    };
    let k5 = match char_index_at_byte(t, 5) {
        Some(k) => k,
        None => {
            return None;
        },
    };
    proof {
        lemma_hash_is_one_byte(t@);
        crate::text::lemma_char_index_of_byte_unique(t@, 1, 1);
        if k3 < 1 {
            crate::text::lemma_utf8_len_take_strict(t@, k3 as int, 1);
        }
        if k5 < k3 {
            crate::text::lemma_utf8_len_take_strict(t@, k5 as int, k3 as int);
        }
    }
    let rv = sub_chars(t, 1, k3);
    let gv = sub_chars(t, k3, k5);
    let bv = sub_chars(t, k5, t.len());
    let r = parse_unsigned_exec(&rv, 16, 255);
    let g = parse_unsigned_exec(&gv, 16, 255);
    let b = parse_unsigned_exec(&bv, 16, 255);
    match (r, g, b) {
        (Some(r), Some(g), Some(b)) => Some([r as u8, g as u8, b as u8]),
        _ => None,
    }
}

/// Reads a colour written `#rrggbb` (surrounding whitespace allowed).
pub fn parse_hex_color(raw: &str) -> (r: Option<[u8; 3]>)
    requires
        hex_slices_ok(raw@),
    ensures
        match r {
            Some(a) => spec_parse_hex_color(raw@) == Some((a[0], a[1], a[2])),
            None => spec_parse_hex_color(raw@) is None,
        },
{
    let t = trim_chars(&chars_of(raw));
    let k7 = char_index_at_byte(&t, 7);
    let shaped = match k7 {
        Some(k) => k == t.len() && t.len() > 0 && t[0] == '#',
        None => false,
    };
    proof {
        assert(t@.take(t@.len() as int) =~= t@);
        if let Some(k) = k7 {
            if k < t.len() {
                crate::text::lemma_utf8_len_take_strict(t@, k as int, t@.len() as int);
            }
        }
    }
    if !shaped {
        return None;
    }
    hex_parts(&t)
}

proof fn lemma_hex_digit(d: nat)
    requires
        d < 16,
    ensures
        digit_value(hex_digit(d), 16) == Some(d),
        (hex_digit(d) as u32) < 0x80,
        !spec_is_whitespace(hex_digit(d)),
        hex_digit(d) != '+',
{
    let c = hex_digit(d);
    if d < 10 {
        assert((c as u32) == d + 48);
    } else {
        assert((c as u32) == d + 87);
    }
}

proof fn lemma_hex_byte(b: u8)
    ensures
        parse_unsigned(hex_byte(b), 16, 255) == Some(b as nat),
        hex_byte(b).len() == 2,
        forall|i: int| 0 <= i < 2 ==> (#[trigger] hex_byte(b)[i] as u32) < 0x80,
        forall|i: int| 0 <= i < 2 ==> !spec_is_whitespace(#[trigger] hex_byte(b)[i]),
{
    let h = hex_byte(b);
    lemma_hex_digit((b / 16) as nat);
    lemma_hex_digit((b % 16) as nat);
    let h1 = h.drop_last();
    assert(h1.drop_last() =~= Seq::<char>::empty());
    assert(h1.last() == hex_digit((b / 16) as nat));
    assert(digits_value(h1.drop_last(), 16) == 0);
    assert(digits_value(h1, 16) == 0 * 16 + (b / 16) as nat);
    assert(h.last() == hex_digit((b % 16) as nat));
    assert(digits_value(h, 16) == b as nat);
}

/// The `#rrggbb` text of every colour reads back as that colour.
pub proof fn law_hex_roundtrip(color: [u8; 3])
    ensures
        hex_slices_ok(spec_hex(color@)),
        spec_parse_hex_color(spec_hex(color@)) == Some((color[0], color[1], color[2])),
{
    let t = spec_hex(color@);
    lemma_hex_byte(color@[0]);
    lemma_hex_byte(color@[1]);
    lemma_hex_byte(color@[2]);
    assert(('#' as u32) == 35);
    assert(t.len() == 7);
    assert(t[0] == '#');
    assert forall|i: int| 0 <= i < 7 implies (#[trigger] t[i] as u32) < 0x80
        && !spec_is_whitespace(t[i]) by {
        if i == 0 {
        } else if i < 3 {
            assert(t[i] == hex_byte(color@[0])[i - 1]);
        } else if i < 5 {
            assert(t[i] == hex_byte(color@[1])[i - 3]);
        } else {
            assert(t[i] == hex_byte(color@[2])[i - 5]);
        }
    }
    assert(trim_start(t) == t);
    assert(trim_end(t) == t);
    assert(trim(t) == t);
    assert forall|k: int| 0 <= k <= 7 implies #[trigger] utf8_len(t.take(k)) == k by {
        lemma_ascii_prefix_len(t, k);
    }
    crate::text::lemma_char_index_of_byte_unique(t, 3, 3);
    crate::text::lemma_char_index_of_byte_unique(t, 5, 5);
    assert(t.take(7) =~= t);
    assert(t.subrange(1, 3) =~= hex_byte(color@[0]));
    assert(t.subrange(3, 5) =~= hex_byte(color@[1]));
    assert(t.subrange(5, 7) =~= hex_byte(color@[2]));
    assert(utf8_len(t.take(3)) == 3);
    assert(utf8_len(t.take(5)) == 5);
    assert(is_byte_boundary(t, 3));
    assert(is_byte_boundary(t, 5));
}

proof fn lemma_ascii_prefix_len(t: Seq<char>, k: int)
    requires
        0 <= k <= t.len(),
        forall|i: int| 0 <= i < t.len() ==> (#[trigger] t[i] as u32) < 0x80,
    ensures
        utf8_len(t.take(k)) == k,
    decreases k,
{
    if k > 0 {
        assert(t.take(k).drop_last() =~= t.take(k - 1));
        assert((t[k - 1] as u32) < 0x80);
        lemma_ascii_prefix_len(t, k - 1);
    }
}

// ---------------------------------------------------------------------------
// Settings form
// ---------------------------------------------------------------------------

/// The label of each switch of the settings form for the current settings,
/// switch by switch.
pub open spec fn spec_toggle_labels(config: AppConfig, labels: GuiLabels) -> Seq<(Seq<char>, Seq<char>)> {
    seq![
        ("chk-glossary-priority"@, if config.glossary_priority@ == "user"@ { labels.glossary_priority_user@ } else { labels.glossary_priority_official@ }),
        ("chk-llm-log"@, if config.enable_llm_log { labels.label_enable_log@ } else { labels.label_disable_log@ }),
        ("chk-skip-json"@, if config.skip_json { labels.label_skip_json@ } else { labels.label_no_skip_json@ }),
        ("chk-skip-js"@, if config.skip_js { labels.label_skip_js@ } else { labels.label_no_skip_js@ }),
        ("chk-skip-jar"@, if config.skip_jar { labels.label_skip_jar@ } else { labels.label_no_skip_jar@ }),
        ("chk-skip-book"@, if config.skip_book { labels.label_skip_book@ } else { labels.label_no_skip_book@ }),
        ("chk-debug-log"@, if config.enable_debug_log { labels.label_enable_debug_log@ } else { labels.label_disable_debug_log@ }),
        ("chk-debug-tools"@, if config.show_debug_tools { labels.label_hide_debug_tools@ } else { labels.label_show_debug_tools@ }),
        ("chk-fast-convert"@, if config.fast_convert { labels.label_fast_convert_on@ } else { labels.label_fast_convert_off@ }),
    ]
}

/// Pairs of strings as pairs of character sequences.
pub open spec fn label_pairs(v: Seq<(String, String)>) -> Seq<(Seq<char>, Seq<char>)> {
    v.map_values(|p: (String, String)| (p.0@, p.1@))
}

/// The label of each switch of the settings form (see
/// `spec_toggle_labels`), as (element id, label).
pub fn derive_toggle_labels(config: &AppConfig, labels: &GuiLabels) -> (r: Vec<(String, String)>)
    ensures
        label_pairs(r@) == spec_toggle_labels(*config, *labels),
{
    let user_first = chars_eq_str(&chars_of(config.glossary_priority.as_str()), "user");
    let mut out: Vec<(String, String)> = Vec::new();
    let v = if user_first { labels.glossary_priority_user.clone() } else { labels.glossary_priority_official.clone() };
    out.push(("chk-glossary-priority".to_owned(), v));
    let v = if config.enable_llm_log { labels.label_enable_log.clone() } else { labels.label_disable_log.clone() };
    out.push(("chk-llm-log".to_owned(), v));
    let v = if config.skip_json { labels.label_skip_json.clone() } else { labels.label_no_skip_json.clone() };
    out.push(("chk-skip-json".to_owned(), v));
    let v = if config.skip_js { labels.label_skip_js.clone() } else { labels.label_no_skip_js.clone() };
    out.push(("chk-skip-js".to_owned(), v));
    let v = if config.skip_jar { labels.label_skip_jar.clone() } else { labels.label_no_skip_jar.clone() };
    out.push(("chk-skip-jar".to_owned(), v));
    let v = if config.skip_book { labels.label_skip_book.clone() } else { labels.label_no_skip_book.clone() };
    out.push(("chk-skip-book".to_owned(), v));
    let v = if config.enable_debug_log { labels.label_enable_debug_log.clone() } else { labels.label_disable_debug_log.clone() };
    out.push(("chk-debug-log".to_owned(), v));
    let v = if config.show_debug_tools { labels.label_hide_debug_tools.clone() } else { labels.label_show_debug_tools.clone() };
    out.push(("chk-debug-tools".to_owned(), v));
    let v = if config.fast_convert { labels.label_fast_convert_on.clone() } else { labels.label_fast_convert_off.clone() };
    out.push(("chk-fast-convert".to_owned(), v));
    assert(label_pairs(out@) =~= spec_toggle_labels(*config, *labels));
    out
}

/// The text split at each newline.
pub open spec fn split_lines(s: Seq<char>) -> Seq<Seq<char>>
    decreases s.len(),
{
    if s.len() == 0 {
        seq![Seq::empty()]
    } else {
        let rest = split_lines(s.drop_last());
        if s.last() == '\n' {
            rest.push(Seq::empty())
        } else {
            rest.update(rest.len() - 1, rest.last().push(s.last()))
        }
    }
}

/// The trimmed lines of a text that are not blank, in order (what
/// `lines().map(str::trim).filter(|s| !s.is_empty())` yields).
pub open spec fn kept_lines(parts: Seq<Seq<char>>) -> Seq<Seq<char>>
    decreases parts.len(),
{
    if parts.len() == 0 {
        Seq::empty()
    } else if trim(parts.last()).len() > 0 {
        kept_lines(parts.drop_last()).push(trim(parts.last()))
    } else {
        kept_lines(parts.drop_last())
    }
}

proof fn lemma_split_lines_nonempty(s: Seq<char>)
    ensures
        split_lines(s).len() > 0,
    decreases s.len(),
{
    if s.len() > 0 {
        lemma_split_lines_nonempty(s.drop_last());
    }
}

fn excluded_from_text(text: &str) -> (r: Vec<String>)
    ensures
        strs(r@) == kept_lines(split_lines(text@)),
{
    let t = chars_of(text);
    let mut out: Vec<String> = Vec::new();
    let mut cur: Vec<char> = Vec::new();
    let mut i: usize = 0;
    assert(t@.take(0) =~= Seq::<char>::empty());
    while i < t.len()
        invariant
            i <= t.len(),
            t@ == text@,
            split_lines(t@.take(i as int)).len() > 0,
            split_lines(t@.take(i as int)).last() == cur@,
            strs(out@) == kept_lines(split_lines(t@.take(i as int)).drop_last()),
        decreases t.len() - i,
    {
        let ghost pre = split_lines(t@.take(i as int));
        proof {
            assert(t@.take(i + 1).drop_last() =~= t@.take(i as int));
            assert(t@.take(i + 1).last() == t@[i as int]);
        }
        if t[i] == '\n' {
            let tc = trim_chars(&cur);
            if tc.len() > 0 {
                let ghost o = strs(out@);
                out.push(string_of(&tc));
                assert(strs(out@) =~= o.push(tc@));
            }
            cur = Vec::new();
            proof {
                let now = split_lines(t@.take(i + 1));
                assert(now == pre.push(Seq::empty()));
                assert(now.drop_last() =~= pre);
                assert(pre =~= pre.drop_last().push(pre.last()));
            }
        } else {
            cur.push(t[i]);
            proof {
                let now = split_lines(t@.take(i + 1));
                assert(now == pre.update(pre.len() - 1, pre.last().push(t@[i as int])));
                assert(now.drop_last() =~= pre.drop_last());
            }
        }
        i = i + 1;
    }
    assert(t@.take(t.len() as int) =~= t@);
    let ghost all = split_lines(t@);
    let tc = trim_chars(&cur);
    if tc.len() > 0 {
        let ghost o = strs(out@);
        out.push(string_of(&tc));
        assert(strs(out@) =~= o.push(tc@));
    }
    proof {
        assert(all =~= all.drop_last().push(all.last()));
    }
    out
}

/// The settings after the settings form: the texts and switches as typed,
/// the numbers read from the form (each kept as it was when unreadable), the
/// excluded paths one per non-blank line, trimmed; then brought into range
/// as `AppConfig::validate` does. The panel switches stay as they were.
pub fn build_form_config(base: AppConfig, input: ConfigFormInput) -> (r: AppConfig)
    ensures
        r.batch_size == fix_number(spec_parse_u32_or(input.batch_size@, base.batch_size), 150, 1, 500),
        r.batch_max_chars == fix_number(spec_parse_u32_or(input.batch_max_chars@, base.batch_max_chars), 3500, 1, 20000),
        r.timeout == fix_number(spec_parse_u32_or(input.timeout@, base.timeout), 60, 1, 300),
        r.pack_format == fix_number(spec_parse_u32_or(input.pack_format@, base.pack_format), 15, 1, 128),
        r.api_provider@ == fix_text(input.api_provider@, "無"@),
        r.ollama_url@ == fix_text(input.ollama_url@, "http://localhost:11434"@),
        r.source_lang@ == fix_text(input.source_lang@, "en_us"@),
        r.target_lang@ == fix_text(input.target_lang@, "zh_tw"@),
        r.user_prompt@ == fix_text(input.user_prompt@, DEFAULT_PROMPT@),
        r.system_prompt@ == fix_text(input.system_prompt@, DEFAULT_SYSTEM_PROMPT@),
        r.glossary_priority@ == fix_text(input.glossary_priority@, "official"@),
        r.api_key@ == base.api_key@,
        r.model@ == input.model@,
        r.api_base_url@ == input.api_base_url@,
        r.ui_lang@ == input.ui_lang@,
        r.output_dir@ == input.output_dir@,
        r.skip_json == input.skip_json,
        r.skip_js == input.skip_js,
        r.skip_jar == input.skip_jar,
        r.skip_book == input.skip_book,
        r.enable_llm_log == input.enable_llm_log,
        r.enable_debug_log == input.enable_debug_log,
        r.show_debug_tools == input.show_debug_tools,
        r.fast_convert == input.fast_convert,
        r.show_api_settings == base.show_api_settings,
        r.show_developer_mode == base.show_developer_mode,
        strs(r.excluded_paths@) == kept_lines(split_lines(input.excluded_paths_text@)),
{
    let mut c = base;
    let batch_size = parse_u32_or(input.batch_size.as_str(), c.batch_size);
    let batch_max_chars = parse_u32_or(input.batch_max_chars.as_str(), c.batch_max_chars);
    let timeout = parse_u32_or(input.timeout.as_str(), c.timeout);
    let pack_format = parse_u32_or(input.pack_format.as_str(), c.pack_format);
    let excluded = excluded_from_text(input.excluded_paths_text.as_str());
    c.api_provider = input.api_provider;
    c.api_base_url = input.api_base_url;
    c.ollama_url = input.ollama_url;
    c.model = input.model;
    c.source_lang = input.source_lang;
    c.target_lang = input.target_lang;
    c.batch_size = batch_size;
    c.batch_max_chars = batch_max_chars;
    c.timeout = timeout;
    c.output_dir = input.output_dir;
    c.pack_format = pack_format;
    c.user_prompt = input.user_prompt;
    c.system_prompt = input.system_prompt;
    c.glossary_priority = input.glossary_priority;
    c.skip_json = input.skip_json;
    c.skip_js = input.skip_js;
    c.skip_jar = input.skip_jar;
    c.skip_book = input.skip_book;
    c.enable_llm_log = input.enable_llm_log;
    c.enable_debug_log = input.enable_debug_log;
    c.show_debug_tools = input.show_debug_tools;
    c.ui_lang = input.ui_lang;
    c.fast_convert = input.fast_convert;
    c.excluded_paths = excluded;
    c.validate();
    c
}

// ---------------------------------------------------------------------------
// The palette
// ---------------------------------------------------------------------------

/// The colours of the style, each as red, green and blue.
pub struct Palette {
    pub dark_bg: [u8; 3],
    pub light_bg: [u8; 3],
    pub dark_text: [u8; 3],
    pub light_text: [u8; 3],
    pub dark_accent: [u8; 3],
    pub light_accent: [u8; 3],
    pub dark_danger: [u8; 3],
    pub light_danger: [u8; 3],
    pub dark_label: [u8; 3],
    pub light_label: [u8; 3],
    pub dark_text_muted: [u8; 3],
    pub light_text_muted: [u8; 3],
    pub dark_header_bg: [u8; 3],
    pub light_header_bg: [u8; 3],
    pub dark_btn_bg: [u8; 3],
    pub light_btn_bg: [u8; 3],
    pub dark_btn_text: [u8; 3],
    pub light_btn_text: [u8; 3],
    pub dark_input_bg: [u8; 3],
    pub light_input_bg: [u8; 3],
    pub dark_list_bg: [u8; 3],
    pub light_list_bg: [u8; 3],
    pub dark_tab_active: [u8; 3],
    pub light_tab_active: [u8; 3],
    pub dark_tab_inactive: [u8; 3],
    pub light_tab_inactive: [u8; 3],
    pub dark_border_color: [u8; 3],
    pub light_border_color: [u8; 3],
    pub dark_hover_bg: [u8; 3],
    pub light_hover_bg: [u8; 3],
    pub dark_slider_bg: [u8; 3],
    pub light_slider_bg: [u8; 3],
    pub dark_slider_thumb: [u8; 3],
    pub light_slider_thumb: [u8; 3],
    pub dark_switch_bg: [u8; 3],
    pub light_switch_bg: [u8; 3],
    pub dark_progress_bg: [u8; 3],
    pub light_progress_bg: [u8; 3],
    pub dark_log_info: [u8; 3],
    pub light_log_info: [u8; 3],
    pub dark_log_warn: [u8; 3],
    pub light_log_warn: [u8; 3],
    pub dark_log_error: [u8; 3],
    pub light_log_error: [u8; 3],
    pub dark_log_success: [u8; 3],
    pub light_log_success: [u8; 3],
    pub dark_log_dir: [u8; 3],
    pub light_log_dir: [u8; 3],
    pub dark_log_file: [u8; 3],
    pub light_log_file: [u8; 3],
    pub aurora_1: [u8; 3],
    pub aurora_2: [u8; 3],
    pub aurora_3: [u8; 3],
    pub neon_color: [u8; 3],
}

/// The colour a palette editor shows for a colour name: for the names of a
/// dark/light pair, the dark one or the light one as the theme is dark or
/// not; for the effect colours, that colour; for other names, none.
pub open spec fn spec_pick_global_color(p: Palette, target: Seq<char>, is_dark: bool) -> Option<[u8; 3]> {
    if target == "dark_bg"@ || target == "light_bg"@ {
        Some(if is_dark { p.dark_bg } else { p.light_bg })
    } else if target == "dark_text"@ || target == "light_text"@ {
        Some(if is_dark { p.dark_text } else { p.light_text })
    } else if target == "dark_accent"@ || target == "light_accent"@ {
        Some(if is_dark { p.dark_accent } else { p.light_accent })
    } else if target == "dark_danger"@ || target == "light_danger"@ {
        Some(if is_dark { p.dark_danger } else { p.light_danger })
    } else if target == "dark_label"@ || target == "light_label"@ {
        Some(if is_dark { p.dark_label } else { p.light_label })
    } else if target == "dark_text_muted"@ || target == "light_text_muted"@ {
        Some(if is_dark { p.dark_text_muted } else { p.light_text_muted })
    } else if target == "dark_header_bg"@ || target == "light_header_bg"@ {
        Some(if is_dark { p.dark_header_bg } else { p.light_header_bg })
    } else if target == "dark_btn_bg"@ || target == "light_btn_bg"@ {
        Some(if is_dark { p.dark_btn_bg } else { p.light_btn_bg })
    } else if target == "dark_btn_text"@ || target == "light_btn_text"@ {
        Some(if is_dark { p.dark_btn_text } else { p.light_btn_text })
    } else if target == "dark_input_bg"@ || target == "light_input_bg"@ {
        Some(if is_dark { p.dark_input_bg } else { p.light_input_bg })
    } else if target == "dark_list_bg"@ || target == "light_list_bg"@ {
        Some(if is_dark { p.dark_list_bg } else { p.light_list_bg })
    } else if target == "dark_tab_active"@ || target == "light_tab_active"@ {
        Some(if is_dark { p.dark_tab_active } else { p.light_tab_active })
    } else if target == "dark_tab_inactive"@ || target == "light_tab_inactive"@ {
        Some(if is_dark { p.dark_tab_inactive } else { p.light_tab_inactive })
    } else if target == "dark_border_color"@ || target == "light_border_color"@ {
        Some(if is_dark { p.dark_border_color } else { p.light_border_color })
    } else if target == "dark_hover_bg"@ || target == "light_hover_bg"@ {
        Some(if is_dark { p.dark_hover_bg } else { p.light_hover_bg })
    } else if target == "dark_slider_bg"@ || target == "light_slider_bg"@ {
        Some(if is_dark { p.dark_slider_bg } else { p.light_slider_bg })
    } else if target == "dark_slider_thumb"@ || target == "light_slider_thumb"@ {
        Some(if is_dark { p.dark_slider_thumb } else { p.light_slider_thumb })
    } else if target == "dark_switch_bg"@ || target == "light_switch_bg"@ {
        Some(if is_dark { p.dark_switch_bg } else { p.light_switch_bg })
    } else if target == "dark_progress_bg"@ || target == "light_progress_bg"@ {
        Some(if is_dark { p.dark_progress_bg } else { p.light_progress_bg })
    } else if target == "dark_log_info"@ || target == "light_log_info"@ {
        Some(if is_dark { p.dark_log_info } else { p.light_log_info })
    } else if target == "dark_log_warn"@ || target == "light_log_warn"@ {
        Some(if is_dark { p.dark_log_warn } else { p.light_log_warn })
    } else if target == "dark_log_error"@ || target == "light_log_error"@ {
        Some(if is_dark { p.dark_log_error } else { p.light_log_error })
    } else if target == "dark_log_success"@ || target == "light_log_success"@ {
        Some(if is_dark { p.dark_log_success } else { p.light_log_success })
    } else if target == "dark_log_dir"@ || target == "light_log_dir"@ {
        Some(if is_dark { p.dark_log_dir } else { p.light_log_dir })
    } else if target == "dark_log_file"@ || target == "light_log_file"@ {
        Some(if is_dark { p.dark_log_file } else { p.light_log_file })
    } else if target == "aurora_1"@ {
        Some(p.aurora_1)
    } else if target == "aurora_2"@ {
        Some(p.aurora_2)
    } else if target == "aurora_3"@ {
        Some(p.aurora_3)
    } else if target == "neon_color"@ {
        Some(p.neon_color)
    } else {
        None
    }
}

/// Which names have a colour depends on the name alone: a name has one in the
/// dark theme exactly when it has one in the light theme, whatever the
/// palette's colours.
pub proof fn law_pick_theme_independent(p: Palette, q: Palette, target: Seq<char>)
    ensures
        spec_pick_global_color(p, target, true) is Some <==> spec_pick_global_color(p, target, false) is Some,
        spec_pick_global_color(p, target, true) is Some <==> spec_pick_global_color(q, target, true) is Some,
{
}

/// The colour a palette editor shows for a colour name (see
/// `spec_pick_global_color`).
pub fn pick_global_color(p: &Palette, target: &str, is_dark: bool) -> (r: Option<[u8; 3]>)
    ensures
        r == spec_pick_global_color(*p, target@, is_dark),
{
    let t = chars_of(target);
    if chars_eq_str(&t, "dark_bg") || chars_eq_str(&t, "light_bg") {
        Some(if is_dark { p.dark_bg } else { p.light_bg })
    } else if chars_eq_str(&t, "dark_text") || chars_eq_str(&t, "light_text") {
        Some(if is_dark { p.dark_text } else { p.light_text })
    } else if chars_eq_str(&t, "dark_accent") || chars_eq_str(&t, "light_accent") {
        Some(if is_dark { p.dark_accent } else { p.light_accent })
    } else if chars_eq_str(&t, "dark_danger") || chars_eq_str(&t, "light_danger") {
        Some(if is_dark { p.dark_danger } else { p.light_danger })
    } else if chars_eq_str(&t, "dark_label") || chars_eq_str(&t, "light_label") {
        Some(if is_dark { p.dark_label } else { p.light_label })
    } else if chars_eq_str(&t, "dark_text_muted") || chars_eq_str(&t, "light_text_muted") {
        Some(if is_dark { p.dark_text_muted } else { p.light_text_muted })
    } else if chars_eq_str(&t, "dark_header_bg") || chars_eq_str(&t, "light_header_bg") {
        Some(if is_dark { p.dark_header_bg } else { p.light_header_bg })
    } else if chars_eq_str(&t, "dark_btn_bg") || chars_eq_str(&t, "light_btn_bg") {
        Some(if is_dark { p.dark_btn_bg } else { p.light_btn_bg })
    } else if chars_eq_str(&t, "dark_btn_text") || chars_eq_str(&t, "light_btn_text") {
        Some(if is_dark { p.dark_btn_text } else { p.light_btn_text })
    } else if chars_eq_str(&t, "dark_input_bg") || chars_eq_str(&t, "light_input_bg") {
        Some(if is_dark { p.dark_input_bg } else { p.light_input_bg })
    } else if chars_eq_str(&t, "dark_list_bg") || chars_eq_str(&t, "light_list_bg") {
        Some(if is_dark { p.dark_list_bg } else { p.light_list_bg })
    } else if chars_eq_str(&t, "dark_tab_active") || chars_eq_str(&t, "light_tab_active") {
        Some(if is_dark { p.dark_tab_active } else { p.light_tab_active })
    } else if chars_eq_str(&t, "dark_tab_inactive") || chars_eq_str(&t, "light_tab_inactive") {
        Some(if is_dark { p.dark_tab_inactive } else { p.light_tab_inactive })
    } else if chars_eq_str(&t, "dark_border_color") || chars_eq_str(&t, "light_border_color") {
        Some(if is_dark { p.dark_border_color } else { p.light_border_color })
    } else if chars_eq_str(&t, "dark_hover_bg") || chars_eq_str(&t, "light_hover_bg") {
        Some(if is_dark { p.dark_hover_bg } else { p.light_hover_bg })
    } else if chars_eq_str(&t, "dark_slider_bg") || chars_eq_str(&t, "light_slider_bg") {
        Some(if is_dark { p.dark_slider_bg } else { p.light_slider_bg })
    } else if chars_eq_str(&t, "dark_slider_thumb") || chars_eq_str(&t, "light_slider_thumb") {
        Some(if is_dark { p.dark_slider_thumb } else { p.light_slider_thumb })
    } else if chars_eq_str(&t, "dark_switch_bg") || chars_eq_str(&t, "light_switch_bg") {
        Some(if is_dark { p.dark_switch_bg } else { p.light_switch_bg })
    } else if chars_eq_str(&t, "dark_progress_bg") || chars_eq_str(&t, "light_progress_bg") {
        Some(if is_dark { p.dark_progress_bg } else { p.light_progress_bg })
    } else if chars_eq_str(&t, "dark_log_info") || chars_eq_str(&t, "light_log_info") {
        Some(if is_dark { p.dark_log_info } else { p.light_log_info })
    } else if chars_eq_str(&t, "dark_log_warn") || chars_eq_str(&t, "light_log_warn") {
        Some(if is_dark { p.dark_log_warn } else { p.light_log_warn })
    } else if chars_eq_str(&t, "dark_log_error") || chars_eq_str(&t, "light_log_error") {
        Some(if is_dark { p.dark_log_error } else { p.light_log_error })
    } else if chars_eq_str(&t, "dark_log_success") || chars_eq_str(&t, "light_log_success") {
        Some(if is_dark { p.dark_log_success } else { p.light_log_success })
    } else if chars_eq_str(&t, "dark_log_dir") || chars_eq_str(&t, "light_log_dir") {
        Some(if is_dark { p.dark_log_dir } else { p.light_log_dir })
    } else if chars_eq_str(&t, "dark_log_file") || chars_eq_str(&t, "light_log_file") {
        Some(if is_dark { p.dark_log_file } else { p.light_log_file })
    } else if chars_eq_str(&t, "aurora_1") {
        Some(p.aurora_1)
    } else if chars_eq_str(&t, "aurora_2") {
        Some(p.aurora_2)
    } else if chars_eq_str(&t, "aurora_3") {
        Some(p.aurora_3)
    } else if chars_eq_str(&t, "neon_color") {
        Some(p.neon_color)
    } else {
        None
    }
}

/// The palette with the named colour set, or none for an unknown name.
pub open spec fn spec_set_global_color(p: Palette, target: Seq<char>, rgb: [u8; 3]) -> Option<Palette> {
    if target == "dark_bg"@ {
        Some(Palette { dark_bg: rgb, ..p })
    } else if target == "light_bg"@ {
        Some(Palette { light_bg: rgb, ..p })
    } else if target == "dark_text"@ {
        Some(Palette { dark_text: rgb, ..p })
    } else if target == "light_text"@ {
        Some(Palette { light_text: rgb, ..p })
    } else if target == "dark_accent"@ {
        Some(Palette { dark_accent: rgb, ..p })
    } else if target == "light_accent"@ {
        Some(Palette { light_accent: rgb, ..p })
    } else if target == "dark_danger"@ {
        Some(Palette { dark_danger: rgb, ..p })
    } else if target == "light_danger"@ {
        Some(Palette { light_danger: rgb, ..p })
    } else if target == "dark_label"@ {
        Some(Palette { dark_label: rgb, ..p })
    } else if target == "light_label"@ {
        Some(Palette { light_label: rgb, ..p })
    } else if target == "dark_text_muted"@ {
        Some(Palette { dark_text_muted: rgb, ..p })
    } else if target == "light_text_muted"@ {
        Some(Palette { light_text_muted: rgb, ..p })
    } else if target == "dark_header_bg"@ {
        Some(Palette { dark_header_bg: rgb, ..p })
    } else if target == "light_header_bg"@ {
        Some(Palette { light_header_bg: rgb, ..p })
    } else if target == "dark_btn_bg"@ {
        Some(Palette { dark_btn_bg: rgb, ..p })
    } else if target == "light_btn_bg"@ {
        Some(Palette { light_btn_bg: rgb, ..p })
    } else if target == "dark_btn_text"@ {
        Some(Palette { dark_btn_text: rgb, ..p })
    } else if target == "light_btn_text"@ {
        Some(Palette { light_btn_text: rgb, ..p })
    } else if target == "dark_input_bg"@ {
        Some(Palette { dark_input_bg: rgb, ..p })
    } else if target == "light_input_bg"@ {
        Some(Palette { light_input_bg: rgb, ..p })
    } else if target == "dark_list_bg"@ {
        Some(Palette { dark_list_bg: rgb, ..p })
    } else if target == "light_list_bg"@ {
        Some(Palette { light_list_bg: rgb, ..p })
    } else if target == "dark_tab_active"@ {
        Some(Palette { dark_tab_active: rgb, ..p })
    } else if target == "light_tab_active"@ {
        Some(Palette { light_tab_active: rgb, ..p })
    } else if target == "dark_tab_inactive"@ {
        Some(Palette { dark_tab_inactive: rgb, ..p })
    } else if target == "light_tab_inactive"@ {
        Some(Palette { light_tab_inactive: rgb, ..p })
    } else if target == "dark_border_color"@ {
        Some(Palette { dark_border_color: rgb, ..p })
    } else if target == "light_border_color"@ {
        Some(Palette { light_border_color: rgb, ..p })
    } else if target == "dark_hover_bg"@ {
        Some(Palette { dark_hover_bg: rgb, ..p })
    } else if target == "light_hover_bg"@ {
        Some(Palette { light_hover_bg: rgb, ..p })
    } else if target == "dark_slider_bg"@ {
        Some(Palette { dark_slider_bg: rgb, ..p })
    } else if target == "light_slider_bg"@ {
        Some(Palette { light_slider_bg: rgb, ..p })
    } else if target == "dark_slider_thumb"@ {
        Some(Palette { dark_slider_thumb: rgb, ..p })
    } else if target == "light_slider_thumb"@ {
        Some(Palette { light_slider_thumb: rgb, ..p })
    } else if target == "dark_switch_bg"@ {
        Some(Palette { dark_switch_bg: rgb, ..p })
    } else if target == "light_switch_bg"@ {
        Some(Palette { light_switch_bg: rgb, ..p })
    } else if target == "dark_progress_bg"@ {
        Some(Palette { dark_progress_bg: rgb, ..p })
    } else if target == "light_progress_bg"@ {
        Some(Palette { light_progress_bg: rgb, ..p })
    } else if target == "dark_log_info"@ {
        Some(Palette { dark_log_info: rgb, ..p })
    } else if target == "light_log_info"@ {
        Some(Palette { light_log_info: rgb, ..p })
    } else if target == "dark_log_warn"@ {
        Some(Palette { dark_log_warn: rgb, ..p })
    } else if target == "light_log_warn"@ {
        Some(Palette { light_log_warn: rgb, ..p })
    } else if target == "dark_log_error"@ {
        Some(Palette { dark_log_error: rgb, ..p })
    } else if target == "light_log_error"@ {
        Some(Palette { light_log_error: rgb, ..p })
    } else if target == "dark_log_success"@ {
        Some(Palette { dark_log_success: rgb, ..p })
    } else if target == "light_log_success"@ {
        Some(Palette { light_log_success: rgb, ..p })
    } else if target == "dark_log_dir"@ {
        Some(Palette { dark_log_dir: rgb, ..p })
    } else if target == "light_log_dir"@ {
        Some(Palette { light_log_dir: rgb, ..p })
    } else if target == "dark_log_file"@ {
        Some(Palette { dark_log_file: rgb, ..p })
    } else if target == "light_log_file"@ {
        Some(Palette { light_log_file: rgb, ..p })
    } else if target == "aurora_1"@ {
        Some(Palette { aurora_1: rgb, ..p })
    } else if target == "aurora_2"@ {
        Some(Palette { aurora_2: rgb, ..p })
    } else if target == "aurora_3"@ {
        Some(Palette { aurora_3: rgb, ..p })
    } else if target == "neon_color"@ {
        Some(Palette { neon_color: rgb, ..p })
    } else {
        None
    }
}

/// Sets the named colour of the palette; returns whether the name was
/// known (an unknown name leaves the palette as it was).
pub fn set_global_color(p: &mut Palette, target: &str, rgb: [u8; 3]) -> (r: bool)
    ensures
        r == spec_set_global_color(*old(p), target@, rgb) is Some,
        r ==> *final(p) == spec_set_global_color(*old(p), target@, rgb)->0,
        !r ==> *final(p) == *old(p),
{
    let t = chars_of(target);
    if chars_eq_str(&t, "dark_bg") {
        p.dark_bg = rgb;
    } else if chars_eq_str(&t, "light_bg") {
        p.light_bg = rgb;
    } else if chars_eq_str(&t, "dark_text") {
        p.dark_text = rgb;
    } else if chars_eq_str(&t, "light_text") {
        p.light_text = rgb;
    } else if chars_eq_str(&t, "dark_accent") {
        p.dark_accent = rgb;
    } else if chars_eq_str(&t, "light_accent") {
        p.light_accent = rgb;
    } else if chars_eq_str(&t, "dark_danger") {
        p.dark_danger = rgb;
    } else if chars_eq_str(&t, "light_danger") {
        p.light_danger = rgb;
    } else if chars_eq_str(&t, "dark_label") {
        p.dark_label = rgb;
    } else if chars_eq_str(&t, "light_label") {
        p.light_label = rgb;
    } else if chars_eq_str(&t, "dark_text_muted") {
        p.dark_text_muted = rgb;
    } else if chars_eq_str(&t, "light_text_muted") {
        p.light_text_muted = rgb;
    } else if chars_eq_str(&t, "dark_header_bg") {
        p.dark_header_bg = rgb;
    } else if chars_eq_str(&t, "light_header_bg") {
        p.light_header_bg = rgb;
    } else if chars_eq_str(&t, "dark_btn_bg") {
        p.dark_btn_bg = rgb;
    } else if chars_eq_str(&t, "light_btn_bg") {
        p.light_btn_bg = rgb;
    } else if chars_eq_str(&t, "dark_btn_text") {
        p.dark_btn_text = rgb;
    } else if chars_eq_str(&t, "light_btn_text") {
        p.light_btn_text = rgb;
    } else if chars_eq_str(&t, "dark_input_bg") {
        p.dark_input_bg = rgb;
    } else if chars_eq_str(&t, "light_input_bg") {
        p.light_input_bg = rgb;
    } else if chars_eq_str(&t, "dark_list_bg") {
        p.dark_list_bg = rgb;
    } else if chars_eq_str(&t, "light_list_bg") {
        p.light_list_bg = rgb;
    } else if chars_eq_str(&t, "dark_tab_active") {
        p.dark_tab_active = rgb;
    } else if chars_eq_str(&t, "light_tab_active") {
        p.light_tab_active = rgb;
    } else if chars_eq_str(&t, "dark_tab_inactive") {
        p.dark_tab_inactive = rgb;
    } else if chars_eq_str(&t, "light_tab_inactive") {
        p.light_tab_inactive = rgb;
    } else if chars_eq_str(&t, "dark_border_color") {
        p.dark_border_color = rgb;
    } else if chars_eq_str(&t, "light_border_color") {
        p.light_border_color = rgb;
    } else if chars_eq_str(&t, "dark_hover_bg") {
        p.dark_hover_bg = rgb;
    } else if chars_eq_str(&t, "light_hover_bg") {
        p.light_hover_bg = rgb;
    } else if chars_eq_str(&t, "dark_slider_bg") {
        p.dark_slider_bg = rgb;
    } else if chars_eq_str(&t, "light_slider_bg") {
        p.light_slider_bg = rgb;
    } else if chars_eq_str(&t, "dark_slider_thumb") {
        p.dark_slider_thumb = rgb;
    } else if chars_eq_str(&t, "light_slider_thumb") {
        p.light_slider_thumb = rgb;
    } else if chars_eq_str(&t, "dark_switch_bg") {
        p.dark_switch_bg = rgb;
    } else if chars_eq_str(&t, "light_switch_bg") {
        p.light_switch_bg = rgb;
    } else if chars_eq_str(&t, "dark_progress_bg") {
        p.dark_progress_bg = rgb;
    } else if chars_eq_str(&t, "light_progress_bg") {
        p.light_progress_bg = rgb;
    } else if chars_eq_str(&t, "dark_log_info") {
        p.dark_log_info = rgb;
    } else if chars_eq_str(&t, "light_log_info") {
        p.light_log_info = rgb;
    } else if chars_eq_str(&t, "dark_log_warn") {
        p.dark_log_warn = rgb;
    } else if chars_eq_str(&t, "light_log_warn") {
        p.light_log_warn = rgb;
    } else if chars_eq_str(&t, "dark_log_error") {
        p.dark_log_error = rgb;
    } else if chars_eq_str(&t, "light_log_error") {
        p.light_log_error = rgb;
    } else if chars_eq_str(&t, "dark_log_success") {
        p.dark_log_success = rgb;
    } else if chars_eq_str(&t, "light_log_success") {
        p.light_log_success = rgb;
    } else if chars_eq_str(&t, "dark_log_dir") {
        p.dark_log_dir = rgb;
    } else if chars_eq_str(&t, "light_log_dir") {
        p.light_log_dir = rgb;
    } else if chars_eq_str(&t, "dark_log_file") {
        p.dark_log_file = rgb;
    } else if chars_eq_str(&t, "light_log_file") {
        p.light_log_file = rgb;
    } else if chars_eq_str(&t, "aurora_1") {
        p.aurora_1 = rgb;
    } else if chars_eq_str(&t, "aurora_2") {
        p.aurora_2 = rgb;
    } else if chars_eq_str(&t, "aurora_3") {
        p.aurora_3 = rgb;
    } else if chars_eq_str(&t, "neon_color") {
        p.neon_color = rgb;
    } else {
        return false;
    }
    true
}

/// Setting a named colour and reading that name back (with the theme that
/// the name belongs to) gives the colour set.
#[verifier::rlimit(100)]
pub proof fn law_palette_set_then_pick(p: Palette, target: Seq<char>, rgb: [u8; 3])
    requires
        spec_set_global_color(p, target, rgb) is Some,
    ensures
        spec_pick_global_color(
            spec_set_global_color(p, target, rgb)->0,
            target,
            seq!['d', 'a', 'r', 'k', '_'].is_prefix_of(target),
        ) == Some(rgb),
{
    reveal_strlit("dark_bg");
    reveal_strlit("light_bg");
    reveal_strlit("dark_text");
    reveal_strlit("light_text");
    reveal_strlit("dark_accent");
    reveal_strlit("light_accent");
    reveal_strlit("dark_danger");
    reveal_strlit("light_danger");
    reveal_strlit("dark_label");
    reveal_strlit("light_label");
    reveal_strlit("dark_text_muted");
    reveal_strlit("light_text_muted");
    reveal_strlit("dark_header_bg");
    reveal_strlit("light_header_bg");
    reveal_strlit("dark_btn_bg");
    reveal_strlit("light_btn_bg");
    reveal_strlit("dark_btn_text");
    reveal_strlit("light_btn_text");
    reveal_strlit("dark_input_bg");
    reveal_strlit("light_input_bg");
    reveal_strlit("dark_list_bg");
    reveal_strlit("light_list_bg");
    reveal_strlit("dark_tab_active");
    reveal_strlit("light_tab_active");
    reveal_strlit("dark_tab_inactive");
    reveal_strlit("light_tab_inactive");
    reveal_strlit("dark_border_color");
    reveal_strlit("light_border_color");
    reveal_strlit("dark_hover_bg");
    reveal_strlit("light_hover_bg");
    reveal_strlit("dark_slider_bg");
    reveal_strlit("light_slider_bg");
    reveal_strlit("dark_slider_thumb");
    reveal_strlit("light_slider_thumb");
    reveal_strlit("dark_switch_bg");
    reveal_strlit("light_switch_bg");
    reveal_strlit("dark_progress_bg");
    reveal_strlit("light_progress_bg");
    reveal_strlit("dark_log_info");
    reveal_strlit("light_log_info");
    reveal_strlit("dark_log_warn");
    reveal_strlit("light_log_warn");
    reveal_strlit("dark_log_error");
    reveal_strlit("light_log_error");
    reveal_strlit("dark_log_success");
    reveal_strlit("light_log_success");
    reveal_strlit("dark_log_dir");
    reveal_strlit("light_log_dir");
    reveal_strlit("dark_log_file");
    reveal_strlit("light_log_file");
    reveal_strlit("aurora_1");
    reveal_strlit("aurora_2");
    reveal_strlit("aurora_3");
    reveal_strlit("neon_color");
}

/// The colour name a palette change applies to: a `dark_`/`light_` name is
/// moved to the current theme (`dark_` when `is_dark`, else `light_`),
/// keeping what follows its first underscore; other names stay.
pub open spec fn spec_themed_color_name(target: Seq<char>, is_dark: bool) -> Seq<char> {
    if "dark_"@.is_prefix_of(target) || "light_"@.is_prefix_of(target) {
        let k = find_from(target, seq!['_'], 0)->0;
        (if is_dark {
            "dark"@
        } else {
            "light"@
        }) + seq!['_'] + target.skip(k + 1)
    } else {
        target
    }
}

/// The colour name a palette change applies to (see
/// `spec_themed_color_name`).
pub fn themed_color_name(target: &str, is_dark: bool) -> (r: String)
    ensures
        r@ == spec_themed_color_name(target@, is_dark),
{
    let t = chars_of(target);
    if starts_with_str(&t, "dark_") || starts_with_str(&t, "light_") {
        let us: Vec<char> = vec!['_'];
        assert(us@ =~= seq!['_']);
        proof {
            reveal_strlit("dark_");
            reveal_strlit("light_");
            if "dark_"@.is_prefix_of(t@) {
                assert(t@[4] == "dark_"@[4]);
                assert(t@.subrange(4, 5) =~= seq!['_']);
                assert(crate::text::occurs_at(seq!['_'], t@, 4));
            } else {
                assert(t@[5] == "light_"@[5]);
                assert(t@.subrange(5, 6) =~= seq!['_']);
                assert(crate::text::occurs_at(seq!['_'], t@, 5));
            }
            lemma_find_from(t@, us@, 0);
        }
        match find_from_exec(&t, &us, 0) {
            Some(k) => {
                proof {
                    assert(crate::text::occurs_at(us@, t@, k as int));
                }
                let mut out = if is_dark {
                    chars_of("dark")
                } else {
                    chars_of("light")
                };
                out.push('_');
                let rest = sub_chars(&t, k + 1, t.len());
                extend_chars(&mut out, &rest);
                assert(rest@ =~= t@.skip(k + 1));
                string_of(&out)
            },
            None => target.to_owned(),
        }
    } else {
        target.to_owned()
    }
}

} // verus!
