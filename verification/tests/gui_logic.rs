use mc_translator::gui::{
    derive_config_ui_state, derive_panel_state, derive_ui_patch, hex, parse_hex_color,
    parse_log_segments, parse_u32_or, rgb, PanelState, UiStatus,
};
use mc_translator::i18n::GuiLabels;

#[test]
fn derive_ui_patch_idle() {
    let labels = GuiLabels::default();
    let patch = derive_ui_patch(UiStatus::Idle, &labels);
    assert_eq!(patch.status, "IDLE");
    assert!(patch.show_translate);
    assert!(!patch.lock_controls);
}

#[test]
fn paused_patch_strips_placeholders_from_notice() {
    let mut labels = GuiLabels::default();
    labels.common.status_trans_paused = "  Paused {} ".to_string();
    let patch = derive_ui_patch(UiStatus::Paused, &labels);
    assert_eq!(patch.status, "PAUSED");
    assert_eq!(patch.pause_notice, "Paused");
    assert!(patch.show_resume && patch.show_stop && !patch.show_pause);
    let running = derive_ui_patch(UiStatus::Running, &labels);
    assert!(running.lock_controls && running.show_pause);
    assert_eq!(running.pause_notice, "");
}

#[test]
fn status_words_read_back() {
    for s in [UiStatus::Idle, UiStatus::Running, UiStatus::Paused] {
        let patch = derive_ui_patch(s, &GuiLabels::default());
        assert_eq!(UiStatus::from_frontend_status(&patch.status), s);
    }
    assert_eq!(UiStatus::from_frontend_status("running"), UiStatus::Idle);
}

#[test]
fn opening_a_panel_closes_the_others() {
    let start = PanelState {
        show_api_settings: true,
        show_developer_mode: false,
        show_palette_settings: false,
    };
    let next = derive_panel_state("toggle_dev", start);
    assert_eq!(
        next,
        PanelState {
            show_api_settings: false,
            show_developer_mode: true,
            show_palette_settings: false,
        }
    );
    let closed = derive_panel_state("toggle_dev", next);
    assert!(!closed.show_developer_mode && !closed.show_api_settings);
    assert_eq!(derive_panel_state("unknown", next), next);
}

#[test]
fn config_form_needs_key_and_model() {
    let s = derive_config_ui_state("Gemini", "gemini-pro", "  ", "en_us", "zh_tw");
    assert!(!s.can_translate);
    assert!(s.show_api_key);
    assert!(s.show_fast_convert);
    let s = derive_config_ui_state("Ollama", "", "", "zh_tw", "zh_tw");
    assert!(s.can_translate);
    assert!(s.show_ollama_url);
    assert!(!s.show_fast_convert);
    let s = derive_config_ui_state("OpenAI", " ", "key", "en_us", "ja_jp");
    assert!(!s.can_translate);
}

#[test]
fn log_segments_split_tags() {
    let segs = parse_log_segments("Done <dir>a/b/</dir> x <file>c.json</file><oops");
    let got: Vec<(String, String)> = segs.into_iter().map(|s| (s.kind, s.text)).collect();
    let want: Vec<(String, String)> = vec![
        ("text", "Done "),
        ("dir", "a/b/"),
        ("text", " x "),
        ("file", "c.json"),
        ("text", "<"),
        ("text", "oops"),
    ]
    .into_iter()
    .map(|(a, b)| (a.to_string(), b.to_string()))
    .collect();
    assert_eq!(got, want);
    let empty = parse_log_segments("");
    assert_eq!(empty.len(), 1);
    assert_eq!(empty[0].kind, "text");
    assert_eq!(empty[0].text, "");
}

#[test]
fn colours_print_and_read_back() {
    assert_eq!(rgb([12, 0, 255]), "rgb(12,0,255)");
    assert_eq!(hex([17, 34, 51]), "#112233");
    assert_eq!(hex([255, 0, 171]), "#ff00ab");
    assert_eq!(parse_hex_color("  #112233 "), Some([17, 34, 51]));
    assert_eq!(parse_hex_color(&hex([1, 200, 99])), Some([1, 200, 99]));
    assert_eq!(parse_hex_color("#11223"), None);
    assert_eq!(parse_hex_color("112233#"), None);
    assert_eq!(parse_hex_color("#GG2233"), None);
    assert_eq!(parse_hex_color("#+12233"), Some([1, 34, 51]));
}

#[test]
fn numbers_fall_back_when_unreadable() {
    assert_eq!(parse_u32_or(" 42 ", 7), 42);
    assert_eq!(parse_u32_or("+5", 7), 5);
    assert_eq!(parse_u32_or("-5", 7), 7);
    assert_eq!(parse_u32_or("4294967296", 7), 7);
    assert_eq!(parse_u32_or("", 7), 7);
}

use mc_translator::config::settings::AppConfig;
use mc_translator::gui::{
    build_form_config, derive_toggle_labels, pick_global_color, set_global_color,
    themed_color_name, ConfigFormInput, Palette,
};

fn palette() -> Palette {
    Palette {
        dark_bg: [30, 30, 35], light_bg: [252, 252, 253],
        dark_text: [200, 160, 100], light_text: [30, 30, 35],
        dark_accent: [212, 175, 55], light_accent: [0, 120, 212],
        dark_danger: [170, 17, 17], light_danger: [170, 17, 17],
        dark_label: [200, 160, 100], light_label: [30, 30, 35],
        dark_text_muted: [170, 170, 170], light_text_muted: [102, 102, 102],
        dark_header_bg: [37, 37, 43], light_header_bg: [235, 235, 240],
        dark_btn_bg: [45, 45, 50], light_btn_bg: [240, 240, 245],
        dark_btn_text: [220, 220, 220], light_btn_text: [45, 45, 50],
        dark_input_bg: [20, 20, 25], light_input_bg: [255, 255, 255],
        dark_list_bg: [25, 25, 30], light_list_bg: [250, 250, 252],
        dark_tab_active: [60, 60, 70], light_tab_active: [230, 235, 245],
        dark_tab_inactive: [35, 35, 40], light_tab_inactive: [245, 245, 250],
        dark_border_color: [60, 60, 66], light_border_color: [210, 210, 220],
        dark_hover_bg: [56, 56, 64], light_hover_bg: [225, 235, 250],
        dark_slider_bg: [42, 42, 48], light_slider_bg: [220, 220, 210],
        dark_slider_thumb: [224, 224, 224], light_slider_thumb: [80, 80, 80],
        dark_switch_bg: [26, 26, 31], light_switch_bg: [230, 230, 220],
        dark_progress_bg: [51, 51, 51], light_progress_bg: [235, 235, 240],
        dark_log_info: [200, 200, 200], light_log_info: [30, 30, 35],
        dark_log_warn: [217, 119, 6], light_log_warn: [180, 100, 0],
        dark_log_error: [255, 85, 85], light_log_error: [170, 17, 17],
        dark_log_success: [60, 180, 120], light_log_success: [5, 150, 105],
        dark_log_dir: [212, 175, 55], light_log_dir: [150, 110, 0],
        dark_log_file: [85, 255, 255], light_log_file: [0, 120, 212],
        aurora_1: [255, 0, 127], aurora_2: [127, 0, 255], aurora_3: [0, 255, 255],
        neon_color: [0, 255, 204],
    }
}

#[test]
fn palette_picks_by_theme() {
    let p = palette();
    assert_eq!(pick_global_color(&p, "light_bg", true), Some([30, 30, 35]));
    assert_eq!(pick_global_color(&p, "dark_bg", false), Some([252, 252, 253]));
    assert_eq!(pick_global_color(&p, "aurora_2", false), Some([127, 0, 255]));
    assert_eq!(pick_global_color(&p, "font_size", true), None);
}

#[test]
fn palette_set_then_pick() {
    let mut p = palette();
    assert!(set_global_color(&mut p, "light_log_dir", [1, 2, 3]));
    assert_eq!(pick_global_color(&p, "light_log_dir", false), Some([1, 2, 3]));
    assert_eq!(p.dark_log_dir, [212, 175, 55]);
    let before = p.dark_bg;
    assert!(!set_global_color(&mut p, "nope", [9, 9, 9]));
    assert_eq!(p.dark_bg, before);
}

#[test]
fn palette_names_follow_theme() {
    assert_eq!(themed_color_name("dark_btn_bg", false), "light_btn_bg");
    assert_eq!(themed_color_name("light_bg", true), "dark_bg");
    assert_eq!(themed_color_name("aurora_1", true), "aurora_1");
}

#[test]
fn toggle_labels_follow_settings() {
    let mut labels = GuiLabels::default();
    labels.glossary_priority_user = "U".into();
    labels.glossary_priority_official = "O".into();
    labels.label_skip_json = "skip".into();
    labels.label_no_skip_json = "keep".into();
    let mut config = AppConfig::default();
    config.glossary_priority = "user".into();
    config.skip_json = false;
    let got = derive_toggle_labels(&config, &labels);
    assert_eq!(got.len(), 9);
    assert_eq!(got[0], ("chk-glossary-priority".to_string(), "U".to_string()));
    assert_eq!(got[2], ("chk-skip-json".to_string(), "keep".to_string()));
}

#[test]
fn form_config_reads_numbers_and_paths() {
    let base = AppConfig::default();
    let input = ConfigFormInput {
        api_provider: "".into(),
        api_base_url: "u".into(),
        ollama_url: "o".into(),
        model: "m".into(),
        source_lang: "en_us".into(),
        target_lang: "ja_jp".into(),
        batch_size: " 20 ".into(),
        batch_max_chars: "lots".into(),
        timeout: "0".into(),
        output_dir: "out".into(),
        pack_format: "999".into(),
        user_prompt: "p".into(),
        system_prompt: "s".into(),
        glossary_priority: "user".into(),
        skip_json: true,
        skip_js: false,
        skip_jar: true,
        skip_book: false,
        enable_llm_log: true,
        enable_debug_log: false,
        show_debug_tools: true,
        ui_lang: "en_us".into(),
        path: "x".into(),
        fast_convert: true,
        excluded_paths_text: " a/ \r\n\n  \nb/\n".into(),
    };
    let c = build_form_config(base, input);
    assert_eq!(c.api_provider, "無");
    assert_eq!(c.batch_size, 20);
    assert_eq!(c.batch_max_chars, 3500);
    assert_eq!(c.timeout, 60);
    assert_eq!(c.pack_format, 128);
    assert_eq!(c.excluded_paths, vec!["a/".to_string(), "b/".to_string()]);
    assert!(c.skip_json && c.fast_convert && c.show_debug_tools);
}
