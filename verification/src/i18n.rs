//! Interface labels: the texts that the GUI, the CLI and the translation
//! pipeline show to the user, in the language the user picked.
use vstd::prelude::*;
use crate::json::{field_of, last_field, overlaid, overlay_fields, parse_json, spec_parse_json, JsonValue};

verus! {

/// Labels shared by the GUI and the CLI.
pub struct CommonLabels {
    pub app_title: String,
    pub label_output_path: String,
    pub btn_pause: String,
    pub btn_stop: String,
    pub label_model: String,
    pub label_api_key: String,
    pub prompt_select_model: String,
    pub log_pause_requested: String,
    pub log_stopped: String,
    pub btn_save: String,
    pub status_analyzing_dict: String,
    pub status_analyzing_files: String,
    pub status_finished: String,
    pub log_resuming: String,
    pub log_batch_error: String,
    pub log_loop_detected: String,
    pub status_processing_item: String,
    pub status_processing_batch: String,
    pub status_translating_item: String,
    pub log_batch_failed_retry: String,
    pub log_retry_start: String,
    pub log_single_failed: String,
    pub log_single_retry_start: String,
    pub log_single_final_failed: String,
    pub status_translating: String,
    pub status_translating_batch: String,
    pub log_batch_invalid: String,
    pub status_idle: String,
    pub status_scanning_files: String,
    pub log_processing_finished: String,
    pub log_processing_file_mask: String,
    pub log_generating_pack: String,
    pub log_pack_item_exists_warn: String,
    pub log_pack_gen_finished: String,
    pub default_user_prompt: String,
    pub default_system_prompt: String,
    pub placeholder_input_path: String,
    pub placeholder_api_key: String,
    pub placeholder_search_terms: String,
    pub placeholder_dict_key: String,
    pub placeholder_dict_value: String,
    pub status_load_config_failed: String,
    pub status_save_config_failed: String,
    pub status_browse_path_failed: String,
    pub status_input_path_empty: String,
    pub status_trans_starting: String,
    pub status_trans_error: String,
    pub status_trans_paused: String,
    pub status_trans_resumed: String,
    pub status_trans_stopping: String,
    pub status_dict_item_updated: String,
    pub status_dict_item_delete_confirm: String,
    pub status_dict_load_failed: String,
    pub status_dict_key_empty: String,
    pub status_dict_add_success: String,
    pub status_dict_add_failed: String,
    pub status_dict_replace_empty: String,
    pub status_dict_replace_confirm: String,
    pub status_dict_replace_sent: String,
    pub status_dict_replace_failed: String,
    pub status_dict_clear_success: String,
    pub status_dict_import_success: String,
    pub status_dict_export_success: String,
    pub status_palette_clear_item: String,
    pub err_ollama_connect: String,
    pub err_api_key_empty: String,
    pub err_gemini_models: String,
    pub err_openai_models: String,
    pub err_deepseek_models: String,
    pub err_unsupported_provider: String,
    pub err_no_active_job: String,
    pub lang_zh_tw: String,
    pub lang_zh_cn: String,
    pub lang_ja_jp: String,
    pub lang_en_us: String,
    pub cat_all_bg: String,
    pub cat_all_buttons: String,
    pub cat_all_inputs: String,
    pub cat_all_labels: String,
    pub cat_all_logs: String,
    pub cat_all_btn_text: String,
    pub cat_all_tab_active: String,
    pub cat_all_tab_inactive: String,
    pub status_failed_or_cancelled: String,
    pub status_trans_failed_mask: String,
    pub status_batch_mask: String,
    pub status_progress_detailed_mask: String,
    pub cleanup_prefixes: Vec<String>,
    pub cleanup_contains: Vec<String>,
    pub error_read_jar_index: String,
    pub error_read_jar_file: String,
    pub error_pipeline_failed: String,
}

impl CommonLabels {
    /// Every label is empty.
    pub open spec fn is_blank(&self) -> bool {
        &&& self.app_title@.len() == 0
        &&& self.label_output_path@.len() == 0
        &&& self.btn_pause@.len() == 0
        &&& self.btn_stop@.len() == 0
        &&& self.label_model@.len() == 0
        &&& self.label_api_key@.len() == 0
        &&& self.prompt_select_model@.len() == 0
        &&& self.log_pause_requested@.len() == 0
        &&& self.log_stopped@.len() == 0
        &&& self.btn_save@.len() == 0
        &&& self.status_analyzing_dict@.len() == 0
        &&& self.status_analyzing_files@.len() == 0
        &&& self.status_finished@.len() == 0
        &&& self.log_resuming@.len() == 0
        &&& self.log_batch_error@.len() == 0
        &&& self.log_loop_detected@.len() == 0
        &&& self.status_processing_item@.len() == 0
        &&& self.status_processing_batch@.len() == 0
        &&& self.status_translating_item@.len() == 0
        &&& self.log_batch_failed_retry@.len() == 0
        &&& self.log_retry_start@.len() == 0
        &&& self.log_single_failed@.len() == 0
        &&& self.log_single_retry_start@.len() == 0
        &&& self.log_single_final_failed@.len() == 0
        &&& self.status_translating@.len() == 0
        &&& self.status_translating_batch@.len() == 0
        &&& self.log_batch_invalid@.len() == 0
        &&& self.status_idle@.len() == 0
        &&& self.status_scanning_files@.len() == 0
        &&& self.log_processing_finished@.len() == 0
        &&& self.log_processing_file_mask@.len() == 0
        &&& self.log_generating_pack@.len() == 0
        &&& self.log_pack_item_exists_warn@.len() == 0
        &&& self.log_pack_gen_finished@.len() == 0
        &&& self.default_user_prompt@.len() == 0
        &&& self.default_system_prompt@.len() == 0
        &&& self.placeholder_input_path@.len() == 0
        &&& self.placeholder_api_key@.len() == 0
        &&& self.placeholder_search_terms@.len() == 0
        &&& self.placeholder_dict_key@.len() == 0
        &&& self.placeholder_dict_value@.len() == 0
        &&& self.status_load_config_failed@.len() == 0
        &&& self.status_save_config_failed@.len() == 0
        &&& self.status_browse_path_failed@.len() == 0
        &&& self.status_input_path_empty@.len() == 0
        &&& self.status_trans_starting@.len() == 0
        &&& self.status_trans_error@.len() == 0
        &&& self.status_trans_paused@.len() == 0
        &&& self.status_trans_resumed@.len() == 0
        &&& self.status_trans_stopping@.len() == 0
        &&& self.status_dict_item_updated@.len() == 0
        &&& self.status_dict_item_delete_confirm@.len() == 0
        &&& self.status_dict_load_failed@.len() == 0
        &&& self.status_dict_key_empty@.len() == 0
        &&& self.status_dict_add_success@.len() == 0
        &&& self.status_dict_add_failed@.len() == 0
        &&& self.status_dict_replace_empty@.len() == 0
        &&& self.status_dict_replace_confirm@.len() == 0
        &&& self.status_dict_replace_sent@.len() == 0
        &&& self.status_dict_replace_failed@.len() == 0
        &&& self.status_dict_clear_success@.len() == 0
        &&& self.status_dict_import_success@.len() == 0
        &&& self.status_dict_export_success@.len() == 0
        &&& self.status_palette_clear_item@.len() == 0
        &&& self.err_ollama_connect@.len() == 0
        &&& self.err_api_key_empty@.len() == 0
        &&& self.err_gemini_models@.len() == 0
        &&& self.err_openai_models@.len() == 0
        &&& self.err_deepseek_models@.len() == 0
        &&& self.err_unsupported_provider@.len() == 0
        &&& self.err_no_active_job@.len() == 0
        &&& self.lang_zh_tw@.len() == 0
        &&& self.lang_zh_cn@.len() == 0
        &&& self.lang_ja_jp@.len() == 0
        &&& self.lang_en_us@.len() == 0
        &&& self.cat_all_bg@.len() == 0
        &&& self.cat_all_buttons@.len() == 0
        &&& self.cat_all_inputs@.len() == 0
        &&& self.cat_all_labels@.len() == 0
        &&& self.cat_all_logs@.len() == 0
        &&& self.cat_all_btn_text@.len() == 0
        &&& self.cat_all_tab_active@.len() == 0
        &&& self.cat_all_tab_inactive@.len() == 0
        &&& self.status_failed_or_cancelled@.len() == 0
        &&& self.status_trans_failed_mask@.len() == 0
        &&& self.status_batch_mask@.len() == 0
        &&& self.status_progress_detailed_mask@.len() == 0
        &&& self.cleanup_prefixes@.len() == 0
        &&& self.cleanup_contains@.len() == 0
        &&& self.error_read_jar_index@.len() == 0
        &&& self.error_read_jar_file@.len() == 0
        &&& self.error_pipeline_failed@.len() == 0
    }
}

impl Default for CommonLabels {
    fn default() -> (r: Self)
        ensures
            r.is_blank(),
    {
        CommonLabels {
            app_title: String::new(),
            label_output_path: String::new(),
            btn_pause: String::new(),
            btn_stop: String::new(),
            label_model: String::new(),
            label_api_key: String::new(),
            prompt_select_model: String::new(),
            log_pause_requested: String::new(),
            log_stopped: String::new(),
            btn_save: String::new(),
            status_analyzing_dict: String::new(),
            status_analyzing_files: String::new(),
            status_finished: String::new(),
            log_resuming: String::new(),
            log_batch_error: String::new(),
            log_loop_detected: String::new(),
            status_processing_item: String::new(),
            status_processing_batch: String::new(),
            status_translating_item: String::new(),
            log_batch_failed_retry: String::new(),
            log_retry_start: String::new(),
            log_single_failed: String::new(),
            log_single_retry_start: String::new(),
            log_single_final_failed: String::new(),
            status_translating: String::new(),
            status_translating_batch: String::new(),
            log_batch_invalid: String::new(),
            status_idle: String::new(),
            status_scanning_files: String::new(),
            log_processing_finished: String::new(),
            log_processing_file_mask: String::new(),
            log_generating_pack: String::new(),
            log_pack_item_exists_warn: String::new(),
            log_pack_gen_finished: String::new(),
            default_user_prompt: String::new(),
            default_system_prompt: String::new(),
            placeholder_input_path: String::new(),
            placeholder_api_key: String::new(),
            placeholder_search_terms: String::new(),
            placeholder_dict_key: String::new(),
            placeholder_dict_value: String::new(),
            status_load_config_failed: String::new(),
            status_save_config_failed: String::new(),
            status_browse_path_failed: String::new(),
            status_input_path_empty: String::new(),
            status_trans_starting: String::new(),
            status_trans_error: String::new(),
            status_trans_paused: String::new(),
            status_trans_resumed: String::new(),
            status_trans_stopping: String::new(),
            status_dict_item_updated: String::new(),
            status_dict_item_delete_confirm: String::new(),
            status_dict_load_failed: String::new(),
            status_dict_key_empty: String::new(),
            status_dict_add_success: String::new(),
            status_dict_add_failed: String::new(),
            status_dict_replace_empty: String::new(),
            status_dict_replace_confirm: String::new(),
            status_dict_replace_sent: String::new(),
            status_dict_replace_failed: String::new(),
            status_dict_clear_success: String::new(),
            status_dict_import_success: String::new(),
            status_dict_export_success: String::new(),
            status_palette_clear_item: String::new(),
            err_ollama_connect: String::new(),
            err_api_key_empty: String::new(),
            err_gemini_models: String::new(),
            err_openai_models: String::new(),
            err_deepseek_models: String::new(),
            err_unsupported_provider: String::new(),
            err_no_active_job: String::new(),
            lang_zh_tw: String::new(),
            lang_zh_cn: String::new(),
            lang_ja_jp: String::new(),
            lang_en_us: String::new(),
            cat_all_bg: String::new(),
            cat_all_buttons: String::new(),
            cat_all_inputs: String::new(),
            cat_all_labels: String::new(),
            cat_all_logs: String::new(),
            cat_all_btn_text: String::new(),
            cat_all_tab_active: String::new(),
            cat_all_tab_inactive: String::new(),
            status_failed_or_cancelled: String::new(),
            status_trans_failed_mask: String::new(),
            status_batch_mask: String::new(),
            status_progress_detailed_mask: String::new(),
            cleanup_prefixes: Vec::new(),
            cleanup_contains: Vec::new(),
            error_read_jar_index: String::new(),
            error_read_jar_file: String::new(),
            error_pipeline_failed: String::new(),
        }
    }
}

/// Labels of the GUI, on top of the shared ones.
pub struct GuiLabels {
    pub common: CommonLabels,
    pub btn_nav_settings: String,
    pub btn_nav_dict: String,
    pub btn_nav_palette: String,
    pub btn_nav_theme: String,
    pub btn_nav_dev: String,
    pub btn_clear: String,
    pub btn_select_file: String,
    pub btn_select_folder: String,
    pub btn_output_dir: String,
    pub btn_open_output: String,
    pub label_input_path: String,
    pub label_ui_lang: String,
    pub label_fast_convert: String,
    pub label_fast_convert_on: String,
    pub label_fast_convert_off: String,
    pub btn_run: String,
    pub label_current_status: String,
    pub label_log_area: String,
    pub header_api_settings: String,
    pub label_provider: String,
    pub label_loading_models: String,
    pub label_no_models: String,
    pub label_batch_size: String,
    pub label_max_chars: String,
    pub label_timeout: String,
    pub label_font_size: String,
    pub label_pack_format: String,
    pub label_source_lang: String,
    pub label_target_lang: String,
    pub btn_restore_defaults: String,
    pub label_user_prompt: String,
    pub header_palette: String,
    pub label_bg_color: String,
    pub label_text_color: String,
    pub label_custom_rounding: String,
    pub label_rounding_value: String,
    pub label_anim_speed: String,
    pub btn_resume: String,
    pub text_confirm_stop: String,
    pub header_dev_mode: String,
    pub label_skip_json: String,
    pub label_no_skip_json: String,
    pub label_skip_jar: String,
    pub label_no_skip_jar: String,
    pub label_skip_js: String,
    pub label_no_skip_js: String,
    pub label_skip_book: String,
    pub label_no_skip_book: String,
    pub label_enable_log: String,
    pub label_enable_debug_log: String,
    pub label_disable_debug_log: String,
    pub label_disable_log: String,
    pub label_system_prompt: String,
    pub label_ollama_url: String,
    pub group_batch: String,
    pub group_specific: String,
    pub spec_btn_select_file: String,
    pub spec_btn_select_folder: String,
    pub spec_btn_output_dir: String,
    pub spec_btn_open_output: String,
    pub spec_btn_run: String,
    pub spec_btn_pause: String,
    pub spec_btn_stop: String,
    pub spec_area_dict: String,
    pub spec_label_output: String,
    pub spec_progress_current: String,
    pub spec_progress_total: String,
    pub glossary_tab_user: String,
    pub glossary_tab_official: String,
    pub glossary_key: String,
    pub glossary_value: String,
    pub glossary_clear_title: String,
    pub glossary_priority_hover: String,
    pub glossary_priority_user: String,
    pub glossary_priority_official: String,
    pub glossary_col_actions: String,
    pub glossary_empty: String,
    pub header_dict_mgr: String,
    pub label_page_info: String,
    pub label_glossary_priority: String,
    pub label_palette_target_type: String,
    pub label_palette_target_item: String,
    pub label_palette_property: String,
    pub label_palette_color: String,
    pub label_palette_rounding: String,
    pub label_items: String,
    pub label_files: String,
    pub btn_dict_open_json: String,
    pub btn_palette_clear_item: String,
    pub label_progress_style: String,
    pub style_default: String,
    pub style_aurora: String,
    pub style_neon: String,
    pub cat_accent_color: String,
    pub cat_danger_color: String,
    pub cat_border_color: String,
    pub cat_hover_bg: String,
    pub cat_slider_bg: String,
    pub cat_slider_thumb: String,
    pub cat_switch_bg: String,
    pub cat_progress_bg: String,
    pub cat_log_info: String,
    pub cat_log_warn: String,
    pub cat_log_error: String,
    pub cat_log_success: String,
    pub cat_log_dir: String,
    pub cat_log_file: String,
    pub cat_aurora_start: String,
    pub cat_aurora_mid: String,
    pub cat_aurora_end: String,
    pub cat_neon_color: String,
    pub group_layout: String,
    pub label_space_sm: String,
    pub label_space_md: String,
    pub label_space_lg: String,
    pub label_alpha_border: String,
    pub label_alpha_panel: String,
    pub label_alpha_backdrop: String,
    pub palette_label_spacing: String,
    pub palette_label_alpha: String,
    pub palette_label_rounding: String,
    pub status_style_restored: String,
    pub label_excluded_paths: String,
    pub placeholder_excluded_paths: String,
    pub status_config_restored: String,
    pub status_dev_restored: String,
    pub label_show_debug_tools: String,
    pub label_hide_debug_tools: String,
    pub page_title: String,
    pub placeholder_output_path: String,
    pub label_llm_log: String,
}

impl GuiLabels {
    /// Every label is empty.
    pub open spec fn is_blank(&self) -> bool {
        &&& self.common.is_blank()
        &&& self.btn_nav_settings@.len() == 0
        &&& self.btn_nav_dict@.len() == 0
        &&& self.btn_nav_palette@.len() == 0
        &&& self.btn_nav_theme@.len() == 0
        &&& self.btn_nav_dev@.len() == 0
        &&& self.btn_clear@.len() == 0
        &&& self.btn_select_file@.len() == 0
        &&& self.btn_select_folder@.len() == 0
        &&& self.btn_output_dir@.len() == 0
        &&& self.btn_open_output@.len() == 0
        &&& self.label_input_path@.len() == 0
        &&& self.label_ui_lang@.len() == 0
        &&& self.label_fast_convert@.len() == 0
        &&& self.label_fast_convert_on@.len() == 0
        &&& self.label_fast_convert_off@.len() == 0
        &&& self.btn_run@.len() == 0
        &&& self.label_current_status@.len() == 0
        &&& self.label_log_area@.len() == 0
        &&& self.header_api_settings@.len() == 0
        &&& self.label_provider@.len() == 0
        &&& self.label_loading_models@.len() == 0
        &&& self.label_no_models@.len() == 0
        &&& self.label_batch_size@.len() == 0
        &&& self.label_max_chars@.len() == 0
        &&& self.label_timeout@.len() == 0
        &&& self.label_font_size@.len() == 0
        &&& self.label_pack_format@.len() == 0
        &&& self.label_source_lang@.len() == 0
        &&& self.label_target_lang@.len() == 0
        &&& self.btn_restore_defaults@.len() == 0
        &&& self.label_user_prompt@.len() == 0
        &&& self.header_palette@.len() == 0
        &&& self.label_bg_color@.len() == 0
        &&& self.label_text_color@.len() == 0
        &&& self.label_custom_rounding@.len() == 0
        &&& self.label_rounding_value@.len() == 0
        &&& self.label_anim_speed@.len() == 0
        &&& self.btn_resume@.len() == 0
        &&& self.text_confirm_stop@.len() == 0
        &&& self.header_dev_mode@.len() == 0
        &&& self.label_skip_json@.len() == 0
        &&& self.label_no_skip_json@.len() == 0
        &&& self.label_skip_jar@.len() == 0
        &&& self.label_no_skip_jar@.len() == 0
        &&& self.label_skip_js@.len() == 0
        &&& self.label_no_skip_js@.len() == 0
        &&& self.label_skip_book@.len() == 0
        &&& self.label_no_skip_book@.len() == 0
        &&& self.label_enable_log@.len() == 0
        &&& self.label_enable_debug_log@.len() == 0
        &&& self.label_disable_debug_log@.len() == 0
        &&& self.label_disable_log@.len() == 0
        &&& self.label_system_prompt@.len() == 0
        &&& self.label_ollama_url@.len() == 0
        &&& self.group_batch@.len() == 0
        &&& self.group_specific@.len() == 0
        &&& self.spec_btn_select_file@.len() == 0
        &&& self.spec_btn_select_folder@.len() == 0
        &&& self.spec_btn_output_dir@.len() == 0
        &&& self.spec_btn_open_output@.len() == 0
        &&& self.spec_btn_run@.len() == 0
        &&& self.spec_btn_pause@.len() == 0
        &&& self.spec_btn_stop@.len() == 0
        &&& self.spec_area_dict@.len() == 0
        &&& self.spec_label_output@.len() == 0
        &&& self.spec_progress_current@.len() == 0
        &&& self.spec_progress_total@.len() == 0
        &&& self.glossary_tab_user@.len() == 0
        &&& self.glossary_tab_official@.len() == 0
        &&& self.glossary_key@.len() == 0
        &&& self.glossary_value@.len() == 0
        &&& self.glossary_clear_title@.len() == 0
        &&& self.glossary_priority_hover@.len() == 0
        &&& self.glossary_priority_user@.len() == 0
        &&& self.glossary_priority_official@.len() == 0
        &&& self.glossary_col_actions@.len() == 0
        &&& self.glossary_empty@.len() == 0
        &&& self.header_dict_mgr@.len() == 0
        &&& self.label_page_info@.len() == 0
        &&& self.label_glossary_priority@.len() == 0
        &&& self.label_palette_target_type@.len() == 0
        &&& self.label_palette_target_item@.len() == 0
        &&& self.label_palette_property@.len() == 0
        &&& self.label_palette_color@.len() == 0
        &&& self.label_palette_rounding@.len() == 0
        &&& self.label_items@.len() == 0
        &&& self.label_files@.len() == 0
        &&& self.btn_dict_open_json@.len() == 0
        &&& self.btn_palette_clear_item@.len() == 0
        &&& self.label_progress_style@.len() == 0
        &&& self.style_default@.len() == 0
        &&& self.style_aurora@.len() == 0
        &&& self.style_neon@.len() == 0
        &&& self.cat_accent_color@.len() == 0
        &&& self.cat_danger_color@.len() == 0
        &&& self.cat_border_color@.len() == 0
        &&& self.cat_hover_bg@.len() == 0
        &&& self.cat_slider_bg@.len() == 0
        &&& self.cat_slider_thumb@.len() == 0
        &&& self.cat_switch_bg@.len() == 0
        &&& self.cat_progress_bg@.len() == 0
        &&& self.cat_log_info@.len() == 0
        &&& self.cat_log_warn@.len() == 0
        &&& self.cat_log_error@.len() == 0
        &&& self.cat_log_success@.len() == 0
        &&& self.cat_log_dir@.len() == 0
        &&& self.cat_log_file@.len() == 0
        &&& self.cat_aurora_start@.len() == 0
        &&& self.cat_aurora_mid@.len() == 0
        &&& self.cat_aurora_end@.len() == 0
        &&& self.cat_neon_color@.len() == 0
        &&& self.group_layout@.len() == 0
        &&& self.label_space_sm@.len() == 0
        &&& self.label_space_md@.len() == 0
        &&& self.label_space_lg@.len() == 0
        &&& self.label_alpha_border@.len() == 0
        &&& self.label_alpha_panel@.len() == 0
        &&& self.label_alpha_backdrop@.len() == 0
        &&& self.palette_label_spacing@.len() == 0
        &&& self.palette_label_alpha@.len() == 0
        &&& self.palette_label_rounding@.len() == 0
        &&& self.status_style_restored@.len() == 0
        &&& self.label_excluded_paths@.len() == 0
        &&& self.placeholder_excluded_paths@.len() == 0
        &&& self.status_config_restored@.len() == 0
        &&& self.status_dev_restored@.len() == 0
        &&& self.label_show_debug_tools@.len() == 0
        &&& self.label_hide_debug_tools@.len() == 0
        &&& self.page_title@.len() == 0
        &&& self.placeholder_output_path@.len() == 0
        &&& self.label_llm_log@.len() == 0
    }
}

impl Default for GuiLabels {
    fn default() -> (r: Self)
        ensures
            r.is_blank(),
    {
        GuiLabels {
            common: CommonLabels::default(),
            btn_nav_settings: String::new(),
            btn_nav_dict: String::new(),
            btn_nav_palette: String::new(),
            btn_nav_theme: String::new(),
            btn_nav_dev: String::new(),
            btn_clear: String::new(),
            btn_select_file: String::new(),
            btn_select_folder: String::new(),
            btn_output_dir: String::new(),
            btn_open_output: String::new(),
            label_input_path: String::new(),
            label_ui_lang: String::new(),
            label_fast_convert: String::new(),
            label_fast_convert_on: String::new(),
            label_fast_convert_off: String::new(),
            btn_run: String::new(),
            label_current_status: String::new(),
            label_log_area: String::new(),
            header_api_settings: String::new(),
            label_provider: String::new(),
            label_loading_models: String::new(),
            label_no_models: String::new(),
            label_batch_size: String::new(),
            label_max_chars: String::new(),
            label_timeout: String::new(),
            label_font_size: String::new(),
            label_pack_format: String::new(),
            label_source_lang: String::new(),
            label_target_lang: String::new(),
            btn_restore_defaults: String::new(),
            label_user_prompt: String::new(),
            header_palette: String::new(),
            label_bg_color: String::new(),
            label_text_color: String::new(),
            label_custom_rounding: String::new(),
            label_rounding_value: String::new(),
            label_anim_speed: String::new(),
            btn_resume: String::new(),
            text_confirm_stop: String::new(),
            header_dev_mode: String::new(),
            label_skip_json: String::new(),
            label_no_skip_json: String::new(),
            label_skip_jar: String::new(),
            label_no_skip_jar: String::new(),
            label_skip_js: String::new(),
            label_no_skip_js: String::new(),
            label_skip_book: String::new(),
            label_no_skip_book: String::new(),
            label_enable_log: String::new(),
            label_enable_debug_log: String::new(),
            label_disable_debug_log: String::new(),
            label_disable_log: String::new(),
            label_system_prompt: String::new(),
            label_ollama_url: String::new(),
            group_batch: String::new(),
            group_specific: String::new(),
            spec_btn_select_file: String::new(),
            spec_btn_select_folder: String::new(),
            spec_btn_output_dir: String::new(),
            spec_btn_open_output: String::new(),
            spec_btn_run: String::new(),
            spec_btn_pause: String::new(),
            spec_btn_stop: String::new(),
            spec_area_dict: String::new(),
            spec_label_output: String::new(),
            spec_progress_current: String::new(),
            spec_progress_total: String::new(),
            glossary_tab_user: String::new(),
            glossary_tab_official: String::new(),
            glossary_key: String::new(),
            glossary_value: String::new(),
            glossary_clear_title: String::new(),
            glossary_priority_hover: String::new(),
            glossary_priority_user: String::new(),
            glossary_priority_official: String::new(),
            glossary_col_actions: String::new(),
            glossary_empty: String::new(),
            header_dict_mgr: String::new(),
            label_page_info: String::new(),
            label_glossary_priority: String::new(),
            label_palette_target_type: String::new(),
            label_palette_target_item: String::new(),
            label_palette_property: String::new(),
            label_palette_color: String::new(),
            label_palette_rounding: String::new(),
            label_items: String::new(),
            label_files: String::new(),
            btn_dict_open_json: String::new(),
            btn_palette_clear_item: String::new(),
            label_progress_style: String::new(),
            style_default: String::new(),
            style_aurora: String::new(),
            style_neon: String::new(),
            cat_accent_color: String::new(),
            cat_danger_color: String::new(),
            cat_border_color: String::new(),
            cat_hover_bg: String::new(),
            cat_slider_bg: String::new(),
            cat_slider_thumb: String::new(),
            cat_switch_bg: String::new(),
            cat_progress_bg: String::new(),
            cat_log_info: String::new(),
            cat_log_warn: String::new(),
            cat_log_error: String::new(),
            cat_log_success: String::new(),
            cat_log_dir: String::new(),
            cat_log_file: String::new(),
            cat_aurora_start: String::new(),
            cat_aurora_mid: String::new(),
            cat_aurora_end: String::new(),
            cat_neon_color: String::new(),
            group_layout: String::new(),
            label_space_sm: String::new(),
            label_space_md: String::new(),
            label_space_lg: String::new(),
            label_alpha_border: String::new(),
            label_alpha_panel: String::new(),
            label_alpha_backdrop: String::new(),
            palette_label_spacing: String::new(),
            palette_label_alpha: String::new(),
            palette_label_rounding: String::new(),
            status_style_restored: String::new(),
            label_excluded_paths: String::new(),
            placeholder_excluded_paths: String::new(),
            status_config_restored: String::new(),
            status_dev_restored: String::new(),
            label_show_debug_tools: String::new(),
            label_hide_debug_tools: String::new(),
            page_title: String::new(),
            placeholder_output_path: String::new(),
            label_llm_log: String::new(),
        }
    }
}

/// Labels of the CLI, on top of the shared ones.
pub struct CliLabels {
    pub common: CommonLabels,
    pub prompt_select_provider_cli: String,
    pub prompt_advanced_settings_cli: String,
    pub prompt_confirm_start_cli: String,
    pub prompt_task_finished_cli: String,
    pub prompt_new_task_cli: String,
    pub label_back_to_prev_cli: String,
    pub label_custom_input_cli: String,
    pub label_yes_confirm_cli: String,
    pub label_no_cancel_cli: String,
    pub cli_banner_title: String,
    pub cli_mode_headless: String,
    pub cli_mode_interactive: String,
    pub cli_select_ui_lang: String,
    pub cli_fetching_models: String,
    pub cli_model_fetch_failed: String,
    pub cli_custom_model_prompt: String,
    pub cli_api_key_old_hint: String,
    pub cli_input_path_prompt: String,
    pub cli_error_path_not_exist: String,
    pub cli_output_path_prompt: String,
    pub cli_op_cancelled: String,
    pub cli_adv_settings_synced: String,
    pub cli_starting_pipeline: String,
    pub cli_pipeline_ended: String,
    pub cli_pipeline_success: String,
    pub cli_pipeline_failed: String,
    pub cli_error_input_not_exist: String,
    pub cli_detect_headless: String,
    pub cli_label_provider: String,
    pub cli_label_model: String,
    pub cli_label_input: String,
    pub cli_label_output: String,
    pub cli_label_default: String,
    pub cli_hint_config_exclude: String,
}

impl CliLabels {
    /// Every label is empty.
    pub open spec fn is_blank(&self) -> bool {
        &&& self.common.is_blank()
        &&& self.prompt_select_provider_cli@.len() == 0
        &&& self.prompt_advanced_settings_cli@.len() == 0
        &&& self.prompt_confirm_start_cli@.len() == 0
        &&& self.prompt_task_finished_cli@.len() == 0
        &&& self.prompt_new_task_cli@.len() == 0
        &&& self.label_back_to_prev_cli@.len() == 0
        &&& self.label_custom_input_cli@.len() == 0
        &&& self.label_yes_confirm_cli@.len() == 0
        &&& self.label_no_cancel_cli@.len() == 0
        &&& self.cli_banner_title@.len() == 0
        &&& self.cli_mode_headless@.len() == 0
        &&& self.cli_mode_interactive@.len() == 0
        &&& self.cli_select_ui_lang@.len() == 0
        &&& self.cli_fetching_models@.len() == 0
        &&& self.cli_model_fetch_failed@.len() == 0
        &&& self.cli_custom_model_prompt@.len() == 0
        &&& self.cli_api_key_old_hint@.len() == 0
        &&& self.cli_input_path_prompt@.len() == 0
        &&& self.cli_error_path_not_exist@.len() == 0
        &&& self.cli_output_path_prompt@.len() == 0
        &&& self.cli_op_cancelled@.len() == 0
        &&& self.cli_adv_settings_synced@.len() == 0
        &&& self.cli_starting_pipeline@.len() == 0
        &&& self.cli_pipeline_ended@.len() == 0
        &&& self.cli_pipeline_success@.len() == 0
        &&& self.cli_pipeline_failed@.len() == 0
        &&& self.cli_error_input_not_exist@.len() == 0
        &&& self.cli_detect_headless@.len() == 0
        &&& self.cli_label_provider@.len() == 0
        &&& self.cli_label_model@.len() == 0
        &&& self.cli_label_input@.len() == 0
        &&& self.cli_label_output@.len() == 0
        &&& self.cli_label_default@.len() == 0
        &&& self.cli_hint_config_exclude@.len() == 0
    }
}

impl Default for CliLabels {
    fn default() -> (r: Self)
        ensures
            r.is_blank(),
    {
        CliLabels {
            common: CommonLabels::default(),
            prompt_select_provider_cli: String::new(),
            prompt_advanced_settings_cli: String::new(),
            prompt_confirm_start_cli: String::new(),
            prompt_task_finished_cli: String::new(),
            prompt_new_task_cli: String::new(),
            label_back_to_prev_cli: String::new(),
            label_custom_input_cli: String::new(),
            label_yes_confirm_cli: String::new(),
            label_no_cancel_cli: String::new(),
            cli_banner_title: String::new(),
            cli_mode_headless: String::new(),
            cli_mode_interactive: String::new(),
            cli_select_ui_lang: String::new(),
            cli_fetching_models: String::new(),
            cli_model_fetch_failed: String::new(),
            cli_custom_model_prompt: String::new(),
            cli_api_key_old_hint: String::new(),
            cli_input_path_prompt: String::new(),
            cli_error_path_not_exist: String::new(),
            cli_output_path_prompt: String::new(),
            cli_op_cancelled: String::new(),
            cli_adv_settings_synced: String::new(),
            cli_starting_pipeline: String::new(),
            cli_pipeline_ended: String::new(),
            cli_pipeline_success: String::new(),
            cli_pipeline_failed: String::new(),
            cli_error_input_not_exist: String::new(),
            cli_detect_headless: String::new(),
            cli_label_provider: String::new(),
            cli_label_model: String::new(),
            cli_label_input: String::new(),
            cli_label_output: String::new(),
            cli_label_default: String::new(),
            cli_hint_config_exclude: String::new(),
        }
    }
}


/// What a text reads as, if there is a text and it is JSON.
pub open spec fn parsed_text(t: Option<&str>) -> Option<JsonValue> {
    match t {
        Some(x) => spec_parse_json(x@),
        None => None,
    }
}

/// The JSON that a language's labels are read from: the fields of the
/// language file laid over those of the English file (see `overlay_fields`),
/// when both are objects. `None` when the language file is not JSON. When the
/// English file is missing or not JSON, it counts as an empty object; when
/// either is not an object, the English value stands as it is.
pub fn overlay_label_texts(base_text: Option<&str>, lang_text: &str) -> (r: Option<JsonValue>)
    ensures
        r is None <==> spec_parse_json(lang_text@) is None,
        r matches Some(v) ==> {
            let over = spec_parse_json(lang_text@)->0;
            &&& parsed_text(base_text) matches Some(b) ==> (b is Object && over is Object) || v == b
            &&& parsed_text(base_text) matches Some(JsonValue::Object(bf)) ==> (over matches JsonValue::Object(of) ==> {
                &&& v is Object
                &&& forall|key: Seq<char>| #[trigger] field_of(Some(v), key) == overlaid(bf@, of@, key)
            })
            &&& parsed_text(base_text) is None && !(over is Object) ==> (v matches JsonValue::Object(fs) && fs@.len() == 0)
            &&& parsed_text(base_text) is None ==> (over matches JsonValue::Object(of) ==> {
                &&& v is Object
                &&& forall|key: Seq<char>| #[trigger] field_of(Some(v), key) == last_field(of@, key)
            })
        },
{
    let over = match parse_json(lang_text) {
        Some(v) => v,
        None => {
            return None;
        },
    };
    let base = match base_text {
        Some(t) => parse_json(t),
        None => None,
    };
    let ghost pb = base;
    let base = match base {
        Some(b) => b,
        None => JsonValue::Object(Vec::new()),
    };
    match (base, over) {
        (JsonValue::Object(bf), JsonValue::Object(of)) => {
            let ghost b0 = bf@;
            let fields = overlay_fields(bf, of);
            proof {
                if pb is None {
                    assert(b0.len() == 0);
                    assert forall|key: Seq<char>| #[trigger] crate::json::first_field(b0, key) is None by {
                        reveal_with_fuel(crate::json::first_field, 1);
                    }
                }
            }
            Some(JsonValue::Object(fields))
        },
        (b, _) => Some(b),
    }
}

} // verus!
