use url_translator::pages::history::sort_from_option;
use url_translator::pages::projects::{
    create_project_request, language_pair_label, target_language_name, update_project_request,
};
use url_translator::types::history::HistorySortBy;

#[test]
fn sort_menu_values() {
    assert_eq!(sort_from_option("created_desc"), HistorySortBy::CreatedAtDesc);
    assert_eq!(sort_from_option("created_asc"), HistorySortBy::CreatedAtAsc);
    assert_eq!(sort_from_option("title_asc"), HistorySortBy::TitleAsc);
    assert_eq!(sort_from_option("title_desc"), HistorySortBy::TitleDesc);
    assert_eq!(sort_from_option("words_desc"), HistorySortBy::WordCountDesc);
    assert_eq!(sort_from_option("words_asc"), HistorySortBy::WordCountAsc);
    assert_eq!(sort_from_option("something else"), HistorySortBy::CreatedAtDesc);
}

#[test]
fn project_form_is_trimmed_and_needs_a_name() {
    let q = create_project_request("  Docs  ", "  ", "en".to_string(), "zh".to_string()).unwrap();
    assert_eq!(q.name, "Docs");
    assert_eq!(q.description, None);
    assert_eq!(q.source_language, "en");
    assert_eq!(q.target_language, "zh");
    let q = update_project_request("Guide", " About it ", "auto".to_string(), "ja".to_string()).unwrap();
    assert_eq!(q.description, Some("About it".to_string()));
    assert_eq!(create_project_request("   ", "x", "en".to_string(), "zh".to_string()).unwrap_err(), "项目名称不能为空");
    assert_eq!(update_project_request("", "x", "en".to_string(), "zh".to_string()).unwrap_err(), "项目名称不能为空");
}

#[test]
fn language_labels() {
    assert_eq!(language_pair_label("auto", "zh"), "自动检测 → 中文");
    assert_eq!(language_pair_label("en", "de"), "en → 德文");
    assert_eq!(language_pair_label("fr", "pt"), "fr → pt");
    assert_eq!(target_language_name("ru"), "俄文");
    assert_eq!(target_language_name("es"), "西班牙文");
}

#[test]
fn settings_form_reads_its_numbers_or_falls_back() {
    let current = url_translator::types::api_types::AppConfig::default();
    let saved = url_translator::pages::settings::settings_from_form(
        &current, "http://d/translate", "https://r.jina.ai", "en", "zh", "25", "+8000", "many",
    );
    assert_eq!(saved.deeplx_api_url, "http://d/translate");
    assert_eq!(saved.jina_api_url, "https://r.jina.ai");
    assert_eq!(saved.default_source_lang, "en");
    assert_eq!(saved.default_target_lang, "zh");
    assert_eq!(saved.max_requests_per_second, 25);
    assert_eq!(saved.max_text_length, 8000);
    assert_eq!(saved.max_paragraphs_per_request, 10);

    let big = url_translator::pages::settings::settings_from_form(&current, "", "", "", "", "4294967296", "", "-1");
    assert_eq!(big.max_requests_per_second, 10);
    assert_eq!(big.max_text_length, 5000);
    assert_eq!(big.max_paragraphs_per_request, 10);
}
