use url_translator::archive::TarGz;
use url_translator::config::env::EnvConfig;
use url_translator::services::api_client::{
    auth_headers, bearer, build_url, failure_message, history_url, project_url, projects_url, search_url,
    suggestions_url, translation_url, ApiConfig, SearchRequest,
};
use url_translator::services::config_service::ConfigService;
use url_translator::types::api_types::{AppConfig, ConfigOverrides};

fn cfg() -> ApiConfig {
    ApiConfig { base_url: "http://h/api/v1".to_string(), timeout_seconds: 30 }
}

#[test]
fn api_config_comes_from_the_environment() {
    let c = ApiConfig::default();
    assert_eq!(c.base_url, "http://localhost:3002/api/v1");
    assert_eq!(c.timeout_seconds, 30);
    let c = ApiConfig::from_env(&EnvConfig::new());
    assert_eq!(c.timeout_seconds, 30);
}

#[test]
fn endpoint_urls() {
    assert_eq!(build_url(&cfg(), "/auth/login"), "http://h/api/v1/auth/login");
    assert_eq!(history_url(&cfg(), None, None), "http://h/api/v1/translations/history");
    assert_eq!(history_url(&cfg(), Some(2), Some(20)), "http://h/api/v1/translations/history?page=2&per_page=20");
    assert_eq!(history_url(&cfg(), None, Some(5)), "http://h/api/v1/translations/history?per_page=5");
    assert_eq!(projects_url(&cfg(), Some(1), None), "http://h/api/v1/projects?page=1");
    assert_eq!(translation_url(&cfg(), "abc"), "http://h/api/v1/translations/history/abc");
    assert_eq!(project_url(&cfg(), 42), "http://h/api/v1/projects/42");
    assert_eq!(project_url(&cfg(), -7), "http://h/api/v1/projects/-7");
}

#[test]
fn search_urls_encode_the_query() {
    let r = SearchRequest {
        query: "rust async & io".to_string(),
        page: Some(1),
        per_page: None,
        project_id: Some("p1".to_string()),
        source_language: None,
        target_language: Some("zh".to_string()),
    };
    assert_eq!(
        search_url(&cfg(), &r),
        "http://h/api/v1/search?query=rust%20async%20%26%20io&page=1&project_id=p1&target_language=zh"
    );
    assert_eq!(suggestions_url(&cfg(), "中", Some(5)), "http://h/api/v1/search/suggestions?query=%E4%B8%AD&limit=5");
    assert_eq!(suggestions_url(&cfg(), "tokio", None), "http://h/api/v1/search/suggestions?query=tokio");
}

#[test]
fn headers_and_failures() {
    let h = auth_headers(None);
    assert_eq!(h, vec![("Content-Type".to_string(), "application/json".to_string())]);
    let h = auth_headers(Some("t0k"));
    assert_eq!(h[1], ("Authorization".to_string(), "Bearer t0k".to_string()));
    assert_eq!(bearer("x"), "Bearer x");
    assert_eq!(failure_message("登录失败", Some("bad password".to_string())), "登录失败: bad password");
    assert_eq!(failure_message("搜索失败", None), "搜索失败: 未知错误");
}

#[test]
fn app_settings_from_stored_values() {
    let d = AppConfig::default();
    assert_eq!(d.deeplx_api_url, "http://localhost:1188/translate");
    assert_eq!(d.max_text_length, 5000);
    let o = ConfigOverrides {
        deeplx_api_url: Some(String::new()),
        jina_api_url: Some("https://j".to_string()),
        default_source_lang: None,
        default_target_lang: Some("EN".to_string()),
        max_requests_per_second: Some("abc".to_string()),
        max_text_length: Some("1200".to_string()),
        max_paragraphs_per_request: Some("-3".to_string()),
    };
    let c = AppConfig::from_overrides(&o);
    assert_eq!(c.deeplx_api_url, "http://localhost:1188/translate");
    assert_eq!(c.jina_api_url, "https://j");
    assert_eq!(c.default_source_lang, "auto");
    assert_eq!(c.default_target_lang, "EN");
    assert_eq!(c.max_requests_per_second, 10);
    assert_eq!(c.max_text_length, 1200);
    assert_eq!(c.max_paragraphs_per_request, 10);
}

#[test]
fn config_storage_key() {
    let _ = ConfigService::new();
    assert_eq!(ConfigService::storage_key(), "app_config");
}

#[test]
fn archives_hold_what_was_added() {
    let mut t = TarGz::new();
    assert!(t.add_file("a/b.md", "hello").is_ok());
    let bytes = match t.finish() {
        Ok(b) => b,
        Err(_) => panic!("archive not finished"),
    };
    let gz = flate2::read::GzDecoder::new(&bytes[..]);
    let mut ar = tar::Archive::new(gz);
    let mut entries = ar.entries().unwrap();
    let mut e = entries.next().unwrap().unwrap();
    assert_eq!(e.path().unwrap().to_string_lossy(), "a/b.md");
    let mut s = String::new();
    std::io::Read::read_to_string(&mut e, &mut s).unwrap();
    assert_eq!(s, "hello");
}
