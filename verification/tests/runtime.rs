use url_translator::config::features::Feature;
use url_translator::config::runtime::{
    extract_json_bool_value, extract_json_number_text, extract_json_string_value, AppConfig, RuntimeConfig,
};

/// What the application does with a number field: the digits and points
/// read as a float, then cut to a whole number.
fn number(json: &str, key: &str) -> Option<u64> {
    extract_json_number_text(json, key).and_then(|t| t.parse::<f64>().ok()).map(|v| v as u64)
}

fn read(json: &str) -> Result<RuntimeConfig, String> {
    RuntimeConfig::from_json(json, number(json, "api_timeout_seconds"), number(json, "auto_save_interval"))
}

#[test]
fn test_runtime_config_validation() {
    let mut config = RuntimeConfig::new();
    assert!(config.validate().is_ok());

    config.api_base_url = "invalid-url".to_string();
    assert!(config.validate().is_err());

    config.api_base_url = "http://localhost:3002".to_string();
    config.api_timeout_seconds = 0;
    assert!(config.validate().is_err());
}

#[test]
fn test_runtime_config_theme_setting() {
    let mut config = RuntimeConfig::new();
    assert!(config.set_theme("mocha".to_string()).is_ok());
    assert_eq!(config.current_theme, "mocha");

    assert!(config.set_theme("invalid-theme".to_string()).is_err());
}

#[test]
fn test_app_config_creation() {
    let config = AppConfig::new();
    assert!(config.validate().is_ok());
    assert!(config.is_feature_available(&Feature::UserAuthentication));
}

#[test]
fn test_json_parsing() {
    let json = r#"{"current_theme": "mocha", "api_timeout_seconds": 60}"#;
    let config = read(json).unwrap();
    assert_eq!(config.current_theme, "mocha");
    assert_eq!(config.api_timeout_seconds, 60);
}

#[test]
fn defaults_come_from_the_environment() {
    let c = RuntimeConfig::default();
    assert_eq!(c.current_theme, "latte");
    assert_eq!(c.api_base_url, "http://localhost:3002/api/v1");
    assert_eq!(c.api_timeout_seconds, 30);
    assert!(c.auto_save_enabled);
    assert_eq!(c.auto_save_interval, 30);
    assert_eq!(c.max_file_size_mb, 10);
    assert_eq!(c.language, "zh-CN");
    assert_eq!(c.timezone, "Asia/Shanghai");
}

#[test]
fn each_rule_has_its_message() {
    let mut c = RuntimeConfig::new();
    c.api_base_url = String::new();
    assert_eq!(c.validate(), Err("API基础URL不能为空".to_string()));
    c.api_base_url = "ftp://x".to_string();
    assert_eq!(c.validate(), Err("API基础URL格式无效".to_string()));
    c.api_base_url = "https://x".to_string();
    c.api_timeout_seconds = 301;
    assert_eq!(c.validate(), Err("API超时时间应在1-300秒之间".to_string()));
    c.api_timeout_seconds = 300;
    c.auto_save_interval = 4;
    assert_eq!(c.validate(), Err("自动保存间隔应在5-300秒之间".to_string()));
    c.auto_save_interval = 5;
    c.max_file_size_mb = 101;
    assert_eq!(c.validate(), Err("文件大小限制应在1-100MB之间".to_string()));
    c.max_file_size_mb = 100;
    c.current_theme = "dark".to_string();
    assert_eq!(c.validate(), Err("无效的主题: dark".to_string()));
    c.current_theme = "frappe".to_string();
    assert_eq!(c.validate(), Ok(()));
}

#[test]
fn refused_theme_changes_nothing() {
    let mut c = RuntimeConfig::new();
    assert_eq!(c.set_theme("dark".to_string()), Err("无效的主题: dark".to_string()));
    assert_eq!(c.current_theme, "latte");
}

#[test]
fn api_settings_are_checked_before_they_are_set() {
    let mut c = RuntimeConfig::new();
    assert_eq!(c.update_api_config("example.com".to_string(), 10), Err("API基础URL格式无效".to_string()));
    assert_eq!(c.api_base_url, "http://localhost:3002/api/v1");
    assert_eq!(c.update_api_config("https://example.com".to_string(), 0), Err("API超时时间应在1-300秒之间".to_string()));
    assert_eq!(c.api_timeout_seconds, 30);
    assert!(c.update_api_config("https://example.com".to_string(), 120).is_ok());
    assert_eq!(c.api_base_url, "https://example.com");
    assert_eq!(c.api_timeout_seconds, 120);
}

#[test]
fn json_text_has_one_field_per_line() {
    let c = RuntimeConfig::new();
    let expected = "{\n                \"current_theme\": \"latte\",\n                \"api_base_url\": \"http://localhost:3002/api/v1\",\n                \"api_timeout_seconds\": 30,\n                \"auto_save_enabled\": true,\n                \"auto_save_interval\": 30,\n                \"max_file_size_mb\": 10,\n                \"keyboard_shortcuts_enabled\": true,\n                \"notifications_enabled\": true,\n                \"language\": \"zh-CN\",\n                \"timezone\": \"Asia/Shanghai\"\n            }";
    assert_eq!(c.to_json(), expected);
}

#[test]
fn runtime_json_written_is_read_back() {
    let mut c = RuntimeConfig::new();
    c.set_theme("macchiato".to_string()).unwrap();
    c.update_api_config("https://api.example.com/v2".to_string(), 45).unwrap();
    c.auto_save_enabled = false;
    c.auto_save_interval = 120;
    let back = read(&c.to_json()).unwrap();
    assert_eq!(back.current_theme, "macchiato");
    assert_eq!(back.api_base_url, "https://api.example.com/v2");
    assert_eq!(back.api_timeout_seconds, 45);
    assert!(!back.auto_save_enabled);
    assert_eq!(back.auto_save_interval, 120);
}

#[test]
fn field_readers() {
    let json = "{\"a\": \"x y\", \"n\":  12.5, \"b\":false, \"c\": 7}";
    assert_eq!(extract_json_string_value(json, "a"), Some("x y".to_string()));
    assert_eq!(extract_json_string_value(json, "z"), None);
    assert_eq!(extract_json_number_text(json, "n"), Some("12.5".to_string()));
    assert_eq!(extract_json_number_text(json, "a"), None);
    assert_eq!(extract_json_bool_value(json, "b"), Some(false));
    assert_eq!(extract_json_bool_value(json, "c"), None);
    assert_eq!(number(json, "n"), Some(12));
}

#[test]
fn invalid_json_values_are_refused_with_the_rule_message() {
    let json = "{\"current_theme\": \"dark\"}";
    assert_eq!(read(json).unwrap_err(), "无效的主题: dark");
    let json = "{\"auto_save_interval\": 2}";
    assert_eq!(read(json).unwrap_err(), "自动保存间隔应在5-300秒之间");
}

#[test]
fn summary_text() {
    let c = RuntimeConfig::new();
    assert_eq!(
        c.summary(),
        "运行时配置:\n- 当前主题: latte\n- API地址: http://localhost:3002/api/v1\n- API超时: 30秒\n- 自动保存: 启用 (30秒间隔)\n- 文件大小限制: 10MB\n- 键盘快捷键: 启用\n- 通知: 启用\n- 语言: zh-CN\n- 时区: Asia/Shanghai"
    );
}

#[test]
fn app_config_reset_and_report() {
    let mut a = AppConfig::new();
    a.features.disable(Feature::Search);
    a.runtime.set_theme("mocha".to_string()).unwrap();
    a.reset_to_defaults();
    assert!(a.is_feature_available(&Feature::Search));
    assert_eq!(a.runtime.current_theme, "latte");
    let report = a.full_report();
    assert!(report.starts_with("=== 应用配置报告 ===\n\n环境配置摘要:"));
    assert!(report.contains("\n\n功能开关状态:"));
    assert!(report.ends_with("- 时区: Asia/Shanghai"));
}

#[test]
fn app_config_validation_reports_the_environment_first() {
    let mut a = AppConfig::new();
    a.env.api_timeout_seconds = 0;
    a.runtime.current_theme = "dark".to_string();
    assert_eq!(a.validate(), Err("API超时时间必须大于0".to_string()));
    a.env.api_timeout_seconds = 30;
    assert_eq!(a.validate(), Err("无效的主题: dark".to_string()));
}

#[test]
fn stored_configuration_is_loaded() {
    let mut stored = RuntimeConfig::new();
    stored.set_theme("frappe".to_string()).unwrap();
    let a = AppConfig::from_stored(Some(stored), Some("{\"search\":false}"));
    assert_eq!(a.runtime.current_theme, "frappe");
    assert!(!a.is_feature_available(&Feature::Search));
    let b = AppConfig::from_stored(None, Some("not json"));
    assert_eq!(b.runtime.current_theme, "latte");
    assert!(b.is_feature_available(&Feature::Search));
}

#[test]
fn configuration_over_the_build_environment() {
    let mut vars = url_translator::config::env::BuildEnv::unset();
    vars.default_theme = Some("mocha".to_string());
    vars.frontend_api_timeout_seconds = Some("45".to_string());
    let env = url_translator::config::env::EnvConfig::from_build_env(&vars);
    let c = AppConfig::from_env_and_stored(env, None, None);
    assert_eq!(c.env.default_theme, "mocha");
    assert_eq!(c.runtime.current_theme, "mocha");
    assert_eq!(c.runtime.api_timeout_seconds, 45);
}
