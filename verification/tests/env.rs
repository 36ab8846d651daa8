use url_translator::config::env::{BuildEnv, CompileTimeEnv, EnvConfig, RuntimeEnv};

#[test]
fn test_env_config_default() {
    let config = EnvConfig::default();
    assert!(!config.api_base_url.is_empty());
    assert!(config.api_timeout_seconds > 0);
}

#[test]
fn test_env_config_validation() {
    let mut config = EnvConfig::default();
    assert!(config.validate().is_ok());

    config.api_base_url = String::new();
    assert!(config.validate().is_err());

    config.api_base_url = "invalid-url".to_string();
    assert!(config.validate().is_err());

    config.api_base_url = "http://localhost:3002".to_string();
    config.api_timeout_seconds = 0;
    assert!(config.validate().is_err());

    config.api_timeout_seconds = 30;
    config.default_theme = "invalid-theme".to_string();
    assert!(config.validate().is_err());
}

#[test]
fn test_compile_time_env() {
    assert!(!CompileTimeEnv::api_base_url().is_empty());
    assert!(CompileTimeEnv::api_timeout_seconds() > 0);
    assert!(!CompileTimeEnv::default_theme().is_empty());
}

#[test]
fn test_runtime_env() {
    assert!(RuntimeEnv::is_development() || RuntimeEnv::is_production());
    assert!(!RuntimeEnv::build_info().is_empty());
}

#[test]
fn build_variables_are_parsed_with_defaults() {
    let mut env = BuildEnv::unset();
    env.frontend_api_timeout_seconds = Some("+45".to_string());
    env.enable_history = Some("false".to_string());
    env.enable_search = Some("yes".to_string());
    env.debug_mode = Some("TRUE".to_string());
    env.default_theme = Some("mocha".to_string());
    let c = EnvConfig::from_build_env(&env);
    assert_eq!(c.api_timeout_seconds, 45);
    assert!(!c.enable_history);
    assert!(c.enable_search);
    assert!(c.debug_mode);
    assert_eq!(c.default_theme, "mocha");

    env.frontend_api_timeout_seconds = Some("18446744073709551616".to_string());
    assert_eq!(EnvConfig::from_build_env(&env).api_timeout_seconds, 30);
    env.frontend_api_timeout_seconds = Some("18446744073709551615".to_string());
    assert_eq!(EnvConfig::from_build_env(&env).api_timeout_seconds, u64::MAX);
}

#[test]
fn validation_messages_name_the_first_broken_rule() {
    let mut c = EnvConfig::new();
    c.api_timeout_seconds = 301;
    assert_eq!(c.validate(), Err("API超时时间不应超过300秒".to_string()));
    c.api_timeout_seconds = 300;
    c.default_theme = "dark".to_string();
    assert_eq!(
        c.validate(),
        Err("无效的默认主题: dark，支持的主题: [\"latte\", \"frappe\", \"macchiato\", \"mocha\"]".to_string())
    );
}

#[test]
fn summary_lists_every_setting() {
    let c = EnvConfig::new();
    assert_eq!(
        c.summary(),
        "环境配置摘要:\n- API地址: http://localhost:3002/api/v1\n- API超时: 30秒\n- 项目管理: 启用\n- 历史记录: 启用\n- 搜索功能: 启用\n- 批量翻译: 启用\n- 默认主题: latte\n- 调试模式: 启用"
    );
}
