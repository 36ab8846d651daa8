use url_translator::error::app_error::{AppError, ErrorContext, ErrorSeverity};

#[test]
fn severities_messages_and_retry() {
    let e = AppError::api("DeepLX", "down");
    assert_eq!(e.severity(), ErrorSeverity::High);
    assert_eq!(e.user_message(), "DeepLX 服务暂时不可用，请稍后重试");
    assert_eq!(e.suggested_actions(), vec!["检查 DeepLX 服务配置".to_string(), "稍后重试".to_string(), "联系管理员".to_string()]);
    assert!(e.is_retryable());

    let v = AppError::validation("URL", "bad");
    assert_eq!(v.user_message(), "URL 格式不正确，请重新输入");
    assert!(!v.is_retryable());
    assert_eq!(AppError::config("x").severity(), ErrorSeverity::Critical);
    assert_eq!(AppError::rate_limit("x").severity(), ErrorSeverity::Low);
    assert!(!AppError::parse("x").is_retryable());
    assert_eq!(AppError::network("x"), AppError::NetworkError { message: "x".to_string() });
}

#[test]
fn error_texts_name_the_kind() {
    assert_eq!(AppError::network("超时").to_string(), "网络请求失败: 超时");
    assert_eq!(AppError::api("Jina", "503").to_string(), "API调用失败: Jina - 503");
    assert_eq!(AppError::validation("url", "empty").to_string(), "验证错误: url - empty");
    assert_eq!(AppError::unknown("?").to_string(), "未知错误: ?");
    assert_eq!(AppError::file("disk").to_string(), "文件操作错误: disk");
}

#[test]
fn errors_from_outside_failures() {
    assert_eq!(AppError::from_request_failure(true, true, "x"), AppError::network("请求超时"));
    assert_eq!(AppError::from_request_failure(false, true, "x"), AppError::network("连接失败"));
    assert_eq!(AppError::from_request_failure(false, false, "dns"), AppError::network("网络错误: dns"));
    assert_eq!(AppError::from_json_failure("eof"), AppError::parse("JSON解析失败: eof"));
    assert_eq!(AppError::from_storage_failure("full"), AppError::config("存储错误: full"));
}

#[test]
fn error_context_counts_retries() {
    let c = ErrorContext::new(AppError::network("x"), 1_700_000_000_000);
    assert_eq!(c.severity, ErrorSeverity::Medium);
    assert_eq!(c.retry_count, 0);
    assert_eq!(c.user_message, "网络连接失败，请检查网络设置后重试");
    assert_eq!(c.suggested_actions, vec!["检查网络连接".to_string(), "刷新页面重试".to_string()]);
    assert!(c.technical_details.is_none());
    assert!(c.can_retry(1));
    let c = c.increment_retry();
    assert_eq!(c.retry_count, 1);
    assert!(!c.can_retry(1));
    let c = c.with_technical_details("trace");
    assert_eq!(c.technical_details, Some("trace".to_string()));
    let d = ErrorContext::new(AppError::parse("x"), 0);
    assert!(!d.can_retry(5));
}
