//! The application's error kinds and what the user is told about them.

use vstd::prelude::*;
use crate::text::{push_str, string_views};

verus! {

/// An error of the application.
#[derive(Debug, Clone, PartialEq, Eq)]
pub enum AppError {
    NetworkError { message: String },
    ApiError { service: String, message: String },
    TranslationError { message: String },
    ExtractionError { message: String },
    ConfigError { message: String },
    ValidationError { field: String, message: String },
    RateLimitError { message: String },
    FileError { message: String },
    ParseError { message: String },
    Unknown { message: String },
}

/// How much an error gets in the way.
#[derive(Debug, Clone, Copy, PartialEq, Eq)]
pub enum ErrorSeverity {
    /// The user can go on.
    Low,
    /// Needs attention, does not block.
    Medium,
    /// Blocks the current operation.
    High,
    /// Application-level.
    Critical,
}

/// The severity of each kind of error.
pub open spec fn severity_of(e: AppError) -> ErrorSeverity {
    match e {
        AppError::NetworkError { .. } => ErrorSeverity::Medium,
        AppError::ApiError { .. } => ErrorSeverity::High,
        AppError::TranslationError { .. } => ErrorSeverity::High,
        AppError::ExtractionError { .. } => ErrorSeverity::High,
        AppError::ConfigError { .. } => ErrorSeverity::Critical,
        AppError::ValidationError { .. } => ErrorSeverity::Medium,
        AppError::RateLimitError { .. } => ErrorSeverity::Low,
        AppError::FileError { .. } => ErrorSeverity::Medium,
        AppError::ParseError { .. } => ErrorSeverity::Medium,
        AppError::Unknown { .. } => ErrorSeverity::High,
    }
}

/// Which kinds of error are worth retrying.
pub open spec fn retryable(e: AppError) -> bool {
    match e {
        AppError::NetworkError { .. } => true,
        AppError::ApiError { .. } => true,
        AppError::TranslationError { .. } => true,
        AppError::ExtractionError { .. } => false,
        AppError::ConfigError { .. } => false,
        AppError::ValidationError { .. } => false,
        AppError::RateLimitError { .. } => true,
        AppError::FileError { .. } => true,
        AppError::ParseError { .. } => false,
        AppError::Unknown { .. } => true,
    }
}

/// The message shown to the user for each kind of error.
pub open spec fn user_message_of(e: AppError) -> Seq<char> {
    match e {
        AppError::NetworkError { .. } => "网络连接失败，请检查网络设置后重试"@,
        AppError::ApiError { service, .. } => service@ + " 服务暂时不可用，请稍后重试"@,
        AppError::TranslationError { .. } => "翻译失败，请检查文本内容或稍后重试"@,
        AppError::ExtractionError { .. } => "内容提取失败，请检查URL是否正确"@,
        AppError::ConfigError { .. } => "配置错误，请检查设置页面"@,
        AppError::ValidationError { field, .. } => field@ + " 格式不正确，请重新输入"@,
        AppError::RateLimitError { .. } => "请求过于频繁，请稍后重试"@,
        AppError::FileError { .. } => "文件操作失败"@,
        AppError::ParseError { .. } => "数据解析失败"@,
        AppError::Unknown { .. } => "发生未知错误，请稍后重试"@,
    }
}

/// The actions suggested to the user for each kind of error.
pub open spec fn suggested_actions_of(e: AppError) -> Seq<Seq<char>> {
    match e {
        AppError::NetworkError { .. } => seq!["检查网络连接"@, "刷新页面重试"@],
        AppError::ApiError { service, .. } => seq!["检查 "@ + service@ + " 服务配置"@, "稍后重试"@, "联系管理员"@],
        AppError::TranslationError { .. } => seq!["检查文本内容"@, "尝试分段翻译"@, "检查API配置"@],
        AppError::ExtractionError { .. } => seq!["验证URL格式"@, "检查网页是否可访问"@, "尝试其他URL"@],
        AppError::ConfigError { .. } => seq!["前往设置页面检查配置"@, "重置为默认配置"@],
        AppError::ValidationError { .. } => seq!["检查输入格式"@, "参考示例输入"@],
        AppError::RateLimitError { .. } => seq!["等待一段时间后重试"@, "降低请求频率"@],
        AppError::FileError { .. } => seq!["检查文件权限"@, "尝试重新操作"@],
        AppError::ParseError { .. } => seq!["检查数据格式"@, "刷新页面重试"@],
        AppError::Unknown { .. } => seq!["刷新页面重试"@, "联系技术支持"@],
    }
}

fn owned(s: &str) -> (r: String)
    ensures
        r@ == s@,
{
    s.to_owned()
}

fn two(a: &str, b: &str) -> (r: Vec<String>)
    ensures
        string_views(r@) == seq![a@, b@],
{
    let mut v: Vec<String> = Vec::new();
    v.push(owned(a));
    v.push(owned(b));
    assert(string_views(v@) =~= seq![a@, b@]);
    v
}

fn three(a: String, b: &str, c: &str) -> (r: Vec<String>)
    ensures
        string_views(r@) == seq![a@, b@, c@],
{
    let mut v: Vec<String> = Vec::new();
    v.push(a);
    v.push(owned(b));
    v.push(owned(c));
    assert(string_views(v@) =~= seq![a@, b@, c@]);
    v
}

impl AppError {
    /// A network error.
    pub fn network(message: &str) -> (r: AppError)
        ensures
            r is NetworkError && r->NetworkError_message@ == message@,
    {
        AppError::NetworkError { message: owned(message) }
    }

    /// An error from an API service.
    pub fn api(service: &str, message: &str) -> (r: AppError)
        ensures
            r is ApiError && r->ApiError_service@ == service@ && r->ApiError_message@ == message@,
    {
        AppError::ApiError { service: owned(service), message: owned(message) }
    }

    /// A translation error.
    pub fn translation(message: &str) -> (r: AppError)
        ensures
            r is TranslationError && r->TranslationError_message@ == message@,
    {
        AppError::TranslationError { message: owned(message) }
    }

    /// A content extraction error.
    pub fn extraction(message: &str) -> (r: AppError)
        ensures
            r is ExtractionError && r->ExtractionError_message@ == message@,
    {
        AppError::ExtractionError { message: owned(message) }
    }

    /// A configuration error.
    pub fn config(message: &str) -> (r: AppError)
        ensures
            r is ConfigError && r->ConfigError_message@ == message@,
    {
        AppError::ConfigError { message: owned(message) }
    }

    /// A validation error on a field.
    pub fn validation(field: &str, message: &str) -> (r: AppError)
        ensures
            r is ValidationError && r->ValidationError_field@ == field@ && r->ValidationError_message@ == message@,
    {
        AppError::ValidationError { field: owned(field), message: owned(message) }
    }

    /// A rate limit error.
    pub fn rate_limit(message: &str) -> (r: AppError)
        ensures
            r is RateLimitError && r->RateLimitError_message@ == message@,
    {
        AppError::RateLimitError { message: owned(message) }
    }

    /// A file error.
    pub fn file(message: &str) -> (r: AppError)
        ensures
            r is FileError && r->FileError_message@ == message@,
    {
        AppError::FileError { message: owned(message) }
    }

    /// A parse error.
    pub fn parse(message: &str) -> (r: AppError)
        ensures
            r is ParseError && r->ParseError_message@ == message@,
    {
        AppError::ParseError { message: owned(message) }
    }

    /// An error of unknown kind.
    pub fn unknown(message: &str) -> (r: AppError)
        ensures
            r is Unknown && r->Unknown_message@ == message@,
    {
        AppError::Unknown { message: owned(message) }
    }

    /// How severe the error is.
    pub fn severity(&self) -> (r: ErrorSeverity)
        ensures
            r == severity_of(*self),
    {
        match self {
            AppError::NetworkError { .. } => ErrorSeverity::Medium,
            AppError::ApiError { .. } => ErrorSeverity::High,
            AppError::TranslationError { .. } => ErrorSeverity::High,
            AppError::ExtractionError { .. } => ErrorSeverity::High,
            AppError::ConfigError { .. } => ErrorSeverity::Critical,
            AppError::ValidationError { .. } => ErrorSeverity::Medium,
            AppError::RateLimitError { .. } => ErrorSeverity::Low,
            AppError::FileError { .. } => ErrorSeverity::Medium,
            AppError::ParseError { .. } => ErrorSeverity::Medium,
            AppError::Unknown { .. } => ErrorSeverity::High,
        }
    }

    /// The message shown to the user.
    pub fn user_message(&self) -> (r: String)
        ensures
            r@ == user_message_of(*self),
    {
        match self {
            AppError::NetworkError { .. } => owned("网络连接失败，请检查网络设置后重试"),
            AppError::ApiError { service, .. } => {
                let mut s = service.clone();
                push_str(&mut s, " 服务暂时不可用，请稍后重试");
                s
            },
            AppError::TranslationError { .. } => owned("翻译失败，请检查文本内容或稍后重试"),
            AppError::ExtractionError { .. } => owned("内容提取失败，请检查URL是否正确"),
            AppError::ConfigError { .. } => owned("配置错误，请检查设置页面"),
            AppError::ValidationError { field, .. } => {
                let mut s = field.clone();
                push_str(&mut s, " 格式不正确，请重新输入");
                s
            },
            AppError::RateLimitError { .. } => owned("请求过于频繁，请稍后重试"),
            AppError::FileError { .. } => owned("文件操作失败"),
            AppError::ParseError { .. } => owned("数据解析失败"),
            AppError::Unknown { .. } => owned("发生未知错误，请稍后重试"),
        }
    }

    /// The actions suggested to the user.
    pub fn suggested_actions(&self) -> (r: Vec<String>)
        ensures
            string_views(r@) == suggested_actions_of(*self),
    {
        match self {
            AppError::NetworkError { .. } => two("检查网络连接", "刷新页面重试"),
            AppError::ApiError { service, .. } => {
                let mut s = owned("检查 ");
                push_str(&mut s, service.as_str());
                push_str(&mut s, " 服务配置");
                three(s, "稍后重试", "联系管理员")
            },
            AppError::TranslationError { .. } => three(owned("检查文本内容"), "尝试分段翻译", "检查API配置"),
            AppError::ExtractionError { .. } => three(owned("验证URL格式"), "检查网页是否可访问", "尝试其他URL"),
            AppError::ConfigError { .. } => two("前往设置页面检查配置", "重置为默认配置"),
            AppError::ValidationError { .. } => two("检查输入格式", "参考示例输入"),
            AppError::RateLimitError { .. } => two("等待一段时间后重试", "降低请求频率"),
            AppError::FileError { .. } => two("检查文件权限", "尝试重新操作"),
            AppError::ParseError { .. } => two("检查数据格式", "刷新页面重试"),
            AppError::Unknown { .. } => two("刷新页面重试", "联系技术支持"),
        }
    }

    /// Whether retrying may help.
    pub fn is_retryable(&self) -> (r: bool)
        ensures
            r == retryable(*self),
    {
        match self {
            AppError::NetworkError { .. } => true,
            AppError::ApiError { .. } => true,
            AppError::TranslationError { .. } => true,
            AppError::ExtractionError { .. } => false,
            AppError::ConfigError { .. } => false,
            AppError::ValidationError { .. } => false,
            AppError::RateLimitError { .. } => true,
            AppError::FileError { .. } => true,
            AppError::ParseError { .. } => false,
            AppError::Unknown { .. } => true,
        }
    }
}

/// The text an error displays: its kind, then its details.
pub open spec fn error_text(e: AppError) -> Seq<char> {
    match e {
        AppError::NetworkError { message } => "网络请求失败: "@ + message@,
        AppError::ApiError { service, message } => "API调用失败: "@ + service@ + " - "@ + message@,
        AppError::TranslationError { message } => "翻译服务错误: "@ + message@,
        AppError::ExtractionError { message } => "内容提取失败: "@ + message@,
        AppError::ConfigError { message } => "配置错误: "@ + message@,
        AppError::ValidationError { field, message } => "验证错误: "@ + field@ + " - "@ + message@,
        AppError::RateLimitError { message } => "速率限制错误: "@ + message@,
        AppError::FileError { message } => "文件操作错误: "@ + message@,
        AppError::ParseError { message } => "解析错误: "@ + message@,
        AppError::Unknown { message } => "未知错误: "@ + message@,
    }
}

fn joined(a: &str, b: &String) -> (r: String)
    ensures
        r@ == a@ + b@,
{
    let mut s = owned(a);
    push_str(&mut s, b.as_str());
    s
}

fn joined3(a: &str, b: &String, c: &str, d: &String) -> (r: String)
    ensures
        r@ == a@ + b@ + c@ + d@,
{
    let mut s = owned(a);
    push_str(&mut s, b.as_str());
    push_str(&mut s, c);
    push_str(&mut s, d.as_str());
    s
}

impl AppError {
    /// The text the error displays.
    pub fn to_string(&self) -> (r: String)
        ensures
            r@ == error_text(*self),
    {
        match self {
            AppError::NetworkError { message } => joined("网络请求失败: ", message),
            AppError::ApiError { service, message } => joined3("API调用失败: ", service, " - ", message),
            AppError::TranslationError { message } => joined("翻译服务错误: ", message),
            AppError::ExtractionError { message } => joined("内容提取失败: ", message),
            AppError::ConfigError { message } => joined("配置错误: ", message),
            AppError::ValidationError { field, message } => joined3("验证错误: ", field, " - ", message),
            AppError::RateLimitError { message } => joined("速率限制错误: ", message),
            AppError::FileError { message } => joined("文件操作错误: ", message),
            AppError::ParseError { message } => joined("解析错误: ", message),
            AppError::Unknown { message } => joined("未知错误: ", message),
        }
    }

    /// A copy equal to `self`.
    pub fn duplicate(&self) -> (r: AppError)
        ensures
            r == *self,
    {
        match self {
            AppError::NetworkError { message } => AppError::NetworkError { message: message.clone() },
            AppError::ApiError { service, message } => AppError::ApiError { service: service.clone(), message: message.clone() },
            AppError::TranslationError { message } => AppError::TranslationError { message: message.clone() },
            AppError::ExtractionError { message } => AppError::ExtractionError { message: message.clone() },
            AppError::ConfigError { message } => AppError::ConfigError { message: message.clone() },
            AppError::ValidationError { field, message } => AppError::ValidationError { field: field.clone(), message: message.clone() },
            AppError::RateLimitError { message } => AppError::RateLimitError { message: message.clone() },
            AppError::FileError { message } => AppError::FileError { message: message.clone() },
            AppError::ParseError { message } => AppError::ParseError { message: message.clone() },
            AppError::Unknown { message } => AppError::Unknown { message: message.clone() },
        }
    }

    /// The error for a failed HTTP request: a timeout, a failed connection,
    /// or another failure with the request error's text.
    pub fn from_request_failure(timed_out: bool, connect_failed: bool, detail: &str) -> (r: AppError)
        ensures
            r is NetworkError,
            timed_out ==> r->NetworkError_message@ == "请求超时"@,
            !timed_out && connect_failed ==> r->NetworkError_message@ == "连接失败"@,
            !timed_out && !connect_failed ==> r->NetworkError_message@ == "网络错误: "@ + detail@,
    {
        if timed_out {
            AppError::network("请求超时")
        } else if connect_failed {
            AppError::network("连接失败")
        } else {
            let mut m = owned("网络错误: ");
            push_str(&mut m, detail);
            AppError::NetworkError { message: m }
        }
    }

    /// The error for JSON that could not be read, with the reader's text.
    pub fn from_json_failure(detail: &str) -> (r: AppError)
        ensures
            r is ParseError && r->ParseError_message@ == "JSON解析失败: "@ + detail@,
    {
        let mut m = owned("JSON解析失败: ");
        push_str(&mut m, detail);
        AppError::ParseError { message: m }
    }

    /// The error for a failed storage access, with the storage error's text.
    pub fn from_storage_failure(detail: &str) -> (r: AppError)
        ensures
            r is ConfigError && r->ConfigError_message@ == "存储错误: "@ + detail@,
    {
        let mut m = owned("存储错误: ");
        push_str(&mut m, detail);
        AppError::ConfigError { message: m }
    }
}

/// An error with what the user is shown about it.
#[derive(Debug, Clone)]
pub struct ErrorContext {
    pub error: AppError,
    pub severity: ErrorSeverity,
    /// When the error happened, in milliseconds since the Unix epoch.
    pub timestamp: u64,
    pub retry_count: u32,
    pub user_message: String,
    pub technical_details: Option<String>,
    pub suggested_actions: Vec<String>,
}

/// The contents of an error context as plain values.
pub struct ErrorContextView {
    pub error: AppError,
    pub severity: ErrorSeverity,
    pub timestamp: u64,
    pub retry_count: u32,
    pub user_message: Seq<char>,
    pub technical_details: Option<Seq<char>>,
    pub suggested_actions: Seq<Seq<char>>,
}

/// The text of an optional string.
pub open spec fn opt_view(o: Option<String>) -> Option<Seq<char>> {
    match o {
        Some(s) => Some(s@),
        None => None,
    }
}

impl View for ErrorContext {
    type V = ErrorContextView;

    open spec fn view(&self) -> ErrorContextView {
        ErrorContextView {
            error: self.error,
            severity: self.severity,
            timestamp: self.timestamp,
            retry_count: self.retry_count,
            user_message: self.user_message@,
            technical_details: opt_view(self.technical_details),
            suggested_actions: string_views(self.suggested_actions@),
        }
    }
}

/// The context of a new error at `timestamp`: its severity, message and
/// suggestions, no retry yet and no technical details.
pub open spec fn fresh_context(error: AppError, timestamp: u64) -> ErrorContextView {
    ErrorContextView {
        error,
        severity: severity_of(error),
        timestamp,
        retry_count: 0,
        user_message: user_message_of(error),
        technical_details: None,
        suggested_actions: suggested_actions_of(error),
    }
}

fn copy_strings(v: &Vec<String>) -> (r: Vec<String>)
    ensures
        string_views(r@) == string_views(v@),
{
    let mut r: Vec<String> = Vec::new();
    let mut i: usize = 0;
    while i < v.len()
        invariant
            i <= v@.len(),
            r@.len() == i,
            string_views(r@) == string_views(v@).take(i as int),
        decreases v.len() - i,
    {
        let c = v[i].clone();
        assert(c@ == v@[i as int]@);
        let ghost r0 = r@;
        r.push(c);
        assert(r@ == r0.push(c));
        i += 1;
        assert forall|j: int| 0 <= j < i implies #[trigger] string_views(r@)[j] == string_views(v@).take(i as int)[j] by {
            assert(string_views(r@)[j] == r@[j]@);
            assert(string_views(v@)[j] == v@[j]@);
            if j < i - 1 {
                assert(r@[j] == r0[j]);
                assert(string_views(r0)[j] == r0[j]@);
                assert(string_views(r0)[j] == string_views(v@).take(i - 1)[j]);
            }
        }
        assert(string_views(r@) =~= string_views(v@).take(i as int));
    }
    assert(string_views(v@).take(v@.len() as int) =~= string_views(v@));
    r
}

impl ErrorContext {
    /// The context of `error`, which happened at `timestamp`.
    pub fn new(error: AppError, timestamp: u64) -> (r: ErrorContext)
        ensures
            r@ == fresh_context(error, timestamp),
    {
        let severity = error.severity();
        let user_message = error.user_message();
        let suggested_actions = error.suggested_actions();
        ErrorContext {
            error,
            severity,
            timestamp,
            retry_count: 0,
            user_message,
            technical_details: None,
            suggested_actions,
        }
    }

    /// The same context with technical details.
    pub fn with_technical_details(self, details: &str) -> (r: ErrorContext)
        ensures
            r@ == (ErrorContextView { technical_details: Some(details@), ..self@ }),
    {
        let mut c = self;
        c.technical_details = Some(owned(details));
        c
    }

    /// The same context with one more retry counted.
    pub fn increment_retry(self) -> (r: ErrorContext)
        requires
            self.retry_count < u32::MAX,
        ensures
            r@ == (ErrorContextView { retry_count: (self.retry_count + 1) as u32, ..self@ }),
    {
        let mut c = self;
        c.retry_count = c.retry_count + 1;
        c
    }

    /// Whether the error may be retried once more: it is of a retryable kind
    /// and has been retried fewer than `max_retries` times.
    pub fn can_retry(&self, max_retries: u32) -> (r: bool)
        ensures
            r == (retryable(self.error) && self.retry_count < max_retries),
    {
        self.error.is_retryable() && self.retry_count < max_retries
    }

    /// A copy with the same contents.
    pub fn duplicate(&self) -> (r: ErrorContext)
        ensures
            r@ == self@,
    {
        ErrorContext {
            error: self.error.duplicate(),
            severity: self.severity,
            timestamp: self.timestamp,
            retry_count: self.retry_count,
            user_message: self.user_message.clone(),
            technical_details: match &self.technical_details {
                Some(d) => Some(d.clone()),
                None => None,
            },
            suggested_actions: copy_strings(&self.suggested_actions),
        }
    }
}

} // verus!
