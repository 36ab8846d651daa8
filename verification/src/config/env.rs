//! Build-time settings of the application and the configuration made from them.

use vstd::prelude::*;
use crate::num::{decimal, decimal_vec, parse_bool, parse_bool_chars, parse_u64, parse_u64_chars};
use crate::text::{chars_of, has_match, push_str, starts_with, starts_with_vec, string_of};

verus! {

/// The raw values of the build-time variables the application reads
/// (`FRONTEND_API_BASE_URL`, `FRONTEND_API_TIMEOUT_SECONDS`,
/// `ENABLE_PROJECT_MANAGEMENT`, `ENABLE_HISTORY`, `ENABLE_SEARCH`,
/// `ENABLE_BATCH_TRANSLATION`, `DEFAULT_THEME`, `DEBUG_MODE`); `None` where a
/// variable was not set when the application was built.
#[derive(Debug, Clone)]
pub struct BuildEnv {
    pub frontend_api_base_url: Option<String>,
    pub frontend_api_timeout_seconds: Option<String>,
    pub enable_project_management: Option<String>,
    pub enable_history: Option<String>,
    pub enable_search: Option<String>,
    pub enable_batch_translation: Option<String>,
    pub default_theme: Option<String>,
    pub debug_mode: Option<String>,
}

impl BuildEnv {
    /// No variable set.
    pub fn unset() -> (r: BuildEnv)
        ensures
            r.frontend_api_base_url is None,
            r.frontend_api_timeout_seconds is None,
            r.enable_project_management is None,
            r.enable_history is None,
            r.enable_search is None,
            r.enable_batch_translation is None,
            r.default_theme is None,
            r.debug_mode is None,
    {
        BuildEnv {
            frontend_api_base_url: None,
            frontend_api_timeout_seconds: None,
            enable_project_management: None,
            enable_history: None,
            enable_search: None,
            enable_batch_translation: None,
            default_theme: None,
            debug_mode: None,
        }
    }
}

/// A variable's value parsed as a `u64`, or `default` when it is unset or
/// does not parse.
pub open spec fn env_u64(raw: Option<String>, default: u64) -> u64 {
    match raw {
        Some(s) => match parse_u64(s@) {
            Some(v) => v,
            None => default,
        },
        None => default,
    }
}

/// A variable's value parsed as a `bool`, or `default`.
pub open spec fn env_bool(raw: Option<String>, default: bool) -> bool {
    match raw {
        Some(s) => match parse_bool(s@) {
            Some(v) => v,
            None => default,
        },
        None => default,
    }
}

/// A variable's text, or `default`.
pub open spec fn env_text(raw: Option<String>, default: Seq<char>) -> Seq<char> {
    match raw {
        Some(s) => s@,
        None => default,
    }
}

/// `parse_env_var` for a `u64` variable.
pub fn parse_env_u64(raw: &Option<String>, default: u64) -> (r: u64)
    ensures
        r == env_u64(*raw, default),
{
    match raw {
        Some(s) => match parse_u64_chars(&chars_of(s.as_str())) {
            Some(v) => v,
            None => default,
        },
        None => default,
    }
}

/// `parse_env_var` for a `bool` variable.
pub fn parse_env_bool(raw: &Option<String>, default: bool) -> (r: bool)
    ensures
        r == env_bool(*raw, default),
{
    match raw {
        Some(s) => match parse_bool_chars(&chars_of(s.as_str())) {
            Some(v) => v,
            None => default,
        },
        None => default,
    }
}

fn env_text_of(raw: &Option<String>, default: &str) -> (r: String)
    ensures
        r@ == env_text(*raw, default@),
{
    match raw {
        Some(s) => s.clone(),
        None => default.to_owned(),
    }
}

/// The application's environment configuration.
#[derive(Debug, Clone)]
pub struct EnvConfig {
    pub api_base_url: String,
    pub api_timeout_seconds: u64,
    pub enable_project_management: bool,
    pub enable_history: bool,
    pub enable_search: bool,
    pub enable_batch_translation: bool,
    pub default_theme: String,
    pub debug_mode: bool,
}

/// The configuration made from build-time variables, each with its default.
pub open spec fn env_config_of(env: BuildEnv, c: EnvConfig) -> bool {
    &&& c.api_base_url@ == env_text(env.frontend_api_base_url, "http://localhost:3002/api/v1"@)
    &&& c.api_timeout_seconds == env_u64(env.frontend_api_timeout_seconds, 30)
    &&& c.enable_project_management == env_bool(env.enable_project_management, true)
    &&& c.enable_history == env_bool(env.enable_history, true)
    &&& c.enable_search == env_bool(env.enable_search, true)
    &&& c.enable_batch_translation == env_bool(env.enable_batch_translation, true)
    &&& c.default_theme@ == env_text(env.default_theme, "latte"@)
    &&& c.debug_mode == env_bool(env.debug_mode, true)
}

/// The configuration when no build-time variable is set.
pub open spec fn default_env_config(c: EnvConfig) -> bool {
    &&& c.api_base_url@ == "http://localhost:3002/api/v1"@
    &&& c.api_timeout_seconds == 30
    &&& c.enable_project_management
    &&& c.enable_history
    &&& c.enable_search
    &&& c.enable_batch_translation
    &&& c.default_theme@ == "latte"@
    &&& c.debug_mode
}

/// The themes the application knows.
pub open spec fn is_valid_theme(t: Seq<char>) -> bool {
    t == "latte"@ || t == "frappe"@ || t == "macchiato"@ || t == "mocha"@
}

/// Whether `t` names a known theme.
pub fn valid_theme(t: &str) -> (b: bool)
    ensures
        b == is_valid_theme(t@),
{
    let s = t.to_owned();
    s == "latte".to_owned() || s == "frappe".to_owned() || s == "macchiato".to_owned() || s == "mocha".to_owned()
}

/// Whether `s` starts with `http://` or `https://`.
pub open spec fn is_http_url(s: Seq<char>) -> bool {
    starts_with(s, "http://"@) || starts_with(s, "https://"@)
}

/// Whether `s` starts with `http://` or `https://`.
pub fn http_url(s: &str) -> (b: bool)
    ensures
        b == is_http_url(s@),
{
    let c = chars_of(s);
    starts_with_vec(&c, &chars_of("http://")) || starts_with_vec(&c, &chars_of("https://"))
}

/// The message of `validate` for a configuration: the first broken rule.
pub open spec fn env_validation(c: EnvConfig) -> Option<Seq<char>> {
    if c.api_base_url@.len() == 0 {
        Some("API基础URL不能为空"@)
    } else if !is_http_url(c.api_base_url@) {
        Some("API基础URL必须以http://或https://开头"@)
    } else if c.api_timeout_seconds == 0 {
        Some("API超时时间必须大于0"@)
    } else if c.api_timeout_seconds > 300 {
        Some("API超时时间不应超过300秒"@)
    } else if !is_valid_theme(c.default_theme@) {
        Some("无效的默认主题: "@ + c.default_theme@ + "，支持的主题: [\"latte\", \"frappe\", \"macchiato\", \"mocha\"]"@)
    } else {
        None
    }
}

/// `启用` for true, `禁用` for false.
pub open spec fn on_off(b: bool) -> Seq<char> {
    if b {
        "启用"@
    } else {
        "禁用"@
    }
}

fn on_off_str(b: bool) -> (r: &'static str)
    ensures
        r@ == on_off(b),
{
    if b {
        "启用"
    } else {
        "禁用"
    }
}

/// The summary text of a configuration.
pub open spec fn env_summary(c: EnvConfig) -> Seq<char> {
    "环境配置摘要:\n- API地址: "@ + c.api_base_url@
        + "\n- API超时: "@ + decimal(c.api_timeout_seconds as nat)
        + "秒\n- 项目管理: "@ + on_off(c.enable_project_management)
        + "\n- 历史记录: "@ + on_off(c.enable_history)
        + "\n- 搜索功能: "@ + on_off(c.enable_search)
        + "\n- 批量翻译: "@ + on_off(c.enable_batch_translation)
        + "\n- 默认主题: "@ + c.default_theme@
        + "\n- 调试模式: "@ + on_off(c.debug_mode)
}

impl EnvConfig {
    /// The configuration made from the given build-time variables.
    pub fn from_build_env(env: &BuildEnv) -> (r: EnvConfig)
        ensures
            env_config_of(*env, r),
    {
        EnvConfig {
            api_base_url: env_text_of(&env.frontend_api_base_url, "http://localhost:3002/api/v1"),
            api_timeout_seconds: parse_env_u64(&env.frontend_api_timeout_seconds, 30),
            enable_project_management: parse_env_bool(&env.enable_project_management, true),
            enable_history: parse_env_bool(&env.enable_history, true),
            enable_search: parse_env_bool(&env.enable_search, true),
            enable_batch_translation: parse_env_bool(&env.enable_batch_translation, true),
            default_theme: env_text_of(&env.default_theme, "latte"),
            debug_mode: parse_env_bool(&env.debug_mode, true),
        }
    }

    /// The configuration with no build-time variable set.
    pub fn new() -> (r: EnvConfig)
        ensures
            default_env_config(r),
    {
        EnvConfig::from_build_env(&BuildEnv::unset())
    }

    /// The application-wide configuration (the one `new` gives).
    pub fn global() -> (r: EnvConfig)
        ensures
            default_env_config(r),
    {
        EnvConfig::new()
    }

    /// `Ok` when every rule holds; otherwise the message of the first broken
    /// rule (empty URL, no `http://`/`https://`, timeout 0, timeout above 300,
    /// unknown theme).
    pub fn validate(&self) -> (r: Result<(), String>)
        ensures
            match r {
                Ok(()) => env_validation(*self) is None,
                Err(m) => env_validation(*self) == Some(m@),
            },
    {
        if self.api_base_url.as_str().is_empty() {
            return Err("API基础URL不能为空".to_owned());
        }
        if !http_url(self.api_base_url.as_str()) {
            return Err("API基础URL必须以http://或https://开头".to_owned());
        }
        if self.api_timeout_seconds == 0 {
            return Err("API超时时间必须大于0".to_owned());
        }
        if self.api_timeout_seconds > 300 {
            return Err("API超时时间不应超过300秒".to_owned());
        }
        if !valid_theme(self.default_theme.as_str()) {
            let mut m = "无效的默认主题: ".to_owned();
            push_str(&mut m, self.default_theme.as_str());
            push_str(&mut m, "，支持的主题: [\"latte\", \"frappe\", \"macchiato\", \"mocha\"]");
            return Err(m);
        }
        Ok(())
    }

    /// A summary of the configuration for debugging.
    pub fn summary(&self) -> (r: String)
        ensures
            r@ == env_summary(*self),
    {
        let mut s = "环境配置摘要:\n- API地址: ".to_owned();
        push_str(&mut s, self.api_base_url.as_str());
        push_str(&mut s, "\n- API超时: ");
        push_str(&mut s, string_of(&decimal_vec(self.api_timeout_seconds)).as_str());
        push_str(&mut s, "秒\n- 项目管理: ");
        push_str(&mut s, on_off_str(self.enable_project_management));
        push_str(&mut s, "\n- 历史记录: ");
        push_str(&mut s, on_off_str(self.enable_history));
        push_str(&mut s, "\n- 搜索功能: ");
        push_str(&mut s, on_off_str(self.enable_search));
        push_str(&mut s, "\n- 批量翻译: ");
        push_str(&mut s, on_off_str(self.enable_batch_translation));
        push_str(&mut s, "\n- 默认主题: ");
        push_str(&mut s, self.default_theme.as_str());
        push_str(&mut s, "\n- 调试模式: ");
        push_str(&mut s, on_off_str(self.debug_mode));
        s
    }
}

impl Default for EnvConfig {
    fn default() -> (r: EnvConfig)
        ensures
            default_env_config(r),
    {
        EnvConfig::new()
    }
}

/// Read access to the build-time settings, as the application was built
/// without any of the variables set.
pub struct CompileTimeEnv;

impl CompileTimeEnv {
    /// The API base URL.
    pub fn api_base_url() -> (r: &'static str)
        ensures
            r@ == "http://localhost:3002/api/v1"@,
    {
        "http://localhost:3002/api/v1"
    }

    /// The API timeout in seconds.
    pub fn api_timeout_seconds() -> (r: u64)
        ensures
            r == 30,
    {
        parse_env_u64(&None, 30)
    }

    /// Whether project management is on.
    pub fn is_project_management_enabled() -> (r: bool)
        ensures
            r,
    {
        parse_env_bool(&None, true)
    }

    /// Whether the history is on.
    pub fn is_history_enabled() -> (r: bool)
        ensures
            r,
    {
        parse_env_bool(&None, true)
    }

    /// Whether search is on.
    pub fn is_search_enabled() -> (r: bool)
        ensures
            r,
    {
        parse_env_bool(&None, true)
    }

    /// Whether batch translation is on.
    pub fn is_batch_translation_enabled() -> (r: bool)
        ensures
            r,
    {
        parse_env_bool(&None, true)
    }

    /// The default theme.
    pub fn default_theme() -> (r: &'static str)
        ensures
            r@ == "latte"@,
    {
        "latte"
    }

    /// Whether debug mode is on.
    pub fn is_debug_mode() -> (r: bool)
        ensures
            r,
    {
        parse_env_bool(&None, true)
    }
}

/// Whether the application runs as a development build.
pub struct RuntimeEnv;

impl RuntimeEnv {
    /// Development mode: debug mode is on.
    pub fn is_development() -> (r: bool)
        ensures
            r,
    {
        CompileTimeEnv::is_debug_mode()
    }

    /// Production mode: not development mode.
    pub fn is_production() -> (r: bool)
        ensures
            !r,
    {
        !RuntimeEnv::is_development()
    }

    /// The build information text.
    pub fn build_info() -> (r: String)
        ensures
            r@ == "构建信息:\n- 版本: "@ + "0.1.0"@ + "\n- 构建时间: unknown\n- 构建模式: "@
                + (if true { "开发"@ } else { "生产"@ }) + "\n- Target: wasm32-unknown-unknown"@,
    {
        let mut s = "构建信息:\n- 版本: ".to_owned();
        push_str(&mut s, "0.1.0");
        push_str(&mut s, "\n- 构建时间: unknown\n- 构建模式: ");
        push_str(&mut s, if RuntimeEnv::is_development() { "开发" } else { "生产" });
        push_str(&mut s, "\n- Target: wasm32-unknown-unknown");
        s
    }
}

} // verus!
