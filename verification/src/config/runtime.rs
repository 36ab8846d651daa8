//! Settings that can change while the application runs, and the whole
//! configuration made of environment, feature switches and these settings.

use vstd::prelude::*;
use crate::config::env::{
    default_env_config, env_summary, env_validation, http_url, is_http_url, is_valid_theme,
    on_off, valid_theme, EnvConfig,
};
use crate::config::features::{
    default_on, feature_at, feature_index, flags_summary, json_update, Feature, FeatureFlags, FEATURE_COUNT,
};
use crate::num::{decimal, decimal_vec, is_digit};
use crate::text::{
    chars_of, find_first, first_match, push_str, slice_vec, starts_with, starts_with_vec,
    string_of, trim_start,
};

verus! {

/// Settings that can change while the application runs.
#[derive(Debug, Clone, PartialEq)]
pub struct RuntimeConfig {
    pub current_theme: String,
    pub api_base_url: String,
    pub api_timeout_seconds: u64,
    pub auto_save_enabled: bool,
    pub auto_save_interval: u64,
    pub max_file_size_mb: u32,
    pub keyboard_shortcuts_enabled: bool,
    pub notifications_enabled: bool,
    pub language: String,
    pub timezone: String,
}

/// The settings that do not come from the environment, at their defaults.
pub open spec fn runtime_fixed_defaults(c: RuntimeConfig) -> bool {
    &&& c.auto_save_enabled
    &&& c.auto_save_interval == 30
    &&& c.max_file_size_mb == 10
    &&& c.keyboard_shortcuts_enabled
    &&& c.notifications_enabled
    &&& c.language@ == "zh-CN"@
    &&& c.timezone@ == "Asia/Shanghai"@
}

/// The settings made from an environment configuration: its theme, API
/// address and timeout, and the defaults for the rest.
pub open spec fn runtime_from_env(env: EnvConfig, c: RuntimeConfig) -> bool {
    &&& c.current_theme@ == env.default_theme@
    &&& c.api_base_url@ == env.api_base_url@
    &&& c.api_timeout_seconds == env.api_timeout_seconds
    &&& runtime_fixed_defaults(c)
}

/// The default settings: those made from the default environment.
pub open spec fn default_runtime(c: RuntimeConfig) -> bool {
    &&& c.current_theme@ == "latte"@
    &&& c.api_base_url@ == "http://localhost:3002/api/v1"@
    &&& c.api_timeout_seconds == 30
    &&& runtime_fixed_defaults(c)
}

/// The message for an API address and timeout, if one of them is refused.
pub open spec fn api_validation(url: Seq<char>, timeout: u64) -> Option<Seq<char>> {
    if url.len() == 0 {
        Some("API基础URL不能为空"@)
    } else if !is_http_url(url) {
        Some("API基础URL格式无效"@)
    } else if timeout == 0 || timeout > 300 {
        Some("API超时时间应在1-300秒之间"@)
    } else {
        None
    }
}

/// The message for an unknown theme.
pub open spec fn bad_theme_message(t: Seq<char>) -> Seq<char> {
    "无效的主题: "@ + t
}

/// The message for the checked settings, if one of them is refused: the
/// API address and timeout, the auto-save interval, the file limit and the
/// theme, in that order.
pub open spec fn runtime_rules(url: Seq<char>, timeout: u64, interval: u64, max_mb: u32, theme: Seq<char>) -> Option<Seq<char>> {
    if api_validation(url, timeout) is Some {
        api_validation(url, timeout)
    } else if interval < 5 || interval > 300 {
        Some("自动保存间隔应在5-300秒之间"@)
    } else if max_mb == 0 || max_mb > 100 {
        Some("文件大小限制应在1-100MB之间"@)
    } else if !is_valid_theme(theme) {
        Some(bad_theme_message(theme))
    } else {
        None
    }
}

/// The message of `validate`: the first broken rule, if any.
pub open spec fn runtime_validation(c: RuntimeConfig) -> Option<Seq<char>> {
    runtime_rules(c.api_base_url@, c.api_timeout_seconds, c.auto_save_interval, c.max_file_size_mb, c.current_theme@)
}

fn check_api(url: &str, timeout: u64) -> (r: Result<(), String>)
    ensures
        match r {
            Ok(()) => api_validation(url@, timeout) is None,
            Err(m) => api_validation(url@, timeout) == Some(m@),
        },
{
    if url.is_empty() {
        return Err("API基础URL不能为空".to_owned());
    }
    if !http_url(url) {
        return Err("API基础URL格式无效".to_owned());
    }
    if timeout == 0 || timeout > 300 {
        return Err("API超时时间应在1-300秒之间".to_owned());
    }
    Ok(())
}

fn bad_theme(t: &str) -> (r: String)
    ensures
        r@ == bad_theme_message(t@),
{
    let mut m = "无效的主题: ".to_owned();
    push_str(&mut m, t);
    m
}

impl RuntimeConfig {
    /// The default settings.
    pub fn new() -> (r: RuntimeConfig)
        ensures
            default_runtime(r),
    {
        RuntimeConfig::from_env(&EnvConfig::global())
    }

    /// The settings made from an environment configuration.
    pub fn from_env(env_config: &EnvConfig) -> (r: RuntimeConfig)
        ensures
            runtime_from_env(*env_config, r),
    {
        RuntimeConfig {
            current_theme: env_config.default_theme.clone(),
            api_base_url: env_config.api_base_url.clone(),
            api_timeout_seconds: env_config.api_timeout_seconds,
            auto_save_enabled: true,
            auto_save_interval: 30,
            max_file_size_mb: 10,
            keyboard_shortcuts_enabled: true,
            notifications_enabled: true,
            language: "zh-CN".to_owned(),
            timezone: "Asia/Shanghai".to_owned(),
        }
    }

    /// `Ok` when every rule holds (an `http://` or `https://` API address,
    /// a timeout of 1 to 300 seconds, an auto-save interval of 5 to 300
    /// seconds, a file limit of 1 to 100 MB, a known theme); otherwise the
    /// message of the first broken rule.
    pub fn validate(&self) -> (r: Result<(), String>)
        ensures
            match r {
                Ok(()) => runtime_validation(*self) is None,
                Err(m) => runtime_validation(*self) == Some(m@),
            },
    {
        check_api(self.api_base_url.as_str(), self.api_timeout_seconds)?;
        if self.auto_save_interval < 5 || self.auto_save_interval > 300 {
            return Err("自动保存间隔应在5-300秒之间".to_owned());
        }
        if self.max_file_size_mb == 0 || self.max_file_size_mb > 100 {
            return Err("文件大小限制应在1-100MB之间".to_owned());
        }
        if !valid_theme(self.current_theme.as_str()) {
            return Err(bad_theme(self.current_theme.as_str()));
        }
        Ok(())
    }

    /// Switches to `theme` if it is a known theme; otherwise refuses it and
    /// changes nothing.
    pub fn set_theme(&mut self, theme: String) -> (r: Result<(), String>)
        ensures
            is_valid_theme(theme@) ==> r is Ok && *final(self) == (RuntimeConfig {
                current_theme: theme,
                ..*old(self)
            }),
            !is_valid_theme(theme@) ==> (r matches Err(m) && m@ == bad_theme_message(theme@))
                && *final(self) == *old(self),
    {
        if !valid_theme(theme.as_str()) {
            return Err(bad_theme(theme.as_str()));
        }
        self.current_theme = theme;
        Ok(())
    }

    /// Sets the API address and timeout if both are accepted; otherwise
    /// refuses them with the message of the first broken rule and changes
    /// nothing.
    pub fn update_api_config(&mut self, base_url: String, timeout_seconds: u64) -> (r: Result<(), String>)
        ensures
            match api_validation(base_url@, timeout_seconds) {
                None => r is Ok && *final(self) == (RuntimeConfig {
                    api_base_url: base_url,
                    api_timeout_seconds: timeout_seconds,
                    ..*old(self)
                }),
                Some(m) => (r matches Err(e) && e@ == m) && *final(self) == *old(self),
            },
    {
        match check_api(base_url.as_str(), timeout_seconds) {
            Err(e) => Err(e),
            Ok(()) => {
                self.api_base_url = base_url;
                self.api_timeout_seconds = timeout_seconds;
                Ok(())
            },
        }
    }
}

impl Default for RuntimeConfig {
    fn default() -> (r: RuntimeConfig)
        ensures
            default_runtime(r),
    {
        RuntimeConfig::new()
    }
}

/// `true` or `false`.
pub open spec fn bool_text(b: bool) -> Seq<char> {
    if b {
        "true"@
    } else {
        "false"@
    }
}

fn bool_str(b: bool) -> (r: &'static str)
    ensures
        r@ == bool_text(b),
{
    if b {
        "true"
    } else {
        "false"
    }
}

fn push_decimal(s: &mut String, n: u64)
    ensures
        final(s)@ == old(s)@ + decimal(n as nat),
{
    push_str(s, string_of(&decimal_vec(n)).as_str());
}

/// The settings as a JSON object, one field per line.
pub open spec fn runtime_json(c: RuntimeConfig) -> Seq<char> {
    "{\n                \"current_theme\": \""@ + c.current_theme@
        + "\",\n                \"api_base_url\": \""@ + c.api_base_url@
        + "\",\n                \"api_timeout_seconds\": "@ + decimal(c.api_timeout_seconds as nat)
        + ",\n                \"auto_save_enabled\": "@ + bool_text(c.auto_save_enabled)
        + ",\n                \"auto_save_interval\": "@ + decimal(c.auto_save_interval as nat)
        + ",\n                \"max_file_size_mb\": "@ + decimal(c.max_file_size_mb as nat)
        + ",\n                \"keyboard_shortcuts_enabled\": "@ + bool_text(c.keyboard_shortcuts_enabled)
        + ",\n                \"notifications_enabled\": "@ + bool_text(c.notifications_enabled)
        + ",\n                \"language\": \""@ + c.language@
        + "\",\n                \"timezone\": \""@ + c.timezone@
        + "\"\n            }"@
}

/// The summary text of the settings.
pub open spec fn runtime_summary(c: RuntimeConfig) -> Seq<char> {
    "运行时配置:\n- 当前主题: "@ + c.current_theme@
        + "\n- API地址: "@ + c.api_base_url@
        + "\n- API超时: "@ + decimal(c.api_timeout_seconds as nat)
        + "秒\n- 自动保存: "@ + on_off(c.auto_save_enabled)
        + " ("@ + decimal(c.auto_save_interval as nat)
        + "秒间隔)\n- 文件大小限制: "@ + decimal(c.max_file_size_mb as nat)
        + "MB\n- 键盘快捷键: "@ + on_off(c.keyboard_shortcuts_enabled)
        + "\n- 通知: "@ + on_off(c.notifications_enabled)
        + "\n- 语言: "@ + c.language@
        + "\n- 时区: "@ + c.timezone@
}

fn on_off_text(b: bool) -> (r: &'static str)
    ensures
        r@ == on_off(b),
{
    if b {
        "启用"
    } else {
        "禁用"
    }
}

impl RuntimeConfig {
    /// The settings as a JSON object.
    pub fn to_json(&self) -> (r: String)
        ensures
            r@ == runtime_json(*self),
    {
        let mut s = "{\n                \"current_theme\": \"".to_owned();
        push_str(&mut s, self.current_theme.as_str());
        push_str(&mut s, "\",\n                \"api_base_url\": \"");
        push_str(&mut s, self.api_base_url.as_str());
        push_str(&mut s, "\",\n                \"api_timeout_seconds\": ");
        push_decimal(&mut s, self.api_timeout_seconds);
        push_str(&mut s, ",\n                \"auto_save_enabled\": ");
        push_str(&mut s, bool_str(self.auto_save_enabled));
        push_str(&mut s, ",\n                \"auto_save_interval\": ");
        push_decimal(&mut s, self.auto_save_interval);
        push_str(&mut s, ",\n                \"max_file_size_mb\": ");
        push_decimal(&mut s, self.max_file_size_mb as u64);
        push_str(&mut s, ",\n                \"keyboard_shortcuts_enabled\": ");
        push_str(&mut s, bool_str(self.keyboard_shortcuts_enabled));
        push_str(&mut s, ",\n                \"notifications_enabled\": ");
        push_str(&mut s, bool_str(self.notifications_enabled));
        push_str(&mut s, ",\n                \"language\": \"");
        push_str(&mut s, self.language.as_str());
        push_str(&mut s, "\",\n                \"timezone\": \"");
        push_str(&mut s, self.timezone.as_str());
        push_str(&mut s, "\"\n            }");
        s
    }

    /// A summary of the settings.
    pub fn summary(&self) -> (r: String)
        ensures
            r@ == runtime_summary(*self),
    {
        let mut s = "运行时配置:\n- 当前主题: ".to_owned();
        push_str(&mut s, self.current_theme.as_str());
        push_str(&mut s, "\n- API地址: ");
        push_str(&mut s, self.api_base_url.as_str());
        push_str(&mut s, "\n- API超时: ");
        push_decimal(&mut s, self.api_timeout_seconds);
        push_str(&mut s, "秒\n- 自动保存: ");
        push_str(&mut s, on_off_text(self.auto_save_enabled));
        push_str(&mut s, " (");
        push_decimal(&mut s, self.auto_save_interval);
        push_str(&mut s, "秒间隔)\n- 文件大小限制: ");
        push_decimal(&mut s, self.max_file_size_mb as u64);
        push_str(&mut s, "MB\n- 键盘快捷键: ");
        push_str(&mut s, on_off_text(self.keyboard_shortcuts_enabled));
        push_str(&mut s, "\n- 通知: ");
        push_str(&mut s, on_off_text(self.notifications_enabled));
        push_str(&mut s, "\n- 语言: ");
        push_str(&mut s, self.language.as_str());
        push_str(&mut s, "\n- 时区: ");
        push_str(&mut s, self.timezone.as_str());
        s
    }
}

// ---------------------------------------------------------------------------
// Reading settings back from JSON text.
// ---------------------------------------------------------------------------

/// The text `"key":` that introduces a field.
pub open spec fn key_pattern(key: Seq<char>) -> Seq<char> {
    seq!['"'] + key + seq!['"', ':']
}

/// What follows the first `"key":` in `json`, if it occurs.
pub open spec fn after_key(json: Seq<char>, key: Seq<char>) -> Option<Seq<char>> {
    match first_match(json, key_pattern(key)) {
        Some(i) => Some(json.subrange(i + key_pattern(key).len(), json.len() as int)),
        None => None,
    }
}

/// The text between the first two double quotes after `"key":`.
pub open spec fn json_string_value(json: Seq<char>, key: Seq<char>) -> Option<Seq<char>> {
    match after_key(json, key) {
        Some(rest) => match first_match(rest, seq!['"']) {
            Some(q) => {
                let tail = rest.subrange(q + 1, rest.len() as int);
                match first_match(tail, seq!['"']) {
                    Some(e) => Some(tail.subrange(0, e)),
                    None => None,
                }
            },
            None => None,
        },
        None => None,
    }
}

/// A character a number may be written with: a digit or a point.
pub open spec fn number_char(c: char) -> bool {
    is_digit(c) || c == '.'
}

/// The longest prefix of `s` made of digits and points.
pub open spec fn number_prefix(s: Seq<char>) -> Seq<char>
    decreases s.len(),
{
    if s.len() > 0 && number_char(s[0]) {
        seq![s[0]] + number_prefix(s.subrange(1, s.len() as int))
    } else {
        Seq::empty()
    }
}

/// The digits and points that follow `"key":` and any whitespace, if there
/// is at least one.
pub open spec fn json_number_text(json: Seq<char>, key: Seq<char>) -> Option<Seq<char>> {
    match after_key(json, key) {
        Some(rest) => {
            let p = number_prefix(trim_start(rest));
            if p.len() > 0 {
                Some(p)
            } else {
                None
            }
        },
        None => None,
    }
}

/// `true` or `false` written after `"key":` and any whitespace.
pub open spec fn json_bool_value(json: Seq<char>, key: Seq<char>) -> Option<bool> {
    match after_key(json, key) {
        Some(rest) => {
            let t = trim_start(rest);
            if starts_with(t, "true"@) {
                Some(true)
            } else if starts_with(t, "false"@) {
                Some(false)
            } else {
                None
            }
        },
        None => None,
    }
}

fn after_key_chars(json: &[char], key: &[char]) -> (r: Option<Vec<char>>)
    ensures
        match r {
            Some(v) => after_key(json@, key@) == Some(v@),
            None => after_key(json@, key@) is None,
        },
{
    let mut pat: Vec<char> = vec!['"'];
    let mut i: usize = 0;
    while i < key.len()
        invariant
            i <= key@.len(),
            pat@ == seq!['"'] + key@.take(i as int),
        decreases key.len() - i,
    {
        pat.push(key[i]);
        i += 1;
        assert(pat@ =~= seq!['"'] + key@.take(i as int));
    }
    pat.push('"');
    pat.push(':');
    assert(key@.take(key@.len() as int) =~= key@);
    assert(pat@ =~= key_pattern(key@));
    match find_first(json, &pat) {
        Some(st) => {
            let n = json.len();
            assert(st + pat@.len() <= n);
            let from = st + pat.len();
            Some(slice_vec(json, from, json.len()))
        },
        None => None,
    }
}

fn string_value_chars(json: &[char], key: &[char]) -> (r: Option<Vec<char>>)
    ensures
        match r {
            Some(v) => json_string_value(json@, key@) == Some(v@),
            None => json_string_value(json@, key@) is None,
        },
{
    let rest = match after_key_chars(json, key) {
        Some(v) => v,
        None => return None,
    };
    let quote: Vec<char> = vec!['"'];
    assert(quote@ =~= seq!['"']);
    let q = match find_first(&rest, &quote) {
        Some(q) => q,
        None => return None,
    };
    let n = rest.len();
    assert(q + quote@.len() <= n);
    let tail = slice_vec(&rest, q + 1, rest.len());
    match find_first(&tail, &quote) {
        Some(e) => Some(slice_vec(&tail, 0, e)),
        None => None,
    }
}

fn is_number_char(c: char) -> (b: bool)
    ensures
        b == number_char(c),
{
    c == '0' || c == '1' || c == '2' || c == '3' || c == '4' || c == '5' || c == '6' || c == '7'
        || c == '8' || c == '9' || c == '.'
}

fn number_prefix_chars(s: &[char]) -> (r: Vec<char>)
    ensures
        r@ == number_prefix(s@),
{
    let mut i: usize = 0;
    assert(s@.subrange(0, s@.len() as int) =~= s@);
    while i < s.len() && is_number_char(s[i])
        invariant
            i <= s@.len(),
            number_prefix(s@) == s@.subrange(0, i as int) + number_prefix(s@.subrange(i as int, s@.len() as int)),
        decreases s.len() - i,
    {
        let ghost t = s@.subrange(i as int, s@.len() as int);
        assert(t.subrange(1, t.len() as int) =~= s@.subrange(i + 1, s@.len() as int));
        assert(s@.subrange(0, i + 1) =~= s@.subrange(0, i as int) + seq![t[0]]);
        i += 1;
    }
    assert(number_prefix(s@.subrange(i as int, s@.len() as int)) =~= Seq::<char>::empty());
    assert(number_prefix(s@) =~= s@.subrange(0, i as int));
    slice_vec(s, 0, i)
}

fn number_text_chars(json: &[char], key: &[char]) -> (r: Option<Vec<char>>)
    ensures
        match r {
            Some(v) => json_number_text(json@, key@) == Some(v@),
            None => json_number_text(json@, key@) is None,
        },
{
    let rest = match after_key_chars(json, key) {
        Some(v) => v,
        None => return None,
    };
    let k = crate::text::skip_ws_start(&rest);
    let t = slice_vec(&rest, k, rest.len());
    let p = number_prefix_chars(&t);
    if p.len() > 0 {
        Some(p)
    } else {
        None
    }
}

fn bool_value_chars(json: &[char], key: &[char]) -> (r: Option<bool>)
    ensures
        r == json_bool_value(json@, key@),
{
    let rest = match after_key_chars(json, key) {
        Some(v) => v,
        None => return None,
    };
    let k = crate::text::skip_ws_start(&rest);
    let t = slice_vec(&rest, k, rest.len());
    if starts_with_vec(&t, &chars_of("true")) {
        Some(true)
    } else if starts_with_vec(&t, &chars_of("false")) {
        Some(false)
    } else {
        None
    }
}

/// The text of the string field `key` of `json`, as `json_string_value`
/// states it.
pub fn extract_json_string_value(json: &str, key: &str) -> (r: Option<String>)
    ensures
        match r {
            Some(v) => json_string_value(json@, key@) == Some(v@),
            None => json_string_value(json@, key@) is None,
        },
{
    match string_value_chars(&chars_of(json), &chars_of(key)) {
        Some(v) => Some(string_of(&v)),
        None => None,
    }
}

/// The digits and points of the number field `key` of `json`, as
/// `json_number_text` states it.
pub fn extract_json_number_text(json: &str, key: &str) -> (r: Option<String>)
    ensures
        match r {
            Some(v) => json_number_text(json@, key@) == Some(v@),
            None => json_number_text(json@, key@) is None,
        },
{
    match number_text_chars(&chars_of(json), &chars_of(key)) {
        Some(v) => Some(string_of(&v)),
        None => None,
    }
}

/// The boolean field `key` of `json`, as `json_bool_value` states it.
pub fn extract_json_bool_value(json: &str, key: &str) -> (r: Option<bool>)
    ensures
        r == json_bool_value(json@, key@),
{
    bool_value_chars(&chars_of(json), &chars_of(key))
}

/// `v`'s text, or `d` where there is none.
pub open spec fn text_or(v: Option<Seq<char>>, d: Seq<char>) -> Seq<char> {
    match v {
        Some(t) => t,
        None => d,
    }
}

/// `v`'s number, or `d` where there is none.
pub open spec fn number_or(v: Option<u64>, d: u64) -> u64 {
    match v {
        Some(n) => n,
        None => d,
    }
}

/// `v`'s value, or `d` where there is none.
pub open spec fn bool_or(v: Option<bool>, d: bool) -> bool {
    match v {
        Some(b) => b,
        None => d,
    }
}

/// The settings read from `json`: the default settings, with the theme,
/// API address and auto-save switch found in the text, and the timeout and
/// auto-save interval given as the values of its number fields.
pub open spec fn json_settings(json: Seq<char>, timeout: Option<u64>, interval: Option<u64>, c: RuntimeConfig) -> bool {
    &&& c.current_theme@ == text_or(json_string_value(json, "current_theme"@), "latte"@)
    &&& c.api_base_url@ == text_or(json_string_value(json, "api_base_url"@), "http://localhost:3002/api/v1"@)
    &&& c.api_timeout_seconds == number_or(timeout, 30)
    &&& c.auto_save_enabled == bool_or(json_bool_value(json, "auto_save_enabled"@), true)
    &&& c.auto_save_interval == number_or(interval, 30)
    &&& c.max_file_size_mb == 10
    &&& c.keyboard_shortcuts_enabled
    &&& c.notifications_enabled
    &&& c.language@ == "zh-CN"@
    &&& c.timezone@ == "Asia/Shanghai"@
}

/// The message for the settings read from `json`, if they are refused.
pub open spec fn json_settings_validation(json: Seq<char>, timeout: Option<u64>, interval: Option<u64>) -> Option<Seq<char>> {
    runtime_rules(
        text_or(json_string_value(json, "api_base_url"@), "http://localhost:3002/api/v1"@),
        number_or(timeout, 30),
        number_or(interval, 30),
        10,
        text_or(json_string_value(json, "current_theme"@), "latte"@),
    )
}

impl RuntimeConfig {
    /// Reads settings back from JSON text: starts from the defaults and takes
    /// the fields `current_theme`, `api_base_url` and `auto_save_enabled`
    /// found in `json`; `timeout` and `interval` are the values of the
    /// number fields `api_timeout_seconds` and `auto_save_interval`, as read
    /// from the texts that `extract_json_number_text` finds (`None` where it
    /// finds none). The result is refused, with the message of `validate`,
    /// unless it is valid.
    pub fn from_json(json: &str, timeout: Option<u64>, interval: Option<u64>) -> (r: Result<RuntimeConfig, String>)
        ensures
            (r is Ok) == (json_settings_validation(json@, timeout, interval) is None),
            r matches Ok(c) ==> json_settings(json@, timeout, interval, c),
            r matches Err(m) ==> json_settings_validation(json@, timeout, interval) == Some(m@),
    {
        let j = chars_of(json);
        let mut config = RuntimeConfig::new();
        if let Some(theme) = string_value_chars(&j, &chars_of("current_theme")) {
            config.current_theme = string_of(&theme);
        }
        if let Some(url) = string_value_chars(&j, &chars_of("api_base_url")) {
            config.api_base_url = string_of(&url);
        }
        if let Some(t) = timeout {
            config.api_timeout_seconds = t;
        }
        if let Some(enabled) = bool_value_chars(&j, &chars_of("auto_save_enabled")) {
            config.auto_save_enabled = enabled;
        }
        if let Some(v) = interval {
            config.auto_save_interval = v;
        }
        match config.validate() {
            Ok(()) => Ok(config),
            Err(e) => Err(e),
        }
    }
}

// ---------------------------------------------------------------------------
// The whole configuration.
// ---------------------------------------------------------------------------

/// The environment configuration, the feature switches and the runtime
/// settings together.
#[derive(Debug, Clone)]
pub struct AppConfig {
    pub env: EnvConfig,
    pub features: FeatureFlags,
    pub runtime: RuntimeConfig,
}

/// The default switch of each feature, by position.
pub open spec fn default_flag_states() -> Seq<bool> {
    Seq::new(FEATURE_COUNT as nat, |k: int| default_on(feature_at(k)))
}

/// The message of `AppConfig::validate`: that of the environment
/// configuration, else that of the runtime settings.
pub open spec fn app_validation(c: AppConfig) -> Option<Seq<char>> {
    if env_validation(c.env) is Some {
        env_validation(c.env)
    } else {
        runtime_validation(c.runtime)
    }
}

/// The full report: the three summaries under a heading.
pub open spec fn app_report(c: AppConfig) -> Seq<char> {
    "=== 应用配置报告 ===\n\n"@ + env_summary(c.env) + "\n\n"@ + flags_summary(c.features.states())
        + "\n\n"@ + runtime_summary(c.runtime)
}

fn default_flags() -> (r: FeatureFlags)
    ensures
        r.wf(),
        r.states() == default_flag_states(),
        forall|f: Feature| #[trigger] r.on(f) == default_on(f),
{
    let r = FeatureFlags::new();
    assert forall|k: int| 0 <= k < FEATURE_COUNT implies #[trigger] r.states()[k] == default_flag_states()[k] by {
        assert(feature_index(feature_at(k)) == k);
        assert(r.on(feature_at(k)) == default_on(feature_at(k)));
    }
    assert(r.states() =~= default_flag_states()) by {
        assert(r.states().len() == FEATURE_COUNT) by {
            r.lemma_len();
        }
    }
    r
}

impl AppConfig {
    /// The switches hold one state per feature.
    pub open spec fn wf(&self) -> bool {
        self.features.wf()
    }

    /// The default configuration: the global environment configuration,
    /// the default switches and the settings made from that environment.
    pub fn new() -> (r: AppConfig)
        ensures
            r.wf(),
            default_env_config(r.env),
            r.features.states() == default_flag_states(),
            runtime_from_env(r.env, r.runtime),
    {
        let env = EnvConfig::global();
        let features = default_flags();
        let runtime = RuntimeConfig::from_env(&env);
        AppConfig { env, features, runtime }
    }

    /// The configuration loaded from storage: the stored runtime settings
    /// where there are valid ones, else those made from the environment;
    /// the stored switches applied to the defaults where their text is
    /// accepted, else the defaults.
    pub fn from_stored(runtime: Option<RuntimeConfig>, features_json: Option<&str>) -> (r: AppConfig)
        ensures
            r.wf(),
            default_env_config(r.env),
            match runtime {
                Some(c) => r.runtime == c,
                None => runtime_from_env(r.env, r.runtime),
            },
            r.features.states() == match features_json {
                Some(j) => match json_update(default_flag_states(), j@) {
                    Some(s) => s,
                    None => default_flag_states(),
                },
                None => default_flag_states(),
            },
    {
        AppConfig::from_env_and_stored(EnvConfig::global(), runtime, features_json)
    }

    /// The configuration over the environment configuration `env` (the one
    /// the build's variables give), loaded from storage as `from_stored`
    /// says.
    pub fn from_env_and_stored(env: EnvConfig, runtime: Option<RuntimeConfig>, features_json: Option<&str>) -> (r: AppConfig)
        ensures
            r.wf(),
            r.env == env,
            match runtime {
                Some(c) => r.runtime == c,
                None => runtime_from_env(env, r.runtime),
            },
            r.features.states() == match features_json {
                Some(j) => match json_update(default_flag_states(), j@) {
                    Some(s) => s,
                    None => default_flag_states(),
                },
                None => default_flag_states(),
            },
    {
        let features = default_flags();
        let runtime = match runtime {
            Some(c) => c,
            None => RuntimeConfig::from_env(&env),
        };
        let mut config = AppConfig { env, features, runtime };
        if let Some(j) = features_json {
            let _ = config.features.from_json(j);
        }
        config
    }

    /// Back to the default switches and the settings made from the
    /// environment; the environment configuration stays.
    pub fn reset_to_defaults(&mut self)
        requires
            old(self).wf(),
        ensures
            final(self).wf(),
            final(self).env == old(self).env,
            final(self).features.states() == default_flag_states(),
            runtime_from_env(old(self).env, final(self).runtime),
    {
        self.features = default_flags();
        self.runtime = RuntimeConfig::from_env(&self.env);
    }

    /// `Ok` when both the environment configuration and the runtime settings
    /// are valid; otherwise the first message.
    pub fn validate(&self) -> (r: Result<(), String>)
        ensures
            match r {
                Ok(()) => app_validation(*self) is None,
                Err(m) => app_validation(*self) == Some(m@),
            },
    {
        self.env.validate()?;
        self.runtime.validate()?;
        Ok(())
    }

    /// Whether `feature` is switched on.
    pub fn is_feature_available(&self, feature: &Feature) -> (r: bool)
        requires
            self.wf(),
        ensures
            r == self.features.on(*feature),
    {
        self.features.is_enabled(feature)
    }

    /// The full configuration report.
    pub fn full_report(&self) -> (r: String)
        requires
            self.wf(),
        ensures
            r@ == app_report(*self),
    {
        let mut s = "=== 应用配置报告 ===\n\n".to_owned();
        push_str(&mut s, self.env.summary().as_str());
        push_str(&mut s, "\n\n");
        push_str(&mut s, self.features.summary().as_str());
        push_str(&mut s, "\n\n");
        push_str(&mut s, self.runtime.summary().as_str());
        s
    }
}

impl Default for AppConfig {
    fn default() -> (r: AppConfig)
        ensures
            r.wf(),
            default_env_config(r.env),
            r.features.states() == default_flag_states(),
            runtime_from_env(r.env, r.runtime),
    {
        AppConfig::new()
    }
}

} // verus!
