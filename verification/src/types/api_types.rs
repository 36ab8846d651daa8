//! The values exchanged with the translation services, and the application
//! settings.

use vstd::prelude::*;
use crate::num::{decimal, law_parse_decimal, parse_u64, parse_u64_chars};
use crate::services::file_naming_service::{FileNamingConfig, FileNamingMode};
use crate::text::chars_of;

verus! {

/// A request to the DeepLX service.
#[derive(Debug, Clone)]
pub struct DeepLXRequest {
    pub text: String,
    pub source_lang: String,
    pub target_lang: String,
}

/// A reply of the DeepLX service.
#[derive(Debug, Clone)]
pub struct DeepLXResponse {
    pub code: i32,
    pub data: String,
    pub alternatives: Vec<String>,
}

/// The application settings.
#[derive(Debug, Clone)]
pub struct AppConfig {
    pub deeplx_api_url: String,
    pub jina_api_url: String,
    pub default_source_lang: String,
    pub default_target_lang: String,
    pub max_requests_per_second: u32,
    pub max_text_length: usize,
    pub max_paragraphs_per_request: usize,
    pub file_naming: FileNamingConfig,
}

/// Stored values for the settings, as read from where the application keeps
/// them (`None` where nothing is stored).
#[derive(Debug, Clone)]
pub struct ConfigOverrides {
    pub deeplx_api_url: Option<String>,
    pub jina_api_url: Option<String>,
    pub default_source_lang: Option<String>,
    pub default_target_lang: Option<String>,
    pub max_requests_per_second: Option<String>,
    pub max_text_length: Option<String>,
    pub max_paragraphs_per_request: Option<String>,
}

/// A stored value where it is there and not empty, else the default.
pub open spec fn value_or(v: Option<String>, default: Seq<char>) -> Seq<char> {
    match v {
        Some(s) => if s@.len() > 0 { s@ } else { default },
        None => default,
    }
}

/// A number read from a setting (`str::parse`), or the fallback where it
/// does not parse or does not fit.
pub open spec fn number_or(text: Seq<char>, max: nat, fallback: nat) -> nat {
    match parse_u64(text) {
        Some(n) => if n <= max { n as nat } else { fallback },
        None => fallback,
    }
}

/// `value_or` on strings.
fn value_or_exec(v: &Option<String>, default: &str) -> (r: String)
    ensures
        r@ == value_or(*v, default@),
{
    match v {
        Some(s) => {
            if chars_of(s.as_str()).len() > 0 { s.clone() } else { default.to_owned() }
        },
        None => default.to_owned(),
    }
}

/// `number_or` on strings.
pub(crate) fn number_or_exec(text: &String, max: u64, fallback: u64) -> (r: u64)
    requires
        fallback <= max,
    ensures
        r == number_or(text@, max as nat, fallback as nat),
        r <= max,
{
    match parse_u64_chars(&chars_of(text.as_str())) {
        Some(n) => if n <= max { n } else { fallback },
        None => fallback,
    }
}

impl AppConfig {
    /// Equal settings.
    pub fn duplicate(&self) -> (r: AppConfig)
        ensures
            r == *self,
    {
        AppConfig {
            deeplx_api_url: self.deeplx_api_url.clone(),
            jina_api_url: self.jina_api_url.clone(),
            default_source_lang: self.default_source_lang.clone(),
            default_target_lang: self.default_target_lang.clone(),
            max_requests_per_second: self.max_requests_per_second,
            max_text_length: self.max_text_length,
            max_paragraphs_per_request: self.max_paragraphs_per_request,
            file_naming: self.file_naming.duplicate(),
        }
    }

    /// The settings from the stored values: each string setting from its
    /// value where it is not empty, each number where it parses and fits,
    /// else the defaults (`http://localhost:1188/translate`,
    /// `https://r.jina.ai`, `auto`, `ZH`, 10, 5000, 10), and the default file
    /// naming.
    pub fn from_overrides(o: &ConfigOverrides) -> (r: AppConfig)
        ensures
            r.deeplx_api_url@ == value_or(o.deeplx_api_url, "http://localhost:1188/translate"@),
            r.jina_api_url@ == value_or(o.jina_api_url, "https://r.jina.ai"@),
            r.default_source_lang@ == value_or(o.default_source_lang, "auto"@),
            r.default_target_lang@ == value_or(o.default_target_lang, "ZH"@),
            r.max_requests_per_second == number_or(value_or(o.max_requests_per_second, "10"@), u32::MAX as nat, 10),
            r.max_text_length == number_or(value_or(o.max_text_length, "5000"@), usize::MAX as nat, 5000),
            r.max_paragraphs_per_request == number_or(value_or(o.max_paragraphs_per_request, "10"@), usize::MAX as nat, 10),
            r.file_naming.mode == FileNamingMode::TitleWithTimestamp,
            r.file_naming.max_length == 100,
    {
        let rps = value_or_exec(&o.max_requests_per_second, "10");
        let len = value_or_exec(&o.max_text_length, "5000");
        let paras = value_or_exec(&o.max_paragraphs_per_request, "10");
        AppConfig {
            deeplx_api_url: value_or_exec(&o.deeplx_api_url, "http://localhost:1188/translate"),
            jina_api_url: value_or_exec(&o.jina_api_url, "https://r.jina.ai"),
            default_source_lang: value_or_exec(&o.default_source_lang, "auto"),
            default_target_lang: value_or_exec(&o.default_target_lang, "ZH"),
            max_requests_per_second: number_or_exec(&rps, u32::MAX as u64, 10) as u32,
            max_text_length: number_or_exec(&len, usize::MAX as u64, 5000) as usize,
            max_paragraphs_per_request: number_or_exec(&paras, usize::MAX as u64, 10) as usize,
            file_naming: FileNamingConfig::default_config(),
        }
    }
}

impl Default for AppConfig {
    /// The settings with nothing stored.
    fn default() -> (r: AppConfig)
        ensures
            r.deeplx_api_url@ == "http://localhost:1188/translate"@,
            r.jina_api_url@ == "https://r.jina.ai"@,
            r.default_source_lang@ == "auto"@,
            r.default_target_lang@ == "ZH"@,
            r.max_requests_per_second == 10,
            r.max_text_length == 5000,
            r.max_paragraphs_per_request == 10,
    {
        let o = ConfigOverrides {
            deeplx_api_url: None,
            jina_api_url: None,
            default_source_lang: None,
            default_target_lang: None,
            max_requests_per_second: None,
            max_text_length: None,
            max_paragraphs_per_request: None,
        };
        proof {
            reveal_strlit("10");
            reveal_strlit("5000");
        }
        let r = AppConfig::from_overrides(&o);
        assert("10"@ == decimal(10)) by {
            reveal_with_fuel(decimal, 3);
            assert(decimal(10) =~= seq!['1', '0']);
        }
        assert("5000"@ == decimal(5000)) by {
            reveal_with_fuel(decimal, 5);
            assert(decimal(5000) =~= seq!['5', '0', '0', '0']);
        }
        proof {
            law_parse_decimal(10);
            law_parse_decimal(5000);
        }
        r
    }
}

/// A translation request.
#[derive(Debug, Clone)]
pub struct TranslationRequest {
    pub url: String,
    pub source_lang: String,
    pub target_lang: String,
    pub config: AppConfig,
}

/// A finished translation.
#[derive(Debug, Clone)]
pub struct TranslationResult {
    pub original_url: String,
    pub title: String,
    pub content: String,
    pub source_lang: String,
    pub target_lang: String,
    pub translated_at: String,
}

} // verus!
