//! The backend API's data and the addresses of its endpoints. The requests
//! themselves are sent by the application.

use vstd::prelude::*;
use crate::config::env::{default_env_config, EnvConfig};
use crate::num::{decimal, decimal_vec};
use crate::text::{push_str, string_of};

verus! {

/// Where the backend API is and how long to wait for it.
#[derive(Clone, Debug)]
pub struct ApiConfig {
    pub base_url: String,
    pub timeout_seconds: u64,
}

impl ApiConfig {
    /// The API settings of an environment configuration.
    pub fn from_env(env_config: &EnvConfig) -> (r: ApiConfig)
        ensures
            r.base_url@ == env_config.api_base_url@,
            r.timeout_seconds == env_config.api_timeout_seconds,
    {
        ApiConfig { base_url: env_config.api_base_url.clone(), timeout_seconds: env_config.api_timeout_seconds }
    }
}

impl Default for ApiConfig {
    fn default() -> (r: ApiConfig)
        ensures
            r.base_url@ == "http://localhost:3002/api/v1"@,
            r.timeout_seconds == 30,
    {
        let env = EnvConfig::global();
        ApiConfig::from_env(&env)
    }
}

/// The full URL of an endpoint: the base URL followed by the endpoint path.
pub fn build_url(config: &ApiConfig, endpoint: &str) -> (r: String)
    ensures
        r@ == config.base_url@ + endpoint@,
{
    let mut s = config.base_url.clone();
    push_str(&mut s, endpoint);
    s
}

/// The value of the `Authorization` header for a token.
pub fn bearer(token: &str) -> (r: String)
    ensures
        r@ == "Bearer "@ + token@,
{
    let mut s = "Bearer ".to_owned();
    push_str(&mut s, token);
    s
}

/// The query string of the history endpoint: `page=…` and `per_page=…` for
/// the values given, joined by `&`, after a `?` when there is any.
pub open spec fn history_query(page: Option<u32>, per_page: Option<u32>) -> Seq<char> {
    match (page, per_page) {
        (None, None) => seq![],
        (Some(p), None) => "?page="@ + decimal(p as nat),
        (None, Some(pp)) => "?per_page="@ + decimal(pp as nat),
        (Some(p), Some(pp)) => "?page="@ + decimal(p as nat) + "&per_page="@ + decimal(pp as nat),
    }
}

/// The URL of the translation history endpoint with its query.
pub fn history_url(config: &ApiConfig, page: Option<u32>, per_page: Option<u32>) -> (r: String)
    ensures
        r@ == config.base_url@ + "/translations/history"@ + history_query(page, per_page),
{
    let mut url = build_url(config, "/translations/history");
    match page {
        Some(p) => {
            push_str(&mut url, "?page=");
            push_str(&mut url, string_of(&decimal_vec(p as u64)).as_str());
            match per_page {
                Some(pp) => {
                    push_str(&mut url, "&per_page=");
                    push_str(&mut url, string_of(&decimal_vec(pp as u64)).as_str());
                },
                None => {},
            }
        },
        None => match per_page {
            Some(pp) => {
                push_str(&mut url, "?per_page=");
                push_str(&mut url, string_of(&decimal_vec(pp as u64)).as_str());
            },
            None => {},
        },
    }
    url
}

/// A login request.
#[derive(Debug, Clone)]
pub struct LoginRequest {
    pub email: String,
    pub password: String,
}

/// A registration request.
#[derive(Debug, Clone)]
pub struct RegisterRequest {
    pub username: String,
    pub email: String,
    pub password: String,
}

/// A user as the backend describes it.
#[derive(Debug, Clone)]
pub struct UserProfile {
    pub id: String,
    pub username: String,
    pub email: String,
    pub is_active: bool,
    pub created_at: String,
    pub last_login_at: Option<String>,
}

/// The answer to a login.
#[derive(Debug, Clone)]
pub struct LoginResponse {
    pub access_token: String,
    pub refresh_token: String,
    pub expires_in: i64,
    pub user: UserProfile,
}

/// An error reported by the backend.
#[derive(Debug, Clone)]
pub struct ApiError {
    pub code: u16,
    pub message: String,
}

/// The backend's envelope around a result.
#[derive(Debug, Clone)]
pub struct ApiResponse<T> {
    pub data: Option<T>,
    pub error: Option<ApiError>,
    pub timestamp: String,
}

/// A request to translate the page at a URL.
#[derive(Debug, Clone)]
pub struct TranslateUrlRequest {
    pub url: String,
    pub source_language: String,
    pub target_language: String,
    pub project_id: Option<String>,
}

/// A stored translation.
#[derive(Debug, Clone)]
pub struct TranslationResponse {
    pub id: String,
    pub url: String,
    pub title: Option<String>,
    pub original_content: String,
    pub translated_content: String,
    pub source_language: String,
    pub target_language: String,
    pub translation_time_ms: Option<i32>,
    pub created_at: String,
}

/// A page of stored translations.
#[derive(Debug, Clone)]
pub struct TranslationListResponse {
    pub translations: Vec<TranslationResponse>,
    pub total: i64,
    pub page: u32,
    pub per_page: u32,
    pub total_pages: u32,
}

/// A request to create a project.
#[derive(Debug, Clone)]
pub struct CreateProjectRequest {
    pub name: String,
    pub description: Option<String>,
    pub source_language: String,
    pub target_language: String,
}

/// A request to change a project.
#[derive(Debug, Clone)]
pub struct UpdateProjectRequest {
    pub name: String,
    pub description: Option<String>,
    pub source_language: String,
    pub target_language: String,
}

/// A project as the backend returns it after a change.
#[derive(Debug, Clone)]
pub struct ProjectResponse {
    pub id: i64,
    pub name: String,
    pub description: Option<String>,
    pub source_language: String,
    pub target_language: String,
    pub is_active: bool,
    pub translation_count: i64,
    pub created_at: String,
    pub updated_at: String,
}

/// A search over stored translations.
#[derive(Debug, Clone)]
pub struct SearchRequest {
    pub query: String,
    pub page: Option<u32>,
    pub per_page: Option<u32>,
    pub project_id: Option<String>,
    pub source_language: Option<String>,
    pub target_language: Option<String>,
}

/// The user's settings as the backend stores them.
#[derive(Debug, Clone)]
pub struct UserConfigResponse {
    pub deeplx_api_url: Option<String>,
    pub jina_api_url: String,
    pub default_source_lang: String,
    pub default_target_lang: String,
    pub max_requests_per_second: i32,
    pub max_text_length: i32,
    pub max_paragraphs_per_request: i32,
    pub updated_at: String,
}

/// A change to the user's settings.
#[derive(Debug, Clone)]
pub struct UpdateUserConfigRequest {
    pub deeplx_api_url: Option<String>,
    pub jina_api_url: Option<String>,
    pub default_source_lang: Option<String>,
    pub default_target_lang: Option<String>,
    pub max_requests_per_second: Option<i32>,
    pub max_text_length: Option<i32>,
    pub max_paragraphs_per_request: Option<i32>,
}

// ---------------------------------------------------------------------------
// Endpoint addresses, headers and failure messages of the requests.
// ---------------------------------------------------------------------------

/// A byte that percent-encoding leaves as it is: an ASCII letter or digit,
/// `-`, `.`, `_` or `~`.
pub open spec fn safe_byte(b: u8) -> bool {
    ||| 0x30 <= b <= 0x39
    ||| 0x41 <= b <= 0x5a
    ||| 0x61 <= b <= 0x7a
    ||| b == 0x2d
    ||| b == 0x2e
    ||| b == 0x5f
    ||| b == 0x7e
}

/// An uppercase hexadecimal digit.
pub open spec fn hex_digit(d: int) -> char {
    if d < 10 {
        (0x30 + d) as char
    } else {
        (0x41 - 10 + d) as char
    }
}

/// One byte percent-encoded: itself where it is safe, else `%` and its two
/// hexadecimal digits.
pub open spec fn encode_byte(b: u8) -> Seq<char> {
    if safe_byte(b) {
        seq![b as char]
    } else {
        seq!['%', hex_digit(b as int / 16), hex_digit(b as int % 16)]
    }
}

/// Bytes percent-encoded one after the other.
pub open spec fn percent_encode_bytes(bs: Seq<u8>) -> Seq<char>
    decreases bs.len(),
{
    if bs.len() == 0 {
        seq![]
    } else {
        percent_encode_bytes(bs.drop_last()) + encode_byte(bs.last())
    }
}

/// The percent-encoding of a text: that of the bytes of its UTF-8 form.
pub open spec fn percent_encoded(s: Seq<char>) -> Seq<char> {
    percent_encode_bytes(vstd::utf8::encode_utf8(s))
}

/// A character that percent-encoding leaves as it is: an ASCII letter or
/// digit, `-`, `.`, `_` or `~`.
pub open spec fn url_safe(c: char) -> bool {
    ('0' <= c && c <= '9') || ('A' <= c && c <= 'Z') || ('a' <= c && c <= 'z') || c == '-' || c == '.' || c == '_'
        || c == '~'
}

/// Calls `urlencoding::encode`, which percent-encodes every byte of the
/// text's UTF-8 form except ASCII letters, digits, `-`, `.`, `_` and `~`.
/// (`percent_encoded`); a text made only of such characters comes back
/// unchanged.
#[verifier::external_body]
fn url_encode(s: &str) -> (r: String)
    ensures
        r@ == percent_encoded(s@),
        (forall|i: int| 0 <= i < s@.len() ==> url_safe(#[trigger] s@[i])) ==> r@ == s@,
{
    urlencoding::encode(s).into_owned()
}

/// `&name=value` for a value that is there.
pub open spec fn text_param(name: Seq<char>, v: Option<String>) -> Seq<char> {
    match v {
        Some(x) => "&"@ + name + "="@ + x@,
        None => seq![],
    }
}

/// `&name=number` for a number that is there.
pub open spec fn number_param(name: Seq<char>, v: Option<u32>) -> Seq<char> {
    match v {
        Some(n) => "&"@ + name + "="@ + decimal(n as nat),
        None => seq![],
    }
}

/// The query of a search: the encoded query text, then the page, page
/// size, project and languages that are given, unencoded.
pub open spec fn search_query(r: SearchRequest) -> Seq<char> {
    "?query="@ + percent_encoded(r.query@) + number_param("page"@, r.page) + number_param("per_page"@, r.per_page)
        + text_param("project_id"@, r.project_id) + text_param("source_language"@, r.source_language)
        + text_param("target_language"@, r.target_language)
}

fn push_text_param(url: &mut String, name: &str, v: &Option<String>)
    ensures
        final(url)@ == old(url)@ + text_param(name@, *v),
{
    match v {
        Some(x) => {
            push_str(url, "&");
            push_str(url, name);
            push_str(url, "=");
            push_str(url, x.as_str());
        },
        None => {},
    }
}

fn push_number_param(url: &mut String, name: &str, v: Option<u32>)
    ensures
        final(url)@ == old(url)@ + number_param(name@, v),
{
    match v {
        Some(n) => {
            push_str(url, "&");
            push_str(url, name);
            push_str(url, "=");
            push_str(url, string_of(&decimal_vec(n as u64)).as_str());
        },
        None => {},
    }
}

/// The URL of a search over stored translations.
pub fn search_url(config: &ApiConfig, request: &SearchRequest) -> (r: String)
    ensures
        r@ == config.base_url@ + "/search"@ + search_query(*request),
{
    let mut url = build_url(config, "/search");
    push_str(&mut url, "?query=");
    push_str(&mut url, url_encode(request.query.as_str()).as_str());
    push_number_param(&mut url, "page", request.page);
    push_number_param(&mut url, "per_page", request.per_page);
    push_text_param(&mut url, "project_id", &request.project_id);
    push_text_param(&mut url, "source_language", &request.source_language);
    push_text_param(&mut url, "target_language", &request.target_language);
    url
}

/// The URL that asks for search suggestions: the encoded query and the
/// limit, if one is given.
pub fn suggestions_url(config: &ApiConfig, query: &str, limit: Option<u32>) -> (r: String)
    ensures
        r@ == config.base_url@ + "/search/suggestions"@ + "?query="@ + percent_encoded(query@) + number_param("limit"@, limit),
{
    let mut url = build_url(config, "/search/suggestions");
    push_str(&mut url, "?query=");
    push_str(&mut url, url_encode(query).as_str());
    push_number_param(&mut url, "limit", limit);
    url
}

/// The URL of one stored translation.
pub fn translation_url(config: &ApiConfig, translation_id: &str) -> (r: String)
    ensures
        r@ == config.base_url@ + "/translations/history/"@ + translation_id@,
{
    let mut url = build_url(config, "/translations/history/");
    push_str(&mut url, translation_id);
    url
}

/// The URL of one project.
pub fn project_url(config: &ApiConfig, project_id: i64) -> (r: String)
    ensures
        r@ == config.base_url@ + "/projects/"@ + crate::num::signed_decimal(project_id as int),
{
    let mut url = build_url(config, "/projects/");
    push_str(&mut url, string_of(&crate::num::signed_decimal_vec(project_id)).as_str());
    url
}

/// The URL of the project list with its page query.
pub fn projects_url(config: &ApiConfig, page: Option<u32>, per_page: Option<u32>) -> (r: String)
    ensures
        r@ == config.base_url@ + "/projects"@ + history_query(page, per_page),
{
    let mut url = build_url(config, "/projects");
    match page {
        Some(p) => {
            push_str(&mut url, "?page=");
            push_str(&mut url, string_of(&decimal_vec(p as u64)).as_str());
            match per_page {
                Some(pp) => {
                    push_str(&mut url, "&per_page=");
                    push_str(&mut url, string_of(&decimal_vec(pp as u64)).as_str());
                },
                None => {},
            }
        },
        None => match per_page {
            Some(pp) => {
                push_str(&mut url, "?per_page=");
                push_str(&mut url, string_of(&decimal_vec(pp as u64)).as_str());
            },
            None => {},
        },
    }
    url
}

/// The headers of every request: JSON content, and the bearer token where
/// the user is signed in.
pub fn auth_headers(token: Option<&str>) -> (r: Vec<(String, String)>)
    ensures
        r@.len() == if token is Some { 2int } else { 1int },
        r@[0].0@ == "Content-Type"@ && r@[0].1@ == "application/json"@,
        token matches Some(t) ==> r@[1].0@ == "Authorization"@ && r@[1].1@ == "Bearer "@ + t@,
{
    let mut h: Vec<(String, String)> = Vec::new();
    h.push(("Content-Type".to_owned(), "application/json".to_owned()));
    if let Some(t) = token {
        h.push(("Authorization".to_owned(), bearer(t)));
    }
    h
}

/// The message of a request the server refused: what failed, then the
/// server's text, or `未知错误` where it could not be read.
pub fn failure_message(action: &str, body: Option<String>) -> (r: String)
    ensures
        r@ == action@ + ": "@ + match body {
            Some(b) => b@,
            None => "未知错误"@,
        },
{
    let mut m = action.to_owned();
    push_str(&mut m, ": ");
    match body {
        Some(b) => push_str(&mut m, b.as_str()),
        None => push_str(&mut m, "未知错误"),
    }
    m
}

} // verus!
