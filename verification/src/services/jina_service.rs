//! Page extraction through the Jina reader: the address asked and what its
//! reply means.

use vstd::prelude::*;
use crate::text::push_str;
use crate::types::api_types::AppConfig;

verus! {

/// The reader's address for a page: the reader's base address, `/`, then
/// the page's URL.
pub fn jina_url(config: &AppConfig, url: &str) -> (r: String)
    ensures
        r@ == config.jina_api_url@ + "/"@ + url@,
{
    let mut s = config.jina_api_url.clone();
    push_str(&mut s, "/");
    push_str(&mut s, url);
    s
}

/// The page's text from the reader's reply: `status_ok` says whether the
/// HTTP status was a success and `status` is its text; `body` is the
/// reply's text or the error met reading it. An empty page is refused.
pub open spec fn jina_outcome(status_ok: bool, status: Seq<char>, body: Result<Seq<char>, Seq<char>>) -> Result<Seq<char>, Seq<char>> {
    if status_ok {
        match body {
            Ok(t) => if t.len() == 0 {
                Err("Jina API返回了空内容，URL可能无效或无法访问"@)
            } else {
                Ok(t)
            },
            Err(e) => Err("读取响应内容失败: "@ + e),
        }
    } else {
        let text = match body {
            Ok(t) => t,
            Err(_) => "无法读取错误信息"@,
        };
        Err("Jina API请求失败: "@ + status + " - "@ + text)
    }
}

/// The page's text from the reader's reply, as `jina_outcome` states it.
pub fn jina_reply(status_ok: bool, status: &str, body: Result<String, String>) -> (r: Result<String, String>)
    ensures
        crate::services::deeplx_service::result_view(r) == jina_outcome(
            status_ok,
            status@,
            crate::services::deeplx_service::result_view(body),
        ),
{
    if status_ok {
        match body {
            Ok(t) => {
                if t.as_str().is_empty() {
                    Err("Jina API返回了空内容，URL可能无效或无法访问".to_owned())
                } else {
                    Ok(t)
                }
            },
            Err(e) => {
                let mut m = "读取响应内容失败: ".to_owned();
                push_str(&mut m, e.as_str());
                Err(m)
            },
        }
    } else {
        let mut m = "Jina API请求失败: ".to_owned();
        push_str(&mut m, status);
        push_str(&mut m, " - ");
        match &body {
            Ok(t) => push_str(&mut m, t.as_str()),
            Err(_) => push_str(&mut m, "无法读取错误信息"),
        }
        Err(m)
    }
}

} // verus!
