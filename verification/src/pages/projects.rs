//! The project form of the projects page, and how a project's languages are
//! shown.

use vstd::prelude::*;
use crate::services::api_client::{CreateProjectRequest, UpdateProjectRequest};
use crate::text::{chars_of, eq_chars, push_str, string_of, trim, trim_vec};

verus! {

/// The description a form field gives: the trimmed text, or none where it is
/// blank.
pub open spec fn form_description(description: Seq<char>) -> Option<Seq<char>> {
    if trim(description).len() == 0 {
        None
    } else {
        Some(trim(description))
    }
}

/// The message for a form without a name.
pub open spec fn missing_name_message() -> Seq<char> {
    "项目名称不能为空"@
}

/// The trimmed name and description of the form; `None` for the name where
/// it is blank.
fn form_fields(name: &str, description: &str) -> (r: (Option<String>, Option<String>))
    ensures
        match r.0 {
            Some(n) => trim(name@).len() > 0 && n@ == trim(name@),
            None => trim(name@).len() == 0,
        },
        crate::urls::opt_view(r.1) == form_description(description@),
{
    let n = trim_vec(&chars_of(name));
    let d = trim_vec(&chars_of(description));
    let name_out = if n.len() == 0 { None } else { Some(string_of(&n)) };
    let desc_out = if d.len() == 0 { None } else { Some(string_of(&d)) };
    (name_out, desc_out)
}

/// A request to create a project from the form: the trimmed name, the
/// trimmed description where it is not blank, and the languages chosen;
/// refused where the name is blank.
pub fn create_project_request(
    name: &str,
    description: &str,
    source_language: String,
    target_language: String,
) -> (r: Result<CreateProjectRequest, String>)
    ensures
        match r {
            Ok(q) => {
                &&& trim(name@).len() > 0
                &&& q.name@ == trim(name@)
                &&& crate::urls::opt_view(q.description) == form_description(description@)
                &&& q.source_language == source_language
                &&& q.target_language == target_language
            },
            Err(e) => trim(name@).len() == 0 && e@ == missing_name_message(),
        },
{
    let (n, d) = form_fields(name, description);
    match n {
        Some(n) => Ok(CreateProjectRequest { name: n, description: d, source_language, target_language }),
        None => Err("项目名称不能为空".to_owned()),
    }
}

/// A request to change a project from the form, as `create_project_request`.
pub fn update_project_request(
    name: &str,
    description: &str,
    source_language: String,
    target_language: String,
) -> (r: Result<UpdateProjectRequest, String>)
    ensures
        match r {
            Ok(q) => {
                &&& trim(name@).len() > 0
                &&& q.name@ == trim(name@)
                &&& crate::urls::opt_view(q.description) == form_description(description@)
                &&& q.source_language == source_language
                &&& q.target_language == target_language
            },
            Err(e) => trim(name@).len() == 0 && e@ == missing_name_message(),
        },
{
    let (n, d) = form_fields(name, description);
    match n {
        Some(n) => Ok(UpdateProjectRequest { name: n, description: d, source_language, target_language }),
        None => Err("项目名称不能为空".to_owned()),
    }
}

/// The name shown for a target language code; the code itself where it is
/// not one of those named.
pub open spec fn language_name(code: Seq<char>) -> Seq<char> {
    if code == "zh"@ {
        "中文"@
    } else if code == "en"@ {
        "英文"@
    } else if code == "ja"@ {
        "日文"@
    } else if code == "ko"@ {
        "韩文"@
    } else if code == "fr"@ {
        "法文"@
    } else if code == "de"@ {
        "德文"@
    } else if code == "es"@ {
        "西班牙文"@
    } else if code == "it"@ {
        "意大利文"@
    } else if code == "ru"@ {
        "俄文"@
    } else {
        code
    }
}

/// How a project's languages are shown: the source (`自动检测` for `auto`),
/// an arrow, and the target's name.
pub open spec fn language_pair(source: Seq<char>, target: Seq<char>) -> Seq<char> {
    (if source == "auto"@ { "自动检测"@ } else { source }) + " → "@ + language_name(target)
}

/// The name shown for a target language code (`language_name`).
pub fn target_language_name(code: &str) -> (r: String)
    ensures
        r@ == language_name(code@),
{
    let c = chars_of(code);
    if eq_chars(&c, &chars_of("zh")) {
        "中文".to_owned()
    } else if eq_chars(&c, &chars_of("en")) {
        "英文".to_owned()
    } else if eq_chars(&c, &chars_of("ja")) {
        "日文".to_owned()
    } else if eq_chars(&c, &chars_of("ko")) {
        "韩文".to_owned()
    } else if eq_chars(&c, &chars_of("fr")) {
        "法文".to_owned()
    } else if eq_chars(&c, &chars_of("de")) {
        "德文".to_owned()
    } else if eq_chars(&c, &chars_of("es")) {
        "西班牙文".to_owned()
    } else if eq_chars(&c, &chars_of("it")) {
        "意大利文".to_owned()
    } else if eq_chars(&c, &chars_of("ru")) {
        "俄文".to_owned()
    } else {
        code.to_owned()
    }
}

/// How a project's languages are shown (`language_pair`).
pub fn language_pair_label(source: &str, target: &str) -> (r: String)
    ensures
        r@ == language_pair(source@, target@),
{
    let mut s = if eq_chars(&chars_of(source), &chars_of("auto")) { "自动检测".to_owned() } else { source.to_owned() };
    push_str(&mut s, " → ");
    push_str(&mut s, target_language_name(target).as_str());
    s
}

} // verus!
