//! Translating one page: where it stands, what it shows, what a failure
//! reports, and the title given to the page.

use vstd::prelude::*;
use crate::text::{
    chars_of, eq_pred, lines, lines_vec, slice_vec, strip_start, string_of, trim, trim_vec, utf8_len,
    utf8_prefix_len, views,
};

use crate::error::app_error::AppError;

verus! {

/// The title a line offers: the line trimmed, if it is longer than 10 and
/// shorter than 200 bytes, without its leading `#` marks and trimmed again,
/// if anything is left.
pub open spec fn title_candidate(line: Seq<char>) -> Option<Seq<char>> {
    let t = trim(line);
    if t.len() > 0 && utf8_len(t) > 10 && utf8_len(t) < 200 {
        let title = trim(strip_start(t, eq_pred('#')));
        if title.len() > 0 {
            Some(title)
        } else {
            None
        }
    } else {
        None
    }
}

/// The first title offered by the lines of `ls` from position `i` on.
pub open spec fn first_title_from(ls: Seq<Seq<char>>, i: int) -> Option<Seq<char>>
    decreases ls.len() - i,
{
    if i < 0 || i >= ls.len() {
        None
    } else {
        match title_candidate(ls[i]) {
            Some(t) => Some(t),
            None => first_title_from(ls, i + 1),
        }
    }
}

/// The title of a text: the first title offered by one of its first five
/// lines; otherwise its first 50 characters trimmed, followed by `...`;
/// `无标题` when that is empty.
pub open spec fn content_title(content: Seq<char>) -> Seq<char> {
    let ls = lines(content);
    let head = ls.take(if ls.len() < 5 { ls.len() as int } else { 5 });
    match first_title_from(head, 0) {
        Some(t) => t,
        None => {
            let p = trim(content.take(if content.len() < 50 { content.len() as int } else { 50 }));
            if p.len() == 0 {
                "无标题"@
            } else {
                p + "..."@
            }
        },
    }
}

fn strip_hashes(t: &[char]) -> (r: Vec<char>)
    ensures
        r@ == strip_start(t@, eq_pred('#')),
{
    let n = t.len();
    let mut i: usize = 0;
    assert(t@.subrange(0, n as int) =~= t@);
    while i < n && t[i] == '#'
        invariant
            i <= n,
            n == t@.len(),
            strip_start(t@, eq_pred('#')) == strip_start(t@.subrange(i as int, n as int), eq_pred('#')),
        decreases n - i,
    {
        proof {
            crate::text::lemma_strip_start_step(t@, eq_pred('#'), i as int);
        }
        i += 1;
    }
    let ghost rest = t@.subrange(i as int, n as int);
    assert(rest.len() > 0 ==> rest[0] == t@[i as int]);
    slice_vec(t, i, n)
}

fn candidate(line: &[char]) -> (r: Option<Vec<char>>)
    ensures
        match r {
            Some(v) => title_candidate(line@) == Some(v@),
            None => title_candidate(line@) is None,
        },
{
    let t = trim_vec(line);
    if t.len() == 0 {
        return None;
    }
    let bytes = utf8_prefix_len(&t, t.len());
    assert(t@.take(t@.len() as int) =~= t@);
    if bytes > 10 && bytes < 200 {
        let title = trim_vec(&strip_hashes(&t));
        if title.len() > 0 {
            return Some(title);
        }
    }
    None
}

/// The title of `content`, as `content_title` states it.
pub fn extract_title_from_content(content: &str) -> (r: String)
    ensures
        r@ == content_title(content@),
{
    let c = chars_of(content);
    let ls = lines_vec(&c);
    let m: usize = if ls.len() < 5 { ls.len() } else { 5 };
    let ghost head = views(ls@).take(m as int);
    assert(c@ == content@);
    assert(views(ls@) == lines(content@));
    let mut i: usize = 0;
    while i < m
        invariant
            i <= m,
            m <= ls@.len(),
            head == views(ls@).take(m as int),
            views(ls@) == lines(content@),
            m == if ls@.len() < 5 { ls@.len() } else { 5 },
            first_title_from(head, 0) == first_title_from(head, i as int),
        decreases m - i,
    {
        assert(head[i as int] == ls@[i as int]@);
        match candidate(&ls[i]) {
            Some(t) => {
                assert(first_title_from(head, i as int) == Some(t@));
                return string_of(&t);
            },
            None => {},
        }
        i += 1;
    }
    let k: usize = if c.len() < 50 { c.len() } else { 50 };
    let p = trim_vec(&slice_vec(&c, 0, k));
    assert(c@.subrange(0, k as int) =~= c@.take(k as int));
    if p.len() == 0 {
        "无标题".to_owned()
    } else {
        let mut s = string_of(&p);
        crate::text::push_str(&mut s, "...");
        s
    }
}

/// Where the translation of a page stands.
#[derive(Clone, Debug)]
pub enum TranslationStatus {
    Idle,
    ExtractingContent,
    Translating,
    Completed,
    Failed(String),
}

/// The progress line shown for a status: nothing when idle or failed.
pub open spec fn status_text(status: TranslationStatus) -> Seq<char> {
    match status {
        TranslationStatus::ExtractingContent => "正在提取网页内容..."@,
        TranslationStatus::Translating => "正在翻译内容..."@,
        TranslationStatus::Completed => "翻译完成"@,
        _ => ""@,
    }
}

impl TranslationStatus {
    /// The progress line shown for the status (`status_text`).
    pub fn progress_text(&self) -> (r: &'static str)
        ensures
            r@ == status_text(*self),
    {
        match self {
            TranslationStatus::ExtractingContent => "正在提取网页内容...",
            TranslationStatus::Translating => "正在翻译内容...",
            TranslationStatus::Completed => "翻译完成",
            _ => "",
        }
    }
}

/// The step of a page translation that failed.
#[derive(Debug, Clone, Copy, PartialEq, Eq, Structural)]
pub enum TranslationFailure {
    /// The service settings could not be loaded.
    Config,
    /// The page's content could not be read.
    Extraction,
    /// The content could not be translated.
    Translation,
}

/// The message of a failed step: what failed, the cause, and for the
/// services what to check.
pub open spec fn translation_failure_message(kind: TranslationFailure, cause: Seq<char>) -> Seq<char> {
    match kind {
        TranslationFailure::Config => "配置加载失败: "@ + cause,
        TranslationFailure::Extraction => "内容提取失败: "@ + cause + "。请检查URL是否有效，或Jina API是否可用。"@,
        TranslationFailure::Translation => "翻译失败: "@ + cause + "。请检查DeepLX API配置。"@,
    }
}

impl TranslationFailure {
    /// The message of this failure with `cause`.
    pub fn message(&self, cause: &str) -> (r: String)
        ensures
            r@ == translation_failure_message(*self, cause@),
    {
        match self {
            TranslationFailure::Config => {
                let mut s = "配置加载失败: ".to_owned();
                crate::text::push_str(&mut s, cause);
                s
            },
            TranslationFailure::Extraction => {
                let mut s = "内容提取失败: ".to_owned();
                crate::text::push_str(&mut s, cause);
                crate::text::push_str(&mut s, "。请检查URL是否有效，或Jina API是否可用。");
                s
            },
            TranslationFailure::Translation => {
                let mut s = "翻译失败: ".to_owned();
                crate::text::push_str(&mut s, cause);
                crate::text::push_str(&mut s, "。请检查DeepLX API配置。");
                s
            },
        }
    }

    /// The status and the error of this failure with `cause`: failed with
    /// the message, reported as a configuration, extraction or translation
    /// error carrying it.
    pub fn outcome(&self, cause: &str) -> (r: (TranslationStatus, AppError))
        ensures
            r.0 matches TranslationStatus::Failed(m) && m@ == translation_failure_message(*self, cause@),
            match *self {
                TranslationFailure::Config => r.1 matches AppError::ConfigError { message }
                    && message@ == translation_failure_message(*self, cause@),
                TranslationFailure::Extraction => r.1 matches AppError::ExtractionError { message }
                    && message@ == translation_failure_message(*self, cause@),
                TranslationFailure::Translation => r.1 matches AppError::TranslationError { message }
                    && message@ == translation_failure_message(*self, cause@),
            },
    {
        let m = self.message(cause);
        let e = match self {
            TranslationFailure::Config => AppError::ConfigError { message: m.clone() },
            TranslationFailure::Extraction => AppError::ExtractionError { message: m.clone() },
            TranslationFailure::Translation => AppError::TranslationError { message: m.clone() },
        };
        (TranslationStatus::Failed(m), e)
    }
}

} // verus!
