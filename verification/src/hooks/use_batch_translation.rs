//! The name of the archive in which a batch translation is downloaded.

use vstd::prelude::*;
use crate::components::batch_translation::{clean_domain, clean_domain_name};
use crate::services::batch_service::{BatchProgress, BatchStatus, TranslatedDocument};
use crate::types::history::{BatchDocumentInfo, BatchTranslationData};
use crate::error::app_error::AppError;
use crate::text::{
    chars_of, filter_chars, find_first, first_match, is_alphanumeric, replace, replace_vec, slice_vec, split_on,
    split_on_vec, string_of, unicode_alphanumeric,
};

verus! {

/// The host of `url` when the browser's URL parser gives no host name:
/// what follows `://` up to the first `/`, or `unknown`.
pub open spec fn fallback_domain(url: Seq<char>) -> Seq<char> {
    match first_match(url, "://"@) {
        Some(i) => {
            let after = url.subrange(i + 3, url.len() as int);
            match first_match(after, "/"@) {
                Some(e) => after.subrange(0, e),
                None => after,
            }
        },
        None => "unknown"@,
    }
}

/// The domain of the archive: the host name the browser parsed from the
/// URL where it is not empty, else `fallback_domain`.
pub open spec fn archive_domain(url: Seq<char>, hostname: Option<Seq<char>>) -> Seq<char> {
    match hostname {
        Some(h) => if h.len() > 0 { h } else { fallback_domain(url) },
        None => fallback_domain(url),
    }
}

/// A character the timestamp keeps: a letter, a digit, `_` or `-`.
pub open spec fn stamp_char(c: char) -> bool {
    unicode_alphanumeric(c) || c == '_' || c == '-'
}

/// The timestamp of the name: the kept characters of the time text, `T`
/// turned into `_`, up to the first `.`.
pub open spec fn clean_stamp(iso: Seq<char>) -> Seq<char> {
    split_on(replace(filter_chars(iso, |c: char| stamp_char(c)), "T"@, "_"@), '.')[0]
}

/// The archive name: cleaned domain, `_`, cleaned timestamp (`unknown`
/// without a time text), `.tar.gz`.
pub open spec fn archive_name(url: Seq<char>, hostname: Option<Seq<char>>, iso: Option<Seq<char>>) -> Seq<char> {
    clean_domain(archive_domain(url, hostname)) + "_"@ + clean_stamp(
        match iso {
            Some(t) => t,
            None => "unknown"@,
        },
    ) + ".tar.gz"@
}

fn opt_chars(o: &Option<String>) -> (r: Option<Vec<char>>)
    ensures
        match *o {
            Some(s) => r matches Some(v) && v@ == s@,
            None => r is None,
        },
{
    match o {
        Some(s) => Some(chars_of(s.as_str())),
        None => None,
    }
}

fn fallback(url: &[char]) -> (r: Vec<char>)
    ensures
        r@ == fallback_domain(url@),
{
    proof {
        reveal_strlit("://");
    }
    match find_first(url, &chars_of("://")) {
        Some(i) => {
            let n = url.len();
            assert(i + 3 <= n);
            let after = slice_vec(url, i + 3, n);
            match find_first(&after, &chars_of("/")) {
                Some(e) => slice_vec(&after, 0, e),
                None => after,
            }
        },
        None => chars_of("unknown"),
    }
}

fn keep_stamp_chars(s: &[char]) -> (r: Vec<char>)
    ensures
        r@ == filter_chars(s@, |c: char| stamp_char(c)),
{
    let mut r: Vec<char> = Vec::new();
    let mut i: usize = 0;
    while i < s.len()
        invariant
            i <= s@.len(),
            r@ == filter_chars(s@.take(i as int), |c: char| stamp_char(c)),
        decreases s.len() - i,
    {
        assert(s@.take(i + 1).drop_last() =~= s@.take(i as int));
        assert(s@.take(i + 1).last() == s@[i as int]);
        let c = s[i];
        if is_alphanumeric(c) || c == '_' || c == '-' {
            r.push(c);
        }
        i += 1;
    }
    assert(s@.take(s@.len() as int) =~= s@);
    r
}

/// The archive name for a batch of `url`, given the host name the
/// browser's URL parser gave (`None` where it refused the URL) and the
/// current time as ISO text (`None` where the browser gave none).
pub fn generate_archive_name(url: &str, hostname: Option<String>, iso: Option<String>) -> (r: String)
    ensures
        r@ == archive_name(url@, crate::urls::opt_view(hostname), crate::urls::opt_view(iso)),
{
    let domain: Vec<char> = match opt_chars(&hostname) {
        Some(h) => if h.len() > 0 { h } else { fallback(&chars_of(url)) },
        None => fallback(&chars_of(url)),
    };
    let clean = clean_domain_name(string_of(&domain).as_str());
    let stamp: Vec<char> = match opt_chars(&iso) {
        Some(t) => t,
        None => chars_of("unknown"),
    };
    let kept = keep_stamp_chars(&stamp);
    proof {
        reveal_strlit("T");
    }
    let replaced = replace_vec(&kept, &chars_of("T"), &chars_of("_"));
    let pieces = split_on_vec(&replaced, '.');
    let mut out = clean;
    crate::text::push_str(&mut out, "_");
    crate::text::push_str(&mut out, string_of(&pieces[0]).as_str());
    crate::text::push_str(&mut out, ".tar.gz");
    out
}

/// The domain text of `url` for a title: the host name the browser parsed
/// where it is not empty, else `fallback_domain`.
fn domain_text(url: &str, hostname: Option<String>) -> (r: Vec<char>)
    ensures
        r@ == archive_domain(url@, crate::urls::opt_view(hostname)),
{
    match opt_chars(&hostname) {
        Some(h) => if h.len() > 0 { h } else { fallback(&chars_of(url)) },
        None => fallback(&chars_of(url)),
    }
}

/// The record kept of one translated document of a batch.
pub open spec fn document_info(d: TranslatedDocument) -> BatchDocumentInfo {
    BatchDocumentInfo {
        title: d.link.title,
        url: d.link.url,
        file_name: d.file_name,
        folder_path: d.folder_path,
        order: d.link.order,
        translated: true,
        original_content: d.original_content,
        translated_content: d.translated_content,
    }
}

/// The history record of a batch run over `total` links of the index at
/// `index_url` that translated `docs`: the counts, the index address and a
/// record of each translated document, in order.
pub fn batch_history_data(index_url: &str, total: usize, docs: &Vec<TranslatedDocument>) -> (r: BatchTranslationData)
    requires
        docs@.len() <= total,
    ensures
        r.total_documents == total,
        r.successful_documents == docs@.len(),
        r.failed_documents == total - docs@.len(),
        r.index_url@ == index_url@,
        r.document_list@ == docs@.map_values(|d: TranslatedDocument| document_info(d)),
{
    let mut list: Vec<BatchDocumentInfo> = Vec::new();
    let mut i: usize = 0;
    while i < docs.len()
        invariant
            i <= docs@.len(),
            list@ == docs@.take(i as int).map_values(|d: TranslatedDocument| document_info(d)),
        decreases docs.len() - i,
    {
        let d = &docs[i];
        let info = BatchDocumentInfo {
            title: d.link.title.clone(),
            url: d.link.url.clone(),
            file_name: d.file_name.clone(),
            folder_path: d.folder_path.clone(),
            order: d.link.order,
            translated: true,
            original_content: d.original_content.clone(),
            translated_content: d.translated_content.clone(),
        };
        assert(info == document_info(docs@[i as int]));
        list.push(info);
        assert(docs@.take(i + 1) =~= docs@.take(i as int).push(docs@[i as int]));
        assert(list@ =~= docs@.take(i + 1).map_values(|d: TranslatedDocument| document_info(d)));
        i += 1;
    }
    assert(docs@.take(docs@.len() as int) =~= docs@);
    BatchTranslationData {
        total_documents: total,
        successful_documents: docs.len(),
        failed_documents: total - docs.len(),
        index_url: index_url.to_owned(),
        document_list: list,
    }
}

/// The title of a batch's history record: `批量翻译: ` and the domain of the
/// first translated document (`archive_domain`, with the host name the
/// browser parsed from its address), or `未知网站` where none was translated.
pub fn batch_history_title(docs: &Vec<TranslatedDocument>, first_hostname: Option<String>) -> (r: String)
    ensures
        r@ == "批量翻译: "@ + if docs@.len() > 0 {
            archive_domain(docs@[0].link.url@, crate::urls::opt_view(first_hostname))
        } else {
            "未知网站"@
        },
{
    let mut out = "批量翻译: ".to_owned();
    if docs.len() > 0 {
        let d = domain_text(docs[0].link.url.as_str(), first_hostname);
        crate::text::push_str(&mut out, string_of(&d).as_str());
    } else {
        crate::text::push_str(&mut out, "未知网站");
    }
    out
}

/// The stages of a batch run whose progress the page shows.
#[derive(Debug, Clone)]
pub enum BatchStage {
    /// The run was asked for.
    Starting,
    /// The index page is being read.
    ParsingIndex,
    /// The `n` translated documents are being packed.
    Packaging(usize),
    /// The `n` translated documents were packed and offered for download.
    Completed(usize),
    /// A stage failed with this message.
    Failed(String),
}

/// The progress shown for a stage (documents translated one by one report
/// their own progress).
pub open spec fn stage_progress_spec(stage: BatchStage, p: BatchProgress) -> bool {
    match stage {
        BatchStage::Starting => p.total == 0 && p.completed == 0 && p.current_task@ == "开始处理..."@
            && p.failed_count == 0 && p.status is Parsing,
        BatchStage::ParsingIndex => p.total == 0 && p.completed == 0 && p.current_task@ == "正在解析文档索引..."@
            && p.failed_count == 0 && p.status is Parsing,
        BatchStage::Packaging(n) => p.total == n && p.completed == n && p.current_task@ == "正在打包文件..."@
            && p.failed_count == 0 && p.status is Packaging,
        BatchStage::Completed(n) => p.total == n && p.completed == n && p.current_task@ == "批量翻译完成"@
            && p.failed_count == 0 && p.status is Completed,
        BatchStage::Failed(m) => p.total == 0 && p.completed == 0 && p.current_task@ == m@
            && p.failed_count == 0 && p.status == BatchStatus::Failed(m),
    }
}

/// The progress shown for `stage`.
pub fn stage_progress(stage: BatchStage) -> (r: BatchProgress)
    ensures
        stage_progress_spec(stage, r),
{
    match stage {
        BatchStage::Starting => BatchProgress {
            total: 0,
            completed: 0,
            current_task: "开始处理...".to_owned(),
            failed_count: 0,
            status: BatchStatus::Parsing,
        },
        BatchStage::ParsingIndex => BatchProgress {
            total: 0,
            completed: 0,
            current_task: "正在解析文档索引...".to_owned(),
            failed_count: 0,
            status: BatchStatus::Parsing,
        },
        BatchStage::Packaging(n) => BatchProgress {
            total: n,
            completed: n,
            current_task: "正在打包文件...".to_owned(),
            failed_count: 0,
            status: BatchStatus::Packaging,
        },
        BatchStage::Completed(n) => BatchProgress {
            total: n,
            completed: n,
            current_task: "批量翻译完成".to_owned(),
            failed_count: 0,
            status: BatchStatus::Completed,
        },
        BatchStage::Failed(m) => BatchProgress {
            total: 0,
            completed: 0,
            current_task: m.clone(),
            failed_count: 0,
            status: BatchStatus::Failed(m),
        },
    }
}

/// The stage of a batch run that failed.
#[derive(Debug, Clone, Copy, PartialEq, Eq, Structural)]
pub enum BatchFailure {
    /// The service settings could not be loaded.
    Config,
    /// The index page could not be read.
    Index,
    /// The documents could not be translated.
    Translation,
    /// The archive could not be made.
    Packaging,
}

/// The message shown for a failed stage: what failed, `: `, and the cause.
pub open spec fn failure_message(kind: BatchFailure, cause: Seq<char>) -> Seq<char> {
    failure_prefix(kind) + cause
}

/// What a failed stage's message starts with.
pub open spec fn failure_prefix(kind: BatchFailure) -> Seq<char> {
    match kind {
        BatchFailure::Config => "配置加载失败: "@,
        BatchFailure::Index => "索引解析失败: "@,
        BatchFailure::Translation => "批量翻译失败: "@,
        BatchFailure::Packaging => "打包失败: "@,
    }
}

impl BatchFailure {
    /// The message shown for this failure with `cause`.
    pub fn message(&self, cause: &str) -> (r: String)
        ensures
            r@ == failure_message(*self, cause@),
    {
        let mut s = match self {
            BatchFailure::Config => "配置加载失败: ".to_owned(),
            BatchFailure::Index => "索引解析失败: ".to_owned(),
            BatchFailure::Translation => "批量翻译失败: ".to_owned(),
            BatchFailure::Packaging => "打包失败: ".to_owned(),
        };
        crate::text::push_str(&mut s, cause);
        s
    }

    /// The error reported for this failure with `cause`: a configuration,
    /// extraction, translation or file error carrying the message.
    pub fn error(&self, cause: &str) -> (r: AppError)
        ensures
            match *self {
                BatchFailure::Config => r matches AppError::ConfigError { message } && message@ == failure_message(*self, cause@),
                BatchFailure::Index => r matches AppError::ExtractionError { message } && message@ == failure_message(*self, cause@),
                BatchFailure::Translation => r matches AppError::TranslationError { message } && message@ == failure_message(*self, cause@),
                BatchFailure::Packaging => r matches AppError::FileError { message } && message@ == failure_message(*self, cause@),
            },
    {
        let m = self.message(cause);
        match self {
            BatchFailure::Config => AppError::ConfigError { message: m },
            BatchFailure::Index => AppError::ExtractionError { message: m },
            BatchFailure::Translation => AppError::TranslationError { message: m },
            BatchFailure::Packaging => AppError::FileError { message: m },
        }
    }
}

} // verus!
