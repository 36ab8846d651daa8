//! Entries of the translation history.

use vstd::prelude::*;
use crate::ids::{is_hyphenated_uuid, new_uuid_string};
use crate::num::{decimal, decimal_vec};
use crate::text::{
    append_slice, byte_to_char_index, chars_of, char_index_at, split_ws, split_ws_vec, string_of,
    utf8_len, utf8_len_upto,
};

verus! {

/// One translation kept in the history.
#[derive(Debug, Clone)]
pub struct HistoryEntry {
    pub id: String,
    pub url: String,
    pub title: String,
    pub source_lang: String,
    pub target_lang: String,
    pub original_content: String,
    pub translated_content: String,
    /// When it was made, as an ISO 8601 string.
    pub created_at: String,
    pub word_count: usize,
    pub entry_type: HistoryEntryType,
    pub batch_data: Option<BatchTranslationData>,
}

/// The kind an entry has when stored data does not say.
pub fn default_entry_type() -> (r: HistoryEntryType)
    ensures
        r == HistoryEntryType::SinglePage,
{
    HistoryEntryType::SinglePage
}

/// Whether an entry is one page or a whole batch.
#[derive(Debug, Clone, Copy, PartialEq, Eq, Structural)]
pub enum HistoryEntryType {
    SinglePage,
    BatchTranslation,
}

/// What a batch translation produced.
#[derive(Debug, Clone)]
pub struct BatchTranslationData {
    pub total_documents: usize,
    pub successful_documents: usize,
    pub failed_documents: usize,
    pub index_url: String,
    pub document_list: Vec<BatchDocumentInfo>,
}

/// One document of a batch translation.
#[derive(Debug, Clone)]
pub struct BatchDocumentInfo {
    pub title: String,
    pub url: String,
    pub file_name: String,
    pub folder_path: String,
    pub order: usize,
    pub translated: bool,
    pub original_content: String,
    pub translated_content: String,
}

impl BatchDocumentInfo {
    /// A copy equal to `self`.
    pub fn duplicate(&self) -> (r: BatchDocumentInfo)
        ensures
            r == *self,
    {
        BatchDocumentInfo {
            title: self.title.clone(),
            url: self.url.clone(),
            file_name: self.file_name.clone(),
            folder_path: self.folder_path.clone(),
            order: self.order,
            translated: self.translated,
            original_content: self.original_content.clone(),
            translated_content: self.translated_content.clone(),
        }
    }
}

/// The number of whitespace-separated words of `s`.
pub open spec fn word_count_of(s: Seq<char>) -> nat {
    split_ws(s).len()
}

/// The words of the original contents of `docs`, added up.
pub open spec fn total_words(docs: Seq<BatchDocumentInfo>) -> nat
    decreases docs.len(),
{
    if docs.len() == 0 {
        0
    } else {
        total_words(docs.drop_last()) + word_count_of(docs.last().original_content@)
    }
}

/// The original-content line of a batch entry.
pub open spec fn batch_original_line(total: nat) -> Seq<char> {
    "批量翻译 "@ + decimal(total) + " 个文档"@
}

/// The translated-content line of a batch entry.
pub open spec fn batch_result_line(ok: nat, failed: nat) -> Seq<char> {
    "成功: "@ + decimal(ok) + ", 失败: "@ + decimal(failed)
}

/// The title as a summary shows it: cut to its first 47 bytes and `...`
/// when it has more than 50 bytes.
pub open spec fn summary_title(title: Seq<char>) -> Seq<char> {
    if utf8_len(title) > 50 {
        title.take(char_index_at(title, 47).unwrap()) + "..."@
    } else {
        title
    }
}

/// `title (source -> target)`.
pub open spec fn summary_spec(title: Seq<char>, source: Seq<char>, target: Seq<char>) -> Seq<char> {
    summary_title(title) + " ("@ + source + " -> "@ + target + ")"@
}

/// The number of words of `s`.
fn count_words(s: &String) -> (n: usize)
    ensures
        n == word_count_of(s@),
{
    let v = chars_of(s.as_str());
    let w = split_ws_vec(&v);
    w.len()
}

impl HistoryEntry {
    /// A new single-page entry with a fresh id, made at `created_at`.
    pub fn new_single_page(
        url: String,
        title: String,
        source_lang: String,
        target_lang: String,
        original_content: String,
        translated_content: String,
        created_at: String,
    ) -> (r: HistoryEntry)
        ensures
            is_hyphenated_uuid(r.id@),
            r.url == url,
            r.title == title,
            r.source_lang == source_lang,
            r.target_lang == target_lang,
            r.original_content == original_content,
            r.translated_content == translated_content,
            r.created_at == created_at,
            r.word_count == word_count_of(original_content@),
            r.entry_type == HistoryEntryType::SinglePage,
            r.batch_data is None,
    {
        let word_count = count_words(&original_content);
        HistoryEntry {
            id: new_uuid_string(),
            url,
            title,
            source_lang,
            target_lang,
            original_content,
            translated_content,
            created_at,
            word_count,
            entry_type: HistoryEntryType::SinglePage,
            batch_data: None,
        }
    }

    /// A new batch entry with a fresh id, made at `created_at`; its word
    /// count adds up those of the documents' original contents.
    pub fn new_batch_translation(
        index_url: String,
        title: String,
        source_lang: String,
        target_lang: String,
        batch_data: BatchTranslationData,
        created_at: String,
    ) -> (r: HistoryEntry)
        requires
            total_words(batch_data.document_list@) <= usize::MAX,
        ensures
            is_hyphenated_uuid(r.id@),
            r.url == index_url,
            r.title == title,
            r.source_lang == source_lang,
            r.target_lang == target_lang,
            r.original_content@ == batch_original_line(batch_data.total_documents as nat),
            r.translated_content@ == batch_result_line(
                batch_data.successful_documents as nat,
                batch_data.failed_documents as nat,
            ),
            r.created_at == created_at,
            r.word_count == total_words(batch_data.document_list@),
            r.entry_type == HistoryEntryType::BatchTranslation,
            r.batch_data == Some(batch_data),
    {
        let mut words: usize = 0;
        let mut i: usize = 0;
        let docs = &batch_data.document_list;
        while i < docs.len()
            invariant
                docs == &batch_data.document_list,
                i <= docs@.len(),
                words == total_words(docs@.take(i as int)),
                total_words(docs@) <= usize::MAX,
            decreases docs.len() - i,
        {
            proof {
                assert(docs@.take(i + 1).drop_last() =~= docs@.take(i as int));
                lemma_total_words_prefix(docs@, i + 1);
            }
            let c = count_words(&docs[i].original_content);
            words = words + c;
            i += 1;
        }
        assert(docs@.take(docs@.len() as int) =~= docs@);
        proof {
            reveal_strlit("批量翻译 ");
            reveal_strlit(" 个文档");
            reveal_strlit("成功: ");
            reveal_strlit(", 失败: ");
        }
        let mut orig: Vec<char> = Vec::new();
        append_slice(&mut orig, &chars_of("批量翻译 "));
        append_slice(&mut orig, &decimal_vec(batch_data.total_documents as u64));
        append_slice(&mut orig, &chars_of(" 个文档"));
        let mut done: Vec<char> = Vec::new();
        append_slice(&mut done, &chars_of("成功: "));
        append_slice(&mut done, &decimal_vec(batch_data.successful_documents as u64));
        append_slice(&mut done, &chars_of(", 失败: "));
        append_slice(&mut done, &decimal_vec(batch_data.failed_documents as u64));
        HistoryEntry {
            id: new_uuid_string(),
            url: index_url,
            title,
            source_lang,
            target_lang,
            original_content: string_of(&orig),
            translated_content: string_of(&done),
            created_at,
            word_count: words,
            entry_type: HistoryEntryType::BatchTranslation,
            batch_data: Some(batch_data),
        }
    }

    /// The older name of `new_single_page`.
    pub fn new(
        url: String,
        title: String,
        source_lang: String,
        target_lang: String,
        original_content: String,
        translated_content: String,
        created_at: String,
    ) -> (r: HistoryEntry)
        ensures
            is_hyphenated_uuid(r.id@),
            r.url == url,
            r.title == title,
            r.source_lang == source_lang,
            r.target_lang == target_lang,
            r.original_content == original_content,
            r.translated_content == translated_content,
            r.created_at == created_at,
            r.word_count == word_count_of(original_content@),
            r.entry_type == HistoryEntryType::SinglePage,
            r.batch_data is None,
    {
        Self::new_single_page(url, title, source_lang, target_lang, original_content, translated_content, created_at)
    }

    /// `title (source -> target)`, the title cut to 47 bytes and `...` when
    /// longer than 50 bytes. Cutting needs a character boundary at byte 47.
    pub fn get_summary(&self) -> (r: String)
        requires
            utf8_len(self.title@) > 50 ==> char_index_at(self.title@, 47) is Some,
        ensures
            r@ == summary_spec(self.title@, self.source_lang@, self.target_lang@),
    {
        let t = chars_of(self.title.as_str());
        let n = t.len();
        assert(t@.take(n as int) =~= t@);
        let mut out: Vec<char> = Vec::new();
        proof {
            reveal_strlit("...");
            reveal_strlit(" (");
            reveal_strlit(" -> ");
            reveal_strlit(")");
        }
        if utf8_len_upto(&t, n, 50).is_none() {
            match byte_to_char_index(&t, 47) {
                Some(k) => {
                    let mut i: usize = 0;
                    while i < k
                        invariant
                            i <= k,
                            k <= t@.len(),
                            out@ == t@.take(i as int),
                        decreases k - i,
                    {
                        out.push(t[i]);
                        i += 1;
                        assert(out@ =~= t@.take(i as int));
                    }
                    append_slice(&mut out, &chars_of("..."));
                },
                None => {},
            }
        } else {
            append_slice(&mut out, &t);
        }
        assert(out@ == summary_title(self.title@));
        append_slice(&mut out, &chars_of(" ("));
        append_slice(&mut out, &chars_of(self.source_lang.as_str()));
        append_slice(&mut out, &chars_of(" -> "));
        append_slice(&mut out, &chars_of(self.target_lang.as_str()));
        append_slice(&mut out, &chars_of(")"));
        string_of(&out)
    }
}

proof fn lemma_total_words_prefix(docs: Seq<BatchDocumentInfo>, i: int)
    requires
        0 <= i <= docs.len(),
    ensures
        total_words(docs.take(i)) <= total_words(docs),
    decreases docs.len() - i,
{
    if i < docs.len() {
        lemma_total_words_prefix(docs, i + 1);
        assert(docs.take(i + 1).drop_last() =~= docs.take(i));
    } else {
        assert(docs.take(i) =~= docs);
    }
}

/// What a history search filters by.
#[derive(Debug, Clone)]
pub struct HistoryFilter {
    pub search_term: Option<String>,
    pub source_lang: Option<String>,
    pub target_lang: Option<String>,
    pub date_from: Option<String>,
    pub date_to: Option<String>,
}

impl Default for HistoryFilter {
    fn default() -> (r: Self)
        ensures
            r.search_term is None,
            r.source_lang is None,
            r.target_lang is None,
            r.date_from is None,
            r.date_to is None,
    {
        HistoryFilter { search_term: None, source_lang: None, target_lang: None, date_from: None, date_to: None }
    }
}

/// The order of a history search.
#[derive(Debug, Clone, Copy, PartialEq, Eq, Structural)]
pub enum HistorySortBy {
    CreatedAtDesc,
    CreatedAtAsc,
    TitleAsc,
    TitleDesc,
    WordCountDesc,
    WordCountAsc,
}

impl Default for HistorySortBy {
    fn default() -> (r: Self)
        ensures
            r == HistorySortBy::CreatedAtDesc,
    {
        HistorySortBy::CreatedAtDesc
    }
}

/// A date and time written `YYYY-MM-DD HH:MM`, the year as it is and the
/// others with two digits; `month0` counts months from 0, as the browser's
/// clock gives them.
pub open spec fn formatted_date(year: u32, month0: u32, day: u32, hours: u32, minutes: u32) -> Seq<char> {
    decimal(year as nat) + "-"@ + crate::num::zero_padded((month0 + 1) as nat, 2) + "-"@
        + crate::num::zero_padded(day as nat, 2) + " "@ + crate::num::zero_padded(hours as nat, 2) + ":"@
        + crate::num::zero_padded(minutes as nat, 2)
}

impl HistoryEntry {
    /// The display form of an entry's creation time, from its local date
    /// and time as the browser reads `created_at`.
    pub fn format_date(year: u32, month0: u32, day: u32, hours: u32, minutes: u32) -> (r: String)
        requires
            month0 < u32::MAX,
        ensures
            r@ == formatted_date(year, month0, day, hours, minutes),
    {
        let mut v: Vec<char> = decimal_vec(year as u64);
        crate::text::append_str(&mut v, "-");
        append_slice(&mut v, &crate::num::zero_padded_vec((month0 + 1) as u64, 2));
        crate::text::append_str(&mut v, "-");
        append_slice(&mut v, &crate::num::zero_padded_vec(day as u64, 2));
        crate::text::append_str(&mut v, " ");
        append_slice(&mut v, &crate::num::zero_padded_vec(hours as u64, 2));
        crate::text::append_str(&mut v, ":");
        append_slice(&mut v, &crate::num::zero_padded_vec(minutes as u64, 2));
        string_of(&v)
    }
}

} // verus!
