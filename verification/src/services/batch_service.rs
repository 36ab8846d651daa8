//! Batch translation of a documentation site: the documents, their folders,
//! progress, and the rules that pick and name them.

use vstd::prelude::*;
use crate::text::{
    append_slice, chars_of, contains, contains_string, count_char, count_char_vec, ends_with, ends_with_vec, eq_chars,
    has_match, starts_with, starts_with_vec, string_views, views, find_next, next_match, replace, replace_vec,
    slice_vec, string_of, trim, trim_vec, utf8_len, utf8_len_upto, is_alphabetic, is_numeric, is_whitespace,
    unicode_alphabetic, unicode_numeric, unicode_whitespace, trim_start, skip_ws_start, utf8_prefix_len,
    lemma_utf8_len_concat, lemma_utf8_len_bound, lemma_next_match_facts, lines, lines_vec,
    is_alphanumeric, unicode_alphanumeric, trim_char, trim_char_vec, filter_seqs, split_on, split_on_vec,
    keep_views, join, join_vec, append_str, char_index_at, byte_to_char_index,
};
use crate::archive::{
    archive_failure, archive_paths_ok, file_entries, portable_paths, stored_entries, tar_gz_archive, text_pairs,
    write_archive,
};
use crate::types::api_types::AppConfig;
use crate::clock::Timestamp;
use crate::services::file_naming_service::{
    base_name_spec, extension_spec, nameable, unique_name, FileNamingConfig, FileNamingContext, FileNamingService,
};
use crate::num::{decimal, decimal_vec, zero_padded, zero_padded_vec, all_digits, digits_value, is_digit, parse_u64, parse_u64_chars, unsigned_digits};
use crate::urls::{parse_url, url_parse};

verus! {

/// A link found on a documentation index page.
#[derive(Debug, Clone)]
pub struct DocumentLink {
    pub title: String,
    pub url: String,
    /// Indentation level, for the table of contents.
    pub level: usize,
    /// Position in the table of contents.
    pub order: usize,
}

/// A translated document.
#[derive(Debug, Clone)]
pub struct TranslatedDocument {
    pub link: DocumentLink,
    pub original_content: String,
    pub translated_content: String,
    pub file_name: String,
    pub folder_path: String,
    /// Whether it is selected for download.
    pub selected: bool,
}

/// Where a batch translation stands.
#[derive(Debug, Clone)]
pub struct BatchProgress {
    pub total: usize,
    pub completed: usize,
    pub current_task: String,
    pub failed_count: usize,
    pub status: BatchStatus,
}

/// The phase of a batch translation.
#[derive(Debug, Clone)]
pub enum BatchStatus {
    Idle,
    Parsing,
    Translating,
    Packaging,
    Completed,
    Failed(String),
}

/// Translated documents grouped by folder, each folder once, in the order
/// the folders first appeared.
#[derive(Debug, Clone)]
pub struct FolderStructure {
    pub folders: Vec<(String, Vec<TranslatedDocument>)>,
    pub total_files: usize,
    pub selected_files: usize,
}

/// The folder names of a structure.
pub open spec fn folder_names(f: Seq<(String, Vec<TranslatedDocument>)>) -> Seq<Seq<char>> {
    f.map_values(|e: (String, Vec<TranslatedDocument>)| e.0@)
}

/// All documents of a structure, folder by folder.
pub open spec fn all_documents(f: Seq<(String, Vec<TranslatedDocument>)>) -> Seq<TranslatedDocument>
    decreases f.len(),
{
    if f.len() == 0 {
        seq![]
    } else {
        all_documents(f.drop_last()) + f.last().1@
    }
}

/// How many documents are selected.
pub open spec fn selected_count(docs: Seq<TranslatedDocument>) -> nat
    decreases docs.len(),
{
    if docs.len() == 0 {
        0
    } else {
        selected_count(docs.drop_last()) + if docs.last().selected { 1nat } else { 0nat }
    }
}

proof fn lemma_all_documents_mono(f: Seq<(String, Vec<TranslatedDocument>)>, i: int, k: int)
    requires
        0 <= i <= k <= f.len(),
    ensures
        all_documents(f.take(i)).len() <= all_documents(f.take(k)).len(),
    decreases k - i,
{
    if i < k {
        lemma_all_documents_mono(f, i, k - 1);
        assert(f.take(k).drop_last() =~= f.take(k - 1));
    }
}

/// Replacing one folder changes the number of documents by the change in
/// that folder's size.
proof fn lemma_all_documents_update(f: Seq<(String, Vec<TranslatedDocument>)>, i: int, x: (String, Vec<TranslatedDocument>))
    requires
        0 <= i < f.len(),
    ensures
        all_documents(f.update(i, x)).len() + f[i].1@.len() == all_documents(f).len() + x.1@.len(),
    decreases f.len(),
{
    let g = f.update(i, x);
    if i == f.len() - 1 {
        assert(g.drop_last() =~= f.drop_last());
    } else {
        lemma_all_documents_update(f.drop_last(), i, x);
        assert(g.drop_last() =~= f.drop_last().update(i, x));
    }
}

impl Default for FolderStructure {
    fn default() -> (r: FolderStructure)
        ensures
            r.folders@.len() == 0,
            r.total_files == 0,
            r.selected_files == 0,
    {
        FolderStructure::new()
    }
}

impl FolderStructure {
    /// No folder appears twice.
    pub open spec fn wf(&self) -> bool {
        forall|i: int, j: int|
            0 <= i < j < self.folders@.len() ==> #[trigger] folder_names(self.folders@)[i] != #[trigger] folder_names(self.folders@)[j]
    }

    /// An empty structure.
    pub fn new() -> (r: FolderStructure)
        ensures
            r.wf(),
            r.folders@.len() == 0,
            r.total_files == 0,
            r.selected_files == 0,
    {
        FolderStructure { folders: Vec::new(), total_files: 0, selected_files: 0 }
    }

    /// Adds `doc` to the folder named by its `folder_path`, opening that
    /// folder at the end when it is new, and counts it.
    pub fn add_document(&mut self, doc: TranslatedDocument)
        requires
            old(self).wf(),
            old(self).total_files < usize::MAX,
        ensures
            final(self).wf(),
            final(self).total_files == old(self).total_files + 1,
            final(self).selected_files == old(self).selected_files,
            all_documents(final(self).folders@).len() == all_documents(old(self).folders@).len() + 1,
            old(self).total_files == all_documents(old(self).folders@).len()
                ==> final(self).total_files == all_documents(final(self).folders@).len(),
            folder_names(old(self).folders@).contains(doc.folder_path@) ==> exists|i: int|
                0 <= i < old(self).folders@.len() && #[trigger] folder_names(old(self).folders@)[i] == doc.folder_path@
                && final(self).folders@ == old(self).folders@.update(i, (old(self).folders@[i].0, final(self).folders@[i].1))
                && final(self).folders@[i].1@ == old(self).folders@[i].1@.push(doc),
            !folder_names(old(self).folders@).contains(doc.folder_path@) ==>
                final(self).folders@ == old(self).folders@.push(final(self).folders@.last())
                && final(self).folders@.last().0@ == doc.folder_path@
                && final(self).folders@.last().1@ == seq![doc],
    {
        let mut i: usize = 0;
        while i < self.folders.len()
            invariant
                i <= self.folders@.len(),
                self.folders@ == old(self).folders@,
                self.total_files == old(self).total_files,
                self.selected_files == old(self).selected_files,
                old(self).total_files < usize::MAX,
                old(self).wf(),
                forall|k: int| 0 <= k < i ==> folder_names(self.folders@)[k] != doc.folder_path@,
            decreases self.folders.len() - i,
        {
            if self.folders[i].0 == doc.folder_path {
                let mut entries: Vec<(String, Vec<TranslatedDocument>)> = Vec::new();
                std::mem::swap(&mut entries, &mut self.folders);
                let ghost before = entries@;
                let mut group: Vec<TranslatedDocument> = Vec::new();
                std::mem::swap(&mut group, &mut entries[i].1);
                group.push(doc);
                entries[i].1 = group;
                self.folders = entries;
                self.total_files = self.total_files + 1;
                proof {
                    assert(folder_names(before)[i as int] == doc.folder_path@);
                    assert(folder_names(self.folders@) =~= folder_names(before));
                    assert(self.folders@ =~= before.update(i as int, (before[i as int].0, self.folders@[i as int].1)));
                    lemma_all_documents_update(before, i as int, (before[i as int].0, self.folders@[i as int].1));
                }
                return;
            }
            i += 1;
        }
        proof {
            assert forall|k: int| 0 <= k < folder_names(self.folders@).len() implies folder_names(self.folders@)[k] != doc.folder_path@ by {
            }
        }
        let name = doc.folder_path.clone();
        let mut group: Vec<TranslatedDocument> = Vec::new();
        group.push(doc);
        let ghost before = self.folders@;
        self.folders.push((name, group));
        self.total_files = self.total_files + 1;
        proof {
            assert(folder_names(self.folders@) =~= folder_names(before).push(doc.folder_path@));
            assert(self.folders@ =~= before.push(self.folders@.last()));
            assert(self.folders@.drop_last() =~= before);
        }
    }

    /// Counts the selected documents over all folders; where the count is
    /// already right (as after a first call), nothing changes.
    pub fn update_selection_count(&mut self)
        requires
            all_documents(old(self).folders@).len() <= usize::MAX,
        ensures
            final(self).folders@ == old(self).folders@,
            final(self).total_files == old(self).total_files,
            final(self).selected_files == selected_count(all_documents(old(self).folders@)),
            old(self).selected_files == selected_count(all_documents(old(self).folders@))
                ==> final(self).selected_files == old(self).selected_files,
    {
        let mut n: usize = 0;
        let mut i: usize = 0;
        while i < self.folders.len()
            invariant
                i <= self.folders@.len(),
                n == selected_count(all_documents(self.folders@.take(i as int))),
                n <= all_documents(self.folders@.take(i as int)).len(),
                self.folders@ == old(self).folders@,
                all_documents(self.folders@).len() <= usize::MAX,
            decreases self.folders.len() - i,
        {
            proof { lemma_all_documents_mono(self.folders@, i + 1, self.folders@.len() as int); }
            assert(self.folders@.take(self.folders@.len() as int) =~= self.folders@);
            let docs = &self.folders[i].1;
            let ghost base = all_documents(self.folders@.take(i as int));
            assert(self.folders@.take(i + 1).drop_last() =~= self.folders@.take(i as int));
            let mut j: usize = 0;
            while j < docs.len()
                invariant
                    j <= docs@.len(),
                    n == selected_count(base + docs@.take(j as int)),
                    n <= (base + docs@.take(j as int)).len(),
                    (base + docs@).len() <= usize::MAX,
                decreases docs.len() - j,
            {
                assert((base + docs@.take(j + 1)).drop_last() =~= base + docs@.take(j as int));
                if docs[j].selected {
                    n = n + 1;
                }
                j += 1;
            }
            assert(docs@.take(docs@.len() as int) =~= docs@);
            i += 1;
        }
        assert(self.folders@.take(self.folders@.len() as int) =~= self.folders@);
        self.selected_files = n;
    }
}

// ---------------------------------------------------------------------------
// Which links are documentation pages of the same site.
// ---------------------------------------------------------------------------

/// What a documentation URL may not hold.
pub open spec fn url_exclusions() -> Seq<Seq<char>> {
    seq!["print.html"@, "github.com"@, "mailto:"@, "javascript:"@, ".git"@, "#"@, "search.html"@, "404.html"@]
}

/// Endings of files that are no documents.
pub open spec fn asset_extensions() -> Seq<Seq<char>> {
    seq![".css"@, ".js"@, ".png"@, ".jpg"@, ".gif"@, ".svg"@, ".ico"@, ".pdf"@, ".woff"@, ".woff2"@, ".ttf"@]
}

/// Path pieces that mark documentation.
pub open spec fn doc_patterns() -> Seq<Seq<char>> {
    seq!["/docs/"@, "/doc/"@, "/guide/"@, "/manual/"@, "/tutorial/"@, "/reference/"@, "/api/"@, "/book/"@, "/help/"@]
}

/// Whether `url` holds one of `pats`.
pub open spec fn holds_any(url: Seq<char>, pats: Seq<Seq<char>>) -> bool {
    exists|k: int| 0 <= k < pats.len() && has_match(url, #[trigger] pats[k])
}

/// Whether `url` ends with one of `pats`.
pub open spec fn ends_with_any(url: Seq<char>, pats: Seq<Seq<char>>) -> bool {
    exists|k: int| 0 <= k < pats.len() && ends_with(url, #[trigger] pats[k])
}

/// A documentation URL: starts with `http`, holds none of the exclusions,
/// is no asset file (where it has a `.` and does not end in `.html` or
/// `.htm`), and has a documentation path piece or at most three `/`.
pub open spec fn is_documentation_url(url: Seq<char>) -> bool {
    &&& starts_with(url, "http"@)
    &&& !holds_any(url, url_exclusions())
    &&& !(has_match(url, "."@) && !ends_with(url, ".html"@) && !ends_with(url, ".htm"@) && ends_with_any(url, asset_extensions()))
    &&& (holds_any(url, doc_patterns()) || count_char(url, '/') <= 3)
}

/// The host of a URL (`Url::host_str`), where it parses and has one.
pub open spec fn host_spec(url: Seq<char>) -> Option<Seq<char>> {
    match url_parse(url) {
        Some((_, h, _)) => h,
        None => None,
    }
}

/// A documentation URL on the host `base`, on a subdomain of it, or on a
/// host of which `base` is a subdomain.
pub open spec fn is_same_site_doc(url: Seq<char>, base: Seq<char>) -> bool {
    &&& is_documentation_url(url)
    &&& match host_spec(url) {
        Some(d) => d == base || ends_with(d, "."@ + base) || ends_with(base, "."@ + d),
        None => false,
    }
}

/// Whether `url` holds one of the strings of `pats`.
fn holds_any_exec(url: &[char], pats: &Vec<Vec<char>>) -> (r: bool)
    ensures
        r == holds_any(url@, views(pats@)),
{
    let mut k: usize = 0;
    while k < pats.len()
        invariant
            k <= pats@.len(),
            forall|q: int| 0 <= q < k ==> !has_match(url@, #[trigger] views(pats@)[q]),
        decreases pats.len() - k,
    {
        if contains(url, &pats[k]) {
            assert(has_match(url@, views(pats@)[k as int]));
            return true;
        }
        k += 1;
    }
    false
}

/// Whether `url` ends with one of the strings of `pats`.
fn ends_with_any_exec(url: &[char], pats: &Vec<Vec<char>>) -> (r: bool)
    ensures
        r == ends_with_any(url@, views(pats@)),
{
    let mut k: usize = 0;
    while k < pats.len()
        invariant
            k <= pats@.len(),
            forall|q: int| 0 <= q < k ==> !ends_with(url@, #[trigger] views(pats@)[q]),
        decreases pats.len() - k,
    {
        if ends_with_vec(url, &pats[k]) {
            assert(ends_with(url@, views(pats@)[k as int]));
            return true;
        }
        k += 1;
    }
    false
}

/// The character vectors of string literals.
fn literal_vecs(lits: &[&str]) -> (r: Vec<Vec<char>>)
    ensures
        r@.len() == lits@.len(),
        forall|k: int| 0 <= k < lits@.len() ==> #[trigger] r@[k]@ == lits@[k]@,
{
    let mut r: Vec<Vec<char>> = Vec::new();
    let mut i: usize = 0;
    while i < lits.len()
        invariant
            i <= lits@.len(),
            r@.len() == i,
            forall|k: int| 0 <= k < i ==> #[trigger] r@[k]@ == lits@[k]@,
        decreases lits.len() - i,
    {
        r.push(chars_of(lits[i]));
        i += 1;
    }
    r
}

/// `is_documentation_url`.
pub fn is_valid_documentation_url(url: &str) -> (r: bool)
    ensures
        r == is_documentation_url(url@),
{
    let u = chars_of(url);
    if !starts_with_vec(&u, &chars_of("http")) {
        return false;
    }
    let excl = literal_vecs(&["print.html", "github.com", "mailto:", "javascript:", ".git", "#", "search.html", "404.html"]);
    assert(views(excl@) =~= url_exclusions());
    if holds_any_exec(&u, &excl) {
        return false;
    }
    if contains(&u, &chars_of(".")) && !ends_with_vec(&u, &chars_of(".html")) && !ends_with_vec(&u, &chars_of(".htm")) {
        let exts = literal_vecs(&[".css", ".js", ".png", ".jpg", ".gif", ".svg", ".ico", ".pdf", ".woff", ".woff2", ".ttf"]);
        assert(views(exts@) =~= asset_extensions());
        if ends_with_any_exec(&u, &exts) {
            return false;
        }
    }
    let pats = literal_vecs(&["/docs/", "/doc/", "/guide/", "/manual/", "/tutorial/", "/reference/", "/api/", "/book/", "/help/"]);
    assert(views(pats@) =~= doc_patterns());
    holds_any_exec(&u, &pats) || count_char_vec(&u, '/') <= 3
}

/// The host of a URL (`host_spec`).
pub fn extract_base_domain(url: &str) -> (r: Option<String>)
    ensures
        match r {
            Some(h) => host_spec(url@) == Some(h@),
            None => host_spec(url@) is None,
        },
{
    match parse_url(url) {
        Some(p) => p.host,
        None => None,
    }
}

/// `is_same_site_doc`.
pub fn is_same_domain_documentation_url(url: &str, base_domain: &str) -> (r: bool)
    ensures
        r == is_same_site_doc(url@, base_domain@),
{
    if !is_valid_documentation_url(url) {
        return false;
    }
    match extract_base_domain(url) {
        Some(d) => {
            let dv = chars_of(d.as_str());
            let bv = chars_of(base_domain);
            if eq_chars(&dv, &bv) {
                return true;
            }
            let mut dot_b: Vec<char> = vec!['.'];
            append_slice(&mut dot_b, &bv);
            let mut dot_d: Vec<char> = vec!['.'];
            append_slice(&mut dot_d, &dv);
            proof { reveal_strlit("."); }
            assert(dot_b@ =~= "."@ + base_domain@);
            assert(dot_d@ =~= "."@ + d@);
            ends_with_vec(&dv, &dot_b) || ends_with_vec(&bv, &dot_d)
        },
        None => false,
    }
}

// ---------------------------------------------------------------------------
// Titles.
// ---------------------------------------------------------------------------

/// An ASCII digit.
pub open spec fn ascii_digit(c: char) -> bool {
    '0' <= c && c <= '9'
}

/// Scanning a leading number like `1.`, `4.1.` or `5.2.1. `: whether a digit
/// and a dot were seen, and how many bytes the number (with one space after
/// it) takes.
pub open spec fn number_scan(s: Seq<char>, i: int, digit: bool, dot: bool, end: int) -> (bool, bool, int)
    decreases s.len() - i,
{
    if i < 0 || i >= s.len() {
        (digit, dot, end)
    } else {
        let c = s[i];
        if ascii_digit(c) {
            number_scan(s, i + 1, true, dot, end + 1)
        } else if c == '.' {
            if digit { number_scan(s, i + 1, digit, true, end + 1) } else { (digit, dot, end) }
        } else if c == ' ' || c == '\t' {
            if digit && dot { (digit, dot, end + 1) } else { number_scan(s, i + 1, digit, dot, end + 1) }
        } else {
            (digit, dot, end)
        }
    }
}

/// The index of the first letter of `s`.
pub open spec fn first_letter(s: Seq<char>) -> Option<int>
    decreases s.len(),
{
    if s.len() == 0 {
        None
    } else {
        match first_letter(s.drop_last()) {
            Some(i) => Some(i),
            None => if unicode_alphabetic(s.last()) { Some(s.len() - 1) } else { None },
        }
    }
}

/// A title without its leading numbering: the text after a scanned number
/// (`number_scan`), or else the text from the first letter on where only
/// digits, dots and whitespace come before it; trimmed either way.
pub open spec fn without_numbering(text: Seq<char>) -> Seq<char> {
    let tr = trim(text);
    let (digit, dot, end) = number_scan(tr, 0, false, false, 0);
    if digit && dot && end > 0 && end < utf8_len(tr) {
        trim(tr.skip(end))
    } else {
        match first_letter(tr) {
            Some(i) => if forall|j: int| 0 <= j < i ==> (unicode_numeric(#[trigger] tr[j]) || tr[j] == '.' || unicode_whitespace(tr[j])) {
                trim(tr.skip(i))
            } else {
                tr
            },
            None => tr,
        }
    }
}

/// A link title cleaned for use: emphasis and code marks removed, leading
/// numbering removed, trimmed, a double space and tabs made single spaces;
/// the trimmed title itself where that leaves less than 2 bytes.
pub open spec fn clean_title_enhanced_spec(title: Seq<char>) -> Seq<char> {
    let c1 = replace(replace(replace(title, "**"@, seq![]), "*"@, seq![]), "`"@, seq![]);
    let c2 = without_numbering(c1);
    let c3 = replace(replace(trim(c2), "  "@, " "@), "\t"@, " "@);
    if c3.len() == 0 || utf8_len(c3) < 2 { trim(title) } else { c3 }
}

/// The digits of `s` after an optional sign, and whether the sign is `-`.
pub open spec fn signed_digits(s: Seq<char>) -> (bool, Seq<char>) {
    if s.len() > 0 && s[0] == '-' {
        (true, s.drop_first())
    } else if s.len() > 0 && s[0] == '+' {
        (false, s.drop_first())
    } else {
        (false, s)
    }
}

/// Whether `s` parses as an `i32` (`str::parse::<i32>`).
pub open spec fn parses_as_i32(s: Seq<char>) -> bool {
    let (neg, d) = signed_digits(s);
    d.len() > 0 && all_digits(d) && digits_value(d) <= if neg { 0x8000_0000nat } else { 0x7fff_ffffnat }
}

/// A title without `**` and without a leading `N.` where `N` is an integer.
pub open spec fn clean_title_spec_batch(title: Seq<char>) -> Seq<char> {
    let clean = trim(replace(title, "**"@, seq![]));
    match next_match(clean, "."@, 0) {
        Some(pos) => if parses_as_i32(trim(clean.take(pos))) { trim(clean.skip(pos + 1)) } else { clean },
        None => clean,
    }
}

/// `number_scan` from the start.
fn number_scan_exec(s: &[char]) -> (r: (bool, bool, usize))
    ensures
        (r.0, r.1, r.2 as int) == number_scan(s@, 0, false, false, 0),
        r.2 <= s@.len(),
{
    let mut digit = false;
    let mut dot = false;
    let mut end: usize = 0;
    let mut i: usize = 0;
    while i < s.len()
        invariant
            i <= s@.len(),
            end == i,
            number_scan(s@, 0, false, false, 0) == number_scan(s@, i as int, digit, dot, end as int),
        decreases s.len() - i,
    {
        let c = s[i];
        if '0' <= c && c <= '9' {
            digit = true;
        } else if c == '.' {
            if digit {
                dot = true;
            } else {
                return (digit, dot, end);
            }
        } else if c == ' ' || c == '\t' {
            if digit && dot {
                return (digit, dot, end + 1);
            }
        } else {
            return (digit, dot, end);
        }
        end += 1;
        i += 1;
    }
    (digit, dot, end)
}

/// The index of the first letter (`first_letter`).
fn first_letter_exec(s: &[char]) -> (r: Option<usize>)
    ensures
        match r {
            Some(i) => first_letter(s@) == Some(i as int),
            None => first_letter(s@) is None,
        },
{
    let mut i: usize = 0;
    while i < s.len()
        invariant
            i <= s@.len(),
            first_letter(s@.take(i as int)) is None,
        decreases s.len() - i,
    {
        assert(s@.take(i + 1).drop_last() =~= s@.take(i as int));
        if is_alphabetic(s[i]) {
            proof { lemma_first_letter_prefix(s@, i + 1); }
            return Some(i);
        }
        i += 1;
    }
    assert(s@.take(s@.len() as int) =~= s@);
    None
}

proof fn lemma_first_letter_range(s: Seq<char>)
    ensures
        match first_letter(s) {
            Some(i) => 0 <= i < s.len(),
            None => true,
        },
    decreases s.len(),
{
    if s.len() > 0 {
        lemma_first_letter_range(s.drop_last());
    }
}

proof fn lemma_first_letter_prefix(s: Seq<char>, k: int)
    requires
        0 <= k <= s.len(),
        first_letter(s.take(k)) is Some,
    ensures
        first_letter(s) == first_letter(s.take(k)),
    decreases s.len() - k,
{
    if k < s.len() {
        assert(s.take(k + 1).drop_last() =~= s.take(k));
        lemma_first_letter_prefix(s, k + 1);
    } else {
        assert(s.take(k) =~= s);
    }
}

/// `without_numbering`.
pub fn remove_numbering_manual(text: &str) -> (r: String)
    ensures
        r@ == without_numbering(text@),
{
    let tr = trim_vec(&chars_of(text));
    let (digit, dot, end) = number_scan_exec(&tr);
    let n = tr.len();
    assert(tr@.take(n as int) =~= tr@);
    if digit && dot && end > 0 && utf8_len_upto(&tr, n, end).is_none() {
        let rest = slice_vec(&tr, end, n);
        assert(rest@ =~= tr@.skip(end as int));
        return string_of(&trim_vec(&rest));
    }
    match first_letter_exec(&tr) {
        Some(i) => {
            proof { lemma_first_letter_range(tr@); }
            let ghost ok = forall|q: int| 0 <= q < i ==> (unicode_numeric(#[trigger] tr@[q]) || tr@[q] == '.' || unicode_whitespace(tr@[q]));
            assert(without_numbering(text@) == (if ok { trim(tr@.skip(i as int)) } else { tr@ }));
            let mut j: usize = 0;
            while j < i
                invariant
                    j <= i,
                    i < tr@.len(),
                    without_numbering(text@) == (if ok { trim(tr@.skip(i as int)) } else { tr@ }),
                    ok == forall|q: int| 0 <= q < i ==> (unicode_numeric(#[trigger] tr@[q]) || tr@[q] == '.' || unicode_whitespace(tr@[q])),
                    forall|q: int| 0 <= q < j ==> (unicode_numeric(#[trigger] tr@[q]) || tr@[q] == '.' || unicode_whitespace(tr@[q])),
                decreases i - j,
            {
                let c = tr[j];
                if !(is_numeric(c) || c == '.' || is_whitespace(c)) {
                    return string_of(&tr);
                }
                j += 1;
            }
            let rest = slice_vec(&tr, i, n);
            assert(rest@ =~= tr@.skip(i as int));
            string_of(&trim_vec(&rest))
        },
        None => string_of(&tr),
    }
}

/// `clean_title_enhanced_spec`.
pub fn clean_title_enhanced(title: &str) -> (r: String)
    ensures
        r@ == clean_title_enhanced_spec(title@),
{
    proof {
        reveal_strlit("**");
        reveal_strlit("*");
        reveal_strlit("`");
        reveal_strlit("  ");
        reveal_strlit("\t");
    }
    let t = chars_of(title);
    let empty: Vec<char> = Vec::new();
    let c1 = replace_vec(&t, &chars_of("**"), &empty);
    let c1 = replace_vec(&c1, &chars_of("*"), &empty);
    let c1 = replace_vec(&c1, &chars_of("`"), &empty);
    let c2 = remove_numbering_manual(string_of(&c1).as_str());
    let c3 = trim_vec(&chars_of(c2.as_str()));
    let c3 = replace_vec(&c3, &chars_of("  "), &chars_of(" "));
    let c3 = replace_vec(&c3, &chars_of("\t"), &chars_of(" "));
    let n = c3.len();
    assert(c3@.take(n as int) =~= c3@);
    if n == 0 || utf8_len_upto(&c3, n, 1).is_some() {
        string_of(&trim_vec(&t))
    } else {
        string_of(&c3)
    }
}

/// `parses_as_i32`.
fn parses_as_i32_exec(s: &[char]) -> (r: bool)
    ensures
        r == parses_as_i32(s@),
{
    let (neg, start): (bool, usize) = if s.len() > 0 && s[0] == '-' {
        (true, 1)
    } else if s.len() > 0 && s[0] == '+' {
        (false, 1)
    } else {
        (false, 0)
    };
    let d = slice_vec(s, start, s.len());
    assert(d@ =~= signed_digits(s@).1);
    if d.len() == 0 {
        return false;
    }
    match parse_u64_chars(&d) {
        Some(v) => {
            assert(unsigned_digits(d@) == d@ || (d@.len() > 0 && d@[0] == '+'));
            if d[0] == '+' {
                return false;
            }
            assert(unsigned_digits(d@) == d@);
            if neg { v <= 0x8000_0000 } else { v <= 0x7fff_ffff }
        },
        None => {
            if d[0] == '+' {
                assert(!is_digit(d@[0]));
            } else {
                assert(unsigned_digits(d@) == d@);
                proof { lemma_digits_too_big(d@); }
            }
            false
        },
    }
}

/// Digits that do not fit a `u64` are too big for an `i32`.
proof fn lemma_digits_too_big(d: Seq<char>)
    requires
        d.len() > 0,
        d[0] != '+',
        parse_u64(d) is None,
    ensures
        !(all_digits(d) && digits_value(d) <= 0x8000_0000nat),
{
}

/// `clean_title_spec_batch`.
pub fn clean_title(title: &str) -> (r: String)
    ensures
        r@ == clean_title_spec_batch(title@),
{
    proof { reveal_strlit("**"); reveal_strlit("."); }
    let t = chars_of(title);
    let empty: Vec<char> = Vec::new();
    let clean = trim_vec(&replace_vec(&t, &chars_of("**"), &empty));
    match find_next(&clean, &chars_of("."), 0) {
        Some(pos) => {
            let head = trim_vec(&slice_vec(&clean, 0, pos));
            assert(clean@.subrange(0, pos as int) =~= clean@.take(pos as int));
            if parses_as_i32_exec(&head) {
                let cn = clean.len();
                assert(pos + 1 <= cn);
                let rest = slice_vec(&clean, pos + 1, clean.len());
                assert(rest@ =~= clean@.skip(pos + 1));
                string_of(&trim_vec(&rest))
            } else {
                string_of(&clean)
            }
        },
        None => string_of(&clean),
    }
}

// ---------------------------------------------------------------------------
// Indentation levels and links.
// ---------------------------------------------------------------------------

/// Counting the dots of a leading number like `1.1.1.`.
pub open spec fn dot_scan(s: Seq<char>, i: int, dots: nat, in_number: bool) -> nat
    decreases s.len() - i,
{
    if i < 0 || i >= s.len() {
        dots
    } else {
        let c = s[i];
        if ascii_digit(c) {
            dot_scan(s, i + 1, dots, true)
        } else if c == '.' {
            if in_number { dot_scan(s, i + 1, dots + 1, false) } else { dots }
        } else if c == ' ' || c == '\t' {
            if dots > 0 && !in_number { dots } else { dot_scan(s, i + 1, dots, in_number) }
        } else {
            dots
        }
    }
}

/// How many tabs `s` begins with.
pub open spec fn leading_tabs(s: Seq<char>) -> nat
    decreases s.len(),
{
    if s.len() > 0 && s[0] == '\t' { 1 + leading_tabs(s.drop_first()) } else { 0 }
}

/// The smaller of two numbers.
pub open spec fn min_nat(a: nat, b: nat) -> nat {
    if a < b { a } else { b }
}

/// The level of a table-of-contents line, 0 to 3: from its numbering (one
/// dot is level 0), else from its leading tabs, else from its leading
/// spaces (4 a level, list items 8 more a level).
pub open spec fn indent_level(line: Seq<char>) -> nat {
    let leading = (utf8_len(line) - utf8_len(trim_start(line))) as nat;
    let tr = trim(line);
    let dots = dot_scan(tr, 0, 0, false);
    if 1 <= dots <= 4 {
        min_nat((dots - 1) as nat, 3)
    } else {
        let tabs = leading_tabs(line);
        if tabs > 0 {
            min_nat(tabs, 3)
        } else {
            let base = min_nat(leading / 4, 3);
            if starts_with(tr, "- "@) || starts_with(tr, "* "@) || starts_with(tr, "+ "@) {
                min_nat(base + leading / 8, 3)
            } else {
                base
            }
        }
    }
}

/// `dot_scan` from the start.
fn dot_scan_exec(s: &[char]) -> (r: usize)
    ensures
        r == dot_scan(s@, 0, 0, false),
{
    let mut dots: usize = 0;
    let mut in_number = false;
    let mut i: usize = 0;
    while i < s.len()
        invariant
            i <= s@.len(),
            dots <= i,
            dot_scan(s@, 0, 0, false) == dot_scan(s@, i as int, dots as nat, in_number),
        decreases s.len() - i,
    {
        let c = s[i];
        if '0' <= c && c <= '9' {
            in_number = true;
        } else if c == '.' {
            if in_number {
                dots += 1;
                in_number = false;
            } else {
                return dots;
            }
        } else if c == ' ' || c == '\t' {
            if dots > 0 && !in_number {
                return dots;
            }
        } else {
            return dots;
        }
        i += 1;
    }
    dots
}

/// `leading_tabs`.
fn leading_tabs_exec(s: &[char]) -> (r: usize)
    ensures
        r == leading_tabs(s@),
{
    let mut i: usize = 0;
    assert(s@.skip(0) =~= s@);
    while i < s.len() && s[i] == '\t'
        invariant
            i <= s@.len(),
            leading_tabs(s@) == i + leading_tabs(s@.skip(i as int)),
        decreases s.len() - i,
    {
        assert(s@.skip(i as int).drop_first() =~= s@.skip(i + 1));
        i += 1;
    }
    i
}

/// The level of a table-of-contents line (`indent_level`).
pub fn calculate_indent_level(line: &str) -> (r: usize)
    ensures
        r == indent_level(line@),
{
    let l = chars_of(line);
    let n = l.len();
    let k = skip_ws_start(&l);
    let total = utf8_prefix_len(&l, n);
    let lead = utf8_prefix_len(&l, k);
    proof {
        assert(l@.take(n as int) =~= l@);
        assert(l@ =~= l@.take(k as int) + l@.subrange(k as int, n as int));
        lemma_utf8_len_concat(l@.take(k as int), l@.subrange(k as int, n as int));
        lemma_utf8_len_bound(l@.take(k as int));
    }
    let leading: u128 = lead;
    assert(leading == utf8_len(l@) - utf8_len(trim_start(l@)));
    let tr = trim_vec(&l);
    let dots = dot_scan_exec(&tr);
    if 1 <= dots && dots <= 4 {
        return if dots - 1 < 3 { dots - 1 } else { 3 };
    }
    let tabs = leading_tabs_exec(&l);
    if tabs > 0 {
        return if tabs < 3 { tabs } else { 3 };
    }
    let base: u128 = if leading / 4 < 3 { leading / 4 } else { 3 };
    if starts_with_vec(&tr, &chars_of("- ")) || starts_with_vec(&tr, &chars_of("* ")) || starts_with_vec(&tr, &chars_of("+ ")) {
        let b = base + leading / 8;
        if b < 3 { b as usize } else { 3 }
    } else {
        base as usize
    }
}

/// The title and URL of a Markdown link `[title](url)` on a line: from the
/// first `[` to the first `](` after it and the first `)` after that, both
/// trimmed; kept where the URL is a documentation page of the site and the
/// cleaned title has more than one byte.
pub open spec fn link_of_line(line: Seq<char>, base: Seq<char>) -> Option<(Seq<char>, Seq<char>)> {
    match next_match(line, "["@, 0) {
        None => None,
        Some(s) => match next_match(line, "]("@, s) {
            None => None,
            Some(m) => match next_match(line, ")"@, m + 2) {
                None => None,
                Some(e) => {
                    let title = trim(line.subrange(s + 1, m));
                    let url = trim(line.subrange(m + 2, e));
                    if is_same_site_doc(url, base) && title.len() > 0 {
                        let clean = clean_title_enhanced_spec(title);
                        if clean.len() > 0 && utf8_len(clean) > 1 { Some((clean, url)) } else { None }
                    } else {
                        None
                    }
                },
            },
        },
    }
}

/// `link_of_line`.
pub fn parse_link_line(line: &str, base_domain: &str) -> (r: Option<(String, String)>)
    ensures
        match r {
            Some((t, u)) => link_of_line(line@, base_domain@) == Some((t@, u@)),
            None => link_of_line(line@, base_domain@) is None,
        },
{
    proof { reveal_strlit("["); reveal_strlit("]("); reveal_strlit(")"); }
    let l = chars_of(line);
    let n = l.len();
    let s = match find_next(&l, &chars_of("["), 0) {
        None => return None,
        Some(s) => s,
    };
    let m = match find_next(&l, &chars_of("]("), s) {
        None => return None,
        Some(m) => m,
    };
    assert(m + 2 <= n);
    let e = match find_next(&l, &chars_of(")"), m + 2) {
        None => return None,
        Some(e) => e,
    };
    proof { lemma_next_match_facts(l@, "["@, 0); }
    assert(s + 1 <= m) by {
        if m == s {
            assert(l@.subrange(m as int, m + 2)[0] == l@[m as int]);
            assert(l@.subrange(s as int, s + 1)[0] == l@[s as int]);
        }
    }
    let title = trim_vec(&slice_vec(&l, s + 1, m));
    let url = trim_vec(&slice_vec(&l, m + 2, e));
    let url_s = string_of(&url);
    if is_same_domain_documentation_url(url_s.as_str(), base_domain) && title.len() > 0 {
        let clean = clean_title_enhanced(string_of(&title).as_str());
        let cv = chars_of(clean.as_str());
        let cn = cv.len();
        assert(cv@.take(cn as int) =~= cv@);
        if cn > 0 && utf8_len_upto(&cv, cn, 1).is_none() {
            return Some((clean, url_s));
        }
    }
    None
}

/// The links of the lines of `content`, numbered in order.
pub open spec fn links_of_lines(ls: Seq<Seq<char>>, base: Seq<char>) -> Seq<(Seq<char>, Seq<char>, nat)>
    decreases ls.len(),
{
    if ls.len() == 0 {
        seq![]
    } else {
        let r = links_of_lines(ls.drop_last(), base);
        match link_of_line(trim(ls.last()), base) {
            Some((t, u)) => r.push((t, u, indent_level(ls.last()))),
            None => r,
        }
    }
}

/// The view of a link: title, URL and level.
pub open spec fn link_view(l: DocumentLink) -> (Seq<char>, Seq<char>, nat) {
    (l.title@, l.url@, l.level as nat)
}

/// Every link of `content` on a documentation page of `base_domain`
/// (`links_of_lines` over `str::lines`), numbered from 0 in order.
pub fn extract_links_from_content(content: &str, base_domain: &str) -> (r: Vec<DocumentLink>)
    ensures
        r@.map_values(|l: DocumentLink| link_view(l)) == links_of_lines(lines(content@), base_domain@),
        forall|k: int| 0 <= k < r@.len() ==> (#[trigger] r@[k]).order == k,
{
    let ls = lines_vec(&chars_of(content));
    let mut r: Vec<DocumentLink> = Vec::new();
    let mut i: usize = 0;
    while i < ls.len()
        invariant
            i <= ls@.len(),
            r@.len() <= i,
            r@.map_values(|l: DocumentLink| link_view(l)) == links_of_lines(views(ls@).take(i as int), base_domain@),
            forall|k: int| 0 <= k < r@.len() ==> (#[trigger] r@[k]).order == k,
        decreases ls.len() - i,
    {
        let ghost lv = views(ls@).take(i + 1);
        assert(lv.drop_last() =~= views(ls@).take(i as int));
        assert(lv.last() == ls@[i as int]@);
        let line = string_of(&ls[i]);
        let trimmed = string_of(&trim_vec(&ls[i]));
        let ghost before = r@.map_values(|l: DocumentLink| link_view(l));
        match parse_link_line(trimmed.as_str(), base_domain) {
            Some((title, url)) => {
                let level = calculate_indent_level(line.as_str());
                let order = r.len();
                r.push(DocumentLink { title, url, level, order });
                assert(r@.map_values(|l: DocumentLink| link_view(l)) =~= before.push(link_view(r@.last())));
            },
            None => {},
        }
        i += 1;
    }
    assert(views(ls@).take(ls@.len() as int) =~= views(ls@));
    r
}

// ---------------------------------------------------------------------------
// File names and folders.
// ---------------------------------------------------------------------------

/// A character kept in a file name (letters, digits, `-`, `_`), or `_`.
pub open spec fn safe_char(c: char) -> char {
    if unicode_alphanumeric(c) || c == '-' || c == '_' { c } else { '_' }
}

/// Every character of `s` made safe.
pub open spec fn safe_chars(s: Seq<char>) -> Seq<char> {
    s.map_values(|c: char| safe_char(c))
}

/// A path segment made safe: trimmed, characters made safe, `_` trimmed off
/// both ends.
pub open spec fn clean_path_segment_spec(s: Seq<char>) -> Seq<char> {
    trim_char(safe_chars(trim(s)), '_')
}

/// `safe_chars`.
fn safe_chars_exec(s: &[char]) -> (r: Vec<char>)
    ensures
        r@ == safe_chars(s@),
{
    let mut r: Vec<char> = Vec::new();
    let mut i: usize = 0;
    while i < s.len()
        invariant
            i <= s@.len(),
            r@ == safe_chars(s@.take(i as int)),
        decreases s.len() - i,
    {
        let c = s[i];
        r.push(if is_alphanumeric(c) || c == '-' || c == '_' { c } else { '_' });
        i += 1;
        assert(r@ =~= safe_chars(s@.take(i as int)));
    }
    assert(s@.take(s@.len() as int) =~= s@);
    r
}

/// `clean_path_segment_spec`.
pub fn clean_path_segment(segment: &str) -> (r: String)
    ensures
        r@ == clean_path_segment_spec(segment@),
{
    let t = trim_vec(&chars_of(segment));
    string_of(&trim_char_vec(&safe_chars_exec(&t), '_'))
}

/// Whether a path segment names a page of its own (not empty, no `.html`
/// page, not `index`).
pub open spec fn is_named_segment(s: Seq<char>) -> bool {
    s.len() > 0 && !ends_with(s, ".html"@) && s != "index"@
}

/// A title with the page's path in front: the named segments of the URL's
/// path, made safe, joined with `_`, then `_` and the title; the title alone
/// where the URL does not parse, has at most one named segment, or leaves
/// nothing safe.
pub open spec fn enhanced_title(url: Seq<char>, title: Seq<char>) -> Seq<char> {
    match url_parse(url) {
        Some((_, _, path)) => {
            let segs = filter_seqs(split_on(path, '/'), |s: Seq<char>| is_named_segment(s));
            if segs.len() > 1 {
                let info = filter_seqs(segs.map_values(|s: Seq<char>| clean_path_segment_spec(s)), |p: Seq<char>| p.len() > 0);
                if info.len() > 0 { join(info, "_"@) + "_"@ + title } else { title }
            } else {
                title
            }
        },
        None => title,
    }
}

/// `enhanced_title`.
pub fn create_enhanced_title_with_path(url: &str, original_title: &str) -> (r: String)
    ensures
        r@ == enhanced_title(url@, original_title@),
{
    proof { reveal_strlit(".html"); reveal_strlit("index"); reveal_strlit("_"); }
    let parts = match parse_url(url) {
        Some(p) => p,
        None => return original_title.to_owned(),
    };
    let pieces = split_on_vec(&chars_of(parts.path.as_str()), '/');
    let html = chars_of(".html");
    let index = chars_of("index");
    let mut keep: Vec<bool> = Vec::new();
    let mut i: usize = 0;
    while i < pieces.len()
        invariant
            i <= pieces@.len(),
            keep@.len() == i,
            html@ == ".html"@,
            index@ == "index"@,
            forall|q: int| 0 <= q < i ==> keep@[q] == is_named_segment(#[trigger] pieces@[q]@),
        decreases pieces.len() - i,
    {
        let s = &pieces[i];
        keep.push(s.len() > 0 && !ends_with_vec(s, &html) && !eq_chars(s, &index));
        i += 1;
    }
    let ghost p1 = |s: Seq<char>| is_named_segment(s);
    assert forall|q: int| 0 <= q < pieces@.len() implies keep@[q] == p1(#[trigger] pieces@[q]@) by {}
    let segs = keep_views(&pieces, Ghost(p1), keep);
    if segs.len() <= 1 {
        return original_title.to_owned();
    }
    let mut cleaned: Vec<Vec<char>> = Vec::new();
    let mut keep2: Vec<bool> = Vec::new();
    let mut j: usize = 0;
    while j < segs.len()
        invariant
            j <= segs@.len(),
            cleaned@.len() == j,
            keep2@.len() == j,
            views(cleaned@) == views(segs@).take(j as int).map_values(|s: Seq<char>| clean_path_segment_spec(s)),
            forall|q: int| 0 <= q < j ==> keep2@[q] == ((#[trigger] cleaned@[q])@.len() > 0),
        decreases segs.len() - j,
    {
        let c = clean_path_segment(string_of(&segs[j]).as_str());
        let cv = chars_of(c.as_str());
        keep2.push(cv.len() > 0);
        let ghost c0 = views(cleaned@);
        cleaned.push(cv);
        assert(views(cleaned@) =~= c0.push(clean_path_segment_spec(segs@[j as int]@)));
        assert(views(segs@).take(j + 1) =~= views(segs@).take(j as int).push(segs@[j as int]@));
        assert(views(cleaned@) =~= views(segs@).take(j + 1).map_values(|s: Seq<char>| clean_path_segment_spec(s)));
        j += 1;
    }
    assert(views(segs@).take(segs@.len() as int) =~= views(segs@));
    let ghost p2 = |p: Seq<char>| p.len() > 0;
    assert forall|q: int| 0 <= q < cleaned@.len() implies keep2@[q] == p2(#[trigger] cleaned@[q]@) by {}
    let info = keep_views(&cleaned, Ghost(p2), keep2);
    if info.len() == 0 {
        return original_title.to_owned();
    }
    let mut out = join_vec(&info, &chars_of("_"));
    append_str(&mut out, "_");
    append_str(&mut out, original_title);
    string_of(&out)
}

/// The file name of a document: a `.html` page's name (made safe) with
/// `.md` where it is not empty and not `index`; else the 1-based position,
/// two digits wide, `_`, the safe title cut to 50 bytes, `.md`.
pub open spec fn document_file_name(url: Seq<char>, title: Seq<char>, order: nat) -> Seq<char> {
    let last = split_on(url, '/').last();
    let base = replace(last, ".html"@, seq![]);
    if ends_with(last, ".html"@) && base.len() > 0 && base != "index"@ {
        clean_path_segment_spec(base) + ".md"@
    } else {
        let safe = trim_char(safe_chars(title), '_');
        let part = if utf8_len(safe) > 50 { safe.take(char_index_at(safe, 50).unwrap()) } else { safe };
        zero_padded(order + 1, 2) + "_"@ + part + ".md"@
    }
}

/// Whether cutting the safe title of a document at 50 bytes falls on a
/// character boundary (where it is needed).
pub open spec fn title_cut_ok(title: Seq<char>) -> bool {
    let safe = trim_char(safe_chars(title), '_');
    utf8_len(safe) > 50 ==> char_index_at(safe, 50) is Some
}

/// The file name of a link's document (`document_file_name`).
pub fn generate_file_name_from_url_and_title(link: &DocumentLink) -> (r: String)
    requires
        link.order < usize::MAX,
        title_cut_ok(link.title@),
    ensures
        r@ == document_file_name(link.url@, link.title@, link.order as nat),
{
    proof { reveal_strlit(".html"); reveal_strlit("index"); }
    let pieces = split_on_vec(&chars_of(link.url.as_str()), '/');
    let last = &pieces[pieces.len() - 1];
    let html = chars_of(".html");
    let empty: Vec<char> = Vec::new();
    let base = replace_vec(last, &html, &empty);
    if ends_with_vec(last, &html) && base.len() > 0 && !eq_chars(&base, &chars_of("index")) {
        let mut out = chars_of(clean_path_segment(string_of(&base).as_str()).as_str());
        append_str(&mut out, ".md");
        return string_of(&out);
    }
    let safe = trim_char_vec(&safe_chars_exec(&chars_of(link.title.as_str())), '_');
    let n = safe.len();
    assert(safe@.take(n as int) =~= safe@);
    let part = if utf8_len_upto(&safe, n, 50).is_none() {
        match byte_to_char_index(&safe, 50) {
            Some(k) => slice_vec(&safe, 0, k),
            None => slice_vec(&safe, 0, 0),
        }
    } else {
        slice_vec(&safe, 0, n)
    };
    proof {
        if utf8_len(safe@) > 50 {
            assert(safe@.subrange(0, char_index_at(safe@, 50).unwrap()) =~= safe@.take(char_index_at(safe@, 50).unwrap()));
        } else {
            assert(safe@.subrange(0, n as int) =~= safe@);
        }
    }
    let mut out = zero_padded_vec((link.order + 1) as u64, 2);
    append_str(&mut out, "_");
    append_slice(&mut out, &part);
    append_str(&mut out, ".md");
    string_of(&out)
}

/// The folder of every document.
pub fn generate_smart_folder_path(url: &str) -> (r: String)
    ensures
        r@ == "documents"@,
{
    "documents".to_owned()
}

/// The folder and file name of a link's document.
pub fn generate_folder_structure(link: &DocumentLink) -> (r: (String, String))
    requires
        link.order < usize::MAX,
        title_cut_ok(link.title@),
    ensures
        r.0@ == "documents"@,
        r.1@ == document_file_name(link.url@, link.title@, link.order as nat),
{
    (generate_smart_folder_path(link.url.as_str()), generate_file_name_from_url_and_title(link))
}

// ---------------------------------------------------------------------------
// Downloads.
// ---------------------------------------------------------------------------

impl DocumentLink {
    /// A copy equal to `self`.
    pub fn duplicate(&self) -> (r: DocumentLink)
        ensures
            r == *self,
    {
        DocumentLink { title: self.title.clone(), url: self.url.clone(), level: self.level, order: self.order }
    }
}

impl TranslatedDocument {
    /// A copy equal to `self`.
    pub fn duplicate(&self) -> (r: TranslatedDocument)
        ensures
            r == *self,
    {
        TranslatedDocument {
            link: self.link.duplicate(),
            original_content: self.original_content.clone(),
            translated_content: self.translated_content.clone(),
            file_name: self.file_name.clone(),
            folder_path: self.folder_path.clone(),
            selected: self.selected,
        }
    }
}

/// The file of a translated document: its title, URL, the time given, its
/// 1-based position, then the translation.
pub open spec fn document_file(d: TranslatedDocument, date: Seq<char>) -> Seq<char> {
    "# "@ + d.link.title@ + "\n\n"@ + "> **原始URL**: "@ + d.link.url@ + "\n"@ + "> **翻译时间**: "@ + date + "\n"@
        + "> **文档序号**: "@ + decimal((d.link.order + 1) as nat) + "\n\n"@ + "---\n\n"@ + d.translated_content@
}

/// The selected documents, in order.
pub open spec fn selected_docs(s: Seq<TranslatedDocument>) -> Seq<TranslatedDocument>
    decreases s.len(),
{
    if s.len() == 0 {
        seq![]
    } else {
        let r = selected_docs(s.drop_last());
        if s.last().selected { r.push(s.last()) } else { r }
    }
}

/// `x` put into `sorted` after every document whose position is not larger.
pub open spec fn insert_by_order(sorted: Seq<TranslatedDocument>, x: TranslatedDocument) -> Seq<TranslatedDocument>
    decreases sorted.len(),
{
    if sorted.len() == 0 {
        seq![x]
    } else if x.link.order < sorted[0].link.order {
        seq![x] + sorted
    } else {
        seq![sorted[0]] + insert_by_order(sorted.drop_first(), x)
    }
}

/// The documents stably sorted by position.
pub open spec fn sort_by_order(s: Seq<TranslatedDocument>) -> Seq<TranslatedDocument>
    decreases s.len(),
{
    if s.len() == 0 { seq![] } else { insert_by_order(sort_by_order(s.drop_last()), s.last()) }
}

/// Whether a folder is the archive's top level for a document path (empty
/// or `docs`).
pub open spec fn is_root_folder(f: Seq<char>) -> bool {
    f.len() == 0 || f == "docs"@
}

/// A document's path in the archive: its position, three digits wide, `_`,
/// its file name, under its folder unless that is the top level.
pub open spec fn archive_path_of(d: TranslatedDocument) -> Seq<char> {
    let name = zero_padded((d.link.order + 1) as nat, 3) + "_"@ + d.file_name@;
    if is_root_folder(d.folder_path@) { name } else { d.folder_path@ + "/"@ + name }
}

/// The folders of the documents, each once, in the order they first appear.
pub open spec fn doc_folders(docs: Seq<TranslatedDocument>) -> Seq<Seq<char>>
    decreases docs.len(),
{
    if docs.len() == 0 {
        seq![]
    } else {
        let r = doc_folders(docs.drop_last());
        if r.contains(docs.last().folder_path@) { r } else { r.push(docs.last().folder_path@) }
    }
}

/// Whether a folder is shown without a heading (empty or `documents`).
pub open spec fn is_plain_folder(f: Seq<char>) -> bool {
    f.len() == 0 || f == "documents"@
}

/// The lines of the documents of folder `f`.
pub open spec fn readme_lines(docs: Seq<TranslatedDocument>, f: Seq<char>) -> Seq<char>
    decreases docs.len(),
{
    if docs.len() == 0 {
        seq![]
    } else {
        let d = docs.last();
        readme_lines(docs.drop_last(), f) + if d.folder_path@ == f {
            "- ["@ + d.link.title@ + "]("@ + d.file_name@ + ")\n  - 原始URL: "@ + d.link.url@ + "\n  - 文件路径: "@
                + (if is_plain_folder(f) { "."@ } else { f }) + "/"@ + d.file_name@ + "\n\n"@
        } else {
            seq![]
        }
    }
}

/// The table of contents, folder by folder.
pub open spec fn readme_toc(folders: Seq<Seq<char>>, docs: Seq<TranslatedDocument>) -> Seq<char>
    decreases folders.len(),
{
    if folders.len() == 0 {
        seq![]
    } else {
        let f = folders.last();
        readme_toc(folders.drop_last(), docs) + (if is_plain_folder(f) { seq![] } else { "### 📁 "@ + f + "\n\n"@ })
            + readme_lines(docs, f)
    }
}

/// The README of an archive of `docs` made at `date`. Folders are listed in
/// the order in which they first appear.
pub open spec fn readme_spec(docs: Seq<TranslatedDocument>, date: Seq<char>) -> Seq<char> {
    "# 翻译文档归档\n\n"@ + "生成时间: "@ + date + "\n"@ + "文档总数: "@ + decimal(docs.len()) + " 个\n\n"@
        + "## 文档目录\n\n"@ + readme_toc(doc_folders(docs), docs) + "---\n\n"@ + "*此归档由URL翻译工具自动生成*\n"@
}

/// The documents' files, in order.
pub open spec fn archive_files_of(docs: Seq<TranslatedDocument>, date: Seq<char>) -> Seq<(Seq<char>, Seq<char>)>
    decreases docs.len(),
{
    if docs.len() == 0 {
        seq![]
    } else {
        archive_files_of(docs.drop_last(), date).push((archive_path_of(docs.last()), document_file(docs.last(), date)))
    }
}

/// The files of the archive of the selected documents, sorted by position:
/// the README, then each document.
pub open spec fn compressed_archive_files(docs: Seq<TranslatedDocument>, date: Seq<char>) -> Seq<(Seq<char>, Seq<char>)> {
    let sel = sort_by_order(selected_docs(docs));
    seq![("README.md"@, readme_spec(sel, date))] + archive_files_of(sel, date)
}

/// No document's 1-based position overflows.
pub open spec fn positions_fit(docs: Seq<TranslatedDocument>) -> bool {
    forall|k: int| 0 <= k < docs.len() ==> (#[trigger] docs[k]).link.order < usize::MAX
}

/// The pairs' views.
pub open spec fn file_views(v: Seq<(String, String)>) -> Seq<(Seq<char>, Seq<char>)> {
    v.map_values(|p: (String, String)| (p.0@, p.1@))
}

/// `document_file`.
fn document_file_exec(d: &TranslatedDocument, date: &str) -> (r: Vec<char>)
    requires
        d.link.order < usize::MAX,
    ensures
        r@ == document_file(*d, date@),
{
    let mut out: Vec<char> = Vec::new();
    append_str(&mut out, "# ");
    append_str(&mut out, d.link.title.as_str());
    append_str(&mut out, "\n\n");
    append_str(&mut out, "> **原始URL**: ");
    append_str(&mut out, d.link.url.as_str());
    append_str(&mut out, "\n");
    append_str(&mut out, "> **翻译时间**: ");
    append_str(&mut out, date);
    append_str(&mut out, "\n");
    append_str(&mut out, "> **文档序号**: ");
    append_slice(&mut out, &decimal_vec((d.link.order + 1) as u64));
    append_str(&mut out, "\n\n");
    append_str(&mut out, "---\n\n");
    append_str(&mut out, d.translated_content.as_str());
    assert(out@ =~= document_file(*d, date@));
    out
}

/// The selected documents, stably sorted by position.
fn sorted_selection(docs: &Vec<TranslatedDocument>) -> (r: Vec<TranslatedDocument>)
    ensures
        r@ == sort_by_order(selected_docs(docs@)),
{
    let mut sel: Vec<TranslatedDocument> = Vec::new();
    let mut i: usize = 0;
    while i < docs.len()
        invariant
            i <= docs@.len(),
            sel@ == selected_docs(docs@.take(i as int)),
        decreases docs.len() - i,
    {
        assert(docs@.take(i + 1).drop_last() =~= docs@.take(i as int));
        if docs[i].selected {
            sel.push(docs[i].duplicate());
        }
        i += 1;
    }
    assert(docs@.take(docs@.len() as int) =~= docs@);
    let ghost fs = sel@;
    let mut out: Vec<TranslatedDocument> = Vec::new();
    let mut m: usize = 0;
    assert(fs.len() == sel.len());
    assert(fs.take(0) =~= Seq::<TranslatedDocument>::empty());
    assert(fs.skip(0) =~= fs);
    while sel.len() > 0
        invariant
            m <= fs.len(),
            fs.len() <= usize::MAX,
            sel@ == fs.skip(m as int),
            out@ == sort_by_order(fs.take(m as int)),
        decreases sel@.len(),
    {
        assert(fs.take(m + 1).drop_last() =~= fs.take(m as int));
        assert(fs.skip(m as int)[0] == fs[m as int]);
        let x = sel.remove(0);
        assert(sel@ =~= fs.skip(m + 1));
        let mut j: usize = 0;
        while j < out.len() && !(x.link.order < out[j].link.order)
            invariant
                j <= out@.len(),
                forall|k: int| 0 <= k < j ==> !(x.link.order < (#[trigger] out@[k]).link.order),
            decreases out.len() - j,
        {
            j += 1;
        }
        proof { lemma_insert_by_order_at(out@, x, j as int); }
        let ghost before = out@;
        out.insert(j, x);
        assert(out@ =~= before.take(j as int) + seq![x] + before.skip(j as int));
        m += 1;
    }
    assert(fs.take(m as int) =~= fs);
    out
}

proof fn lemma_insert_by_order_at(sorted: Seq<TranslatedDocument>, x: TranslatedDocument, j: int)
    requires
        0 <= j <= sorted.len(),
        forall|k: int| 0 <= k < j ==> !(x.link.order < (#[trigger] sorted[k]).link.order),
        j < sorted.len() ==> x.link.order < sorted[j].link.order,
    ensures
        insert_by_order(sorted, x) == sorted.take(j) + seq![x] + sorted.skip(j),
    decreases j,
{
    if j == 0 {
        if sorted.len() == 0 {
            assert(sorted.take(0) + seq![x] + sorted.skip(0) =~= seq![x]);
        } else {
            assert(sorted.take(0) + seq![x] + sorted.skip(0) =~= seq![x] + sorted);
        }
    } else {
        let d = sorted.drop_first();
        assert forall|k: int| 0 <= k < j - 1 implies !(x.link.order < (#[trigger] d[k]).link.order) by {
            assert(d[k] == sorted[k + 1]);
        }
        assert(!(x.link.order < sorted[0].link.order));
        lemma_insert_by_order_at(d, x, j - 1);
        assert(seq![sorted[0]] + (d.take(j - 1) + seq![x] + d.skip(j - 1)) =~= sorted.take(j) + seq![x] + sorted.skip(j));
    }
}

/// `doc_folders`.
fn doc_folders_exec(docs: &Vec<TranslatedDocument>) -> (r: Vec<String>)
    ensures
        string_views(r@) == doc_folders(docs@),
{
    let mut r: Vec<String> = Vec::new();
    let mut i: usize = 0;
    while i < docs.len()
        invariant
            i <= docs@.len(),
            string_views(r@) == doc_folders(docs@.take(i as int)),
        decreases docs.len() - i,
    {
        assert(docs@.take(i + 1).drop_last() =~= docs@.take(i as int));
        let f = &docs[i].folder_path;
        if !contains_string(&r, f) {
            let ghost before = string_views(r@);
            r.push(f.clone());
            assert(string_views(r@) =~= before.push(f@));
        }
        i += 1;
    }
    assert(docs@.take(docs@.len() as int) =~= docs@);
    r
}

/// `readme_spec`.
pub fn generate_readme_content(documents: &Vec<TranslatedDocument>, date: &str) -> (r: String)
    ensures
        r@ == readme_spec(documents@, date@),
{
    let mut out: Vec<char> = Vec::new();
    append_str(&mut out, "# 翻译文档归档\n\n");
    append_str(&mut out, "生成时间: ");
    append_str(&mut out, date);
    append_str(&mut out, "\n");
    append_str(&mut out, "文档总数: ");
    append_slice(&mut out, &decimal_vec(documents.len() as u64));
    append_str(&mut out, " 个\n\n");
    append_str(&mut out, "## 文档目录\n\n");
    let folders = doc_folders_exec(documents);
    let ghost head = out@;
    let mut i: usize = 0;
    let documents_lit = chars_of("documents");
    while i < folders.len()
        invariant
            i <= folders@.len(),
            documents_lit@ == "documents"@,
            out@ == head + readme_toc(string_views(folders@).take(i as int), documents@),
        decreases folders.len() - i,
    {
        let ghost fs = string_views(folders@).take(i + 1);
        assert(fs.drop_last() =~= string_views(folders@).take(i as int));
        assert(fs.last() == folders@[i as int]@);
        let f = &folders[i];
        let fv = chars_of(f.as_str());
        let plain = fv.len() == 0 || eq_chars(&fv, &documents_lit);
        let ghost before = out@;
        if !plain {
            append_str(&mut out, "### 📁 ");
            append_str(&mut out, f.as_str());
            append_str(&mut out, "\n\n");
        }
        let ghost mid = out@;
        let mut j: usize = 0;
        while j < documents.len()
            invariant
                j <= documents@.len(),
                plain == is_plain_folder(f@),
                out@ == mid + readme_lines(documents@.take(j as int), f@),
            decreases documents.len() - j,
        {
            assert(documents@.take(j + 1).drop_last() =~= documents@.take(j as int));
            let d = &documents[j];
            if d.folder_path == *f {
                let ghost b2 = out@;
                append_str(&mut out, "- [");
                append_str(&mut out, d.link.title.as_str());
                append_str(&mut out, "](");
                append_str(&mut out, d.file_name.as_str());
                append_str(&mut out, ")\n  - 原始URL: ");
                append_str(&mut out, d.link.url.as_str());
                append_str(&mut out, "\n  - 文件路径: ");
                if plain {
                    append_str(&mut out, ".");
                } else {
                    append_str(&mut out, f.as_str());
                }
                append_str(&mut out, "/");
                append_str(&mut out, d.file_name.as_str());
                append_str(&mut out, "\n\n");
                assert(out@ =~= b2 + ("- ["@ + d.link.title@ + "]("@ + d.file_name@ + ")\n  - 原始URL: "@ + d.link.url@
                    + "\n  - 文件路径: "@ + (if is_plain_folder(f@) { "."@ } else { f@ }) + "/"@ + d.file_name@ + "\n\n"@));
            }
            j += 1;
        }
        assert(documents@.take(documents@.len() as int) =~= documents@);
        i += 1;
    }
    assert(string_views(folders@).take(folders@.len() as int) =~= string_views(folders@));
    append_str(&mut out, "---\n\n");
    append_str(&mut out, "*此归档由URL翻译工具自动生成*\n");
    string_of(&out)
}

/// The files of the archive of the selected documents
/// (`compressed_archive_files`).
pub fn compressed_archive_file_list(documents: &Vec<TranslatedDocument>, date: &str) -> (r: Vec<(String, String)>)
    requires
        positions_fit(documents@),
    ensures
        file_views(r@) == compressed_archive_files(documents@, date@),
{
    let sel = sorted_selection(documents);
    proof { lemma_sorted_selection_fits(documents@); }
    let readme = generate_readme_content(&sel, date);
    let mut r: Vec<(String, String)> = Vec::new();
    r.push(("README.md".to_owned(), readme));
    let ghost head = seq![("README.md"@, readme_spec(sel@, date@))];
    assert(file_views(r@) =~= head);
    let mut i: usize = 0;
    while i < sel.len()
        invariant
            i <= sel@.len(),
            positions_fit(sel@),
            file_views(r@) == head + archive_files_of(sel@.take(i as int), date@),
        decreases sel.len() - i,
    {
        assert(sel@.take(i + 1).drop_last() =~= sel@.take(i as int));
        let d = &sel[i];
        assert(d.link.order < usize::MAX);
        let mut path: Vec<char> = Vec::new();
        let fv = chars_of(d.folder_path.as_str());
        let root = fv.len() == 0 || eq_chars(&fv, &chars_of("docs"));
        if !root {
            append_str(&mut path, d.folder_path.as_str());
            append_str(&mut path, "/");
        }
        append_slice(&mut path, &zero_padded_vec((d.link.order + 1) as u64, 3));
        append_str(&mut path, "_");
        append_str(&mut path, d.file_name.as_str());
        assert(path@ =~= archive_path_of(*d));
        let body = document_file_exec(d, date);
        let ghost before = file_views(r@);
        r.push((string_of(&path), string_of(&body)));
        assert(file_views(r@) =~= before.push((archive_path_of(*d), document_file(*d, date@))));
        i += 1;
    }
    assert(sel@.take(sel@.len() as int) =~= sel@);
    r
}

/// Selecting and sorting keeps the positions that fit.
proof fn lemma_sorted_selection_fits(docs: Seq<TranslatedDocument>)
    requires
        positions_fit(docs),
    ensures
        positions_fit(sort_by_order(selected_docs(docs))),
{
    lemma_selected_fits(docs);
    lemma_sort_fits(selected_docs(docs));
}

proof fn lemma_selected_fits(docs: Seq<TranslatedDocument>)
    requires
        positions_fit(docs),
    ensures
        positions_fit(selected_docs(docs)),
    decreases docs.len(),
{
    if docs.len() > 0 {
        assert(positions_fit(docs.drop_last())) by {
            assert forall|k: int| 0 <= k < docs.drop_last().len() implies (#[trigger] docs.drop_last()[k]).link.order < usize::MAX by {
                assert(docs.drop_last()[k] == docs[k]);
            }
        }
        lemma_selected_fits(docs.drop_last());
        assert(docs.last() == docs[docs.len() - 1]);
    }
}

proof fn lemma_insert_fits(sorted: Seq<TranslatedDocument>, x: TranslatedDocument)
    requires
        positions_fit(sorted),
        x.link.order < usize::MAX,
    ensures
        positions_fit(insert_by_order(sorted, x)),
    decreases sorted.len(),
{
    if sorted.len() > 0 {
        let d = sorted.drop_first();
        assert(positions_fit(d)) by {
            assert forall|k: int| 0 <= k < d.len() implies (#[trigger] d[k]).link.order < usize::MAX by {
                assert(d[k] == sorted[k + 1]);
            }
        }
        lemma_insert_fits(d, x);
        let r = insert_by_order(sorted, x);
        assert forall|k: int| 0 <= k < r.len() implies (#[trigger] r[k]).link.order < usize::MAX by {
            if x.link.order < sorted[0].link.order {
                if k > 0 { assert(r[k] == sorted[k - 1]); }
            } else {
                if k > 0 { assert(r[k] == insert_by_order(d, x)[k - 1]); } else { assert(r[0] == sorted[0]); }
            }
        }
    }
}

proof fn lemma_sort_fits(s: Seq<TranslatedDocument>)
    requires
        positions_fit(s),
    ensures
        positions_fit(sort_by_order(s)),
    decreases s.len(),
{
    if s.len() > 0 {
        assert(positions_fit(s.drop_last())) by {
            assert forall|k: int| 0 <= k < s.drop_last().len() implies (#[trigger] s.drop_last()[k]).link.order < usize::MAX by {
                assert(s.drop_last()[k] == s[k]);
            }
        }
        lemma_sort_fits(s.drop_last());
        assert(s.last() == s[s.len() - 1]);
        lemma_insert_fits(sort_by_order(s.drop_last()), s.last());
    }
}

/// The batch translation operations that need no network.
pub struct BatchTranslationService {
    pub config: AppConfig,
}

impl BatchTranslationService {
    /// The operations with the settings `config`.
    pub fn new(config: &AppConfig) -> (r: BatchTranslationService)
        ensures
            r.config == *config,
    {
        BatchTranslationService { config: config.duplicate() }
    }

    /// A gzip-compressed tar archive of the selected documents
    /// (`compressed_archive_files`, the time of making being `date`); the
    /// refusal where none is selected; else what `write_archive` gives: the
    /// archive's bytes, certainly where the archive takes every path as it
    /// is (`archive_paths_ok`), or the refused file (`archive_failure`).
    pub fn create_compressed_archive(&self, documents: &Vec<TranslatedDocument>, date: &str) -> (r: Result<Vec<u8>, String>)
        requires
            positions_fit(documents@),
        ensures
            selected_docs(documents@).len() == 0 ==> (r matches Err(e) && e@ == "没有选中任何文档"@),
            selected_docs(documents@).len() > 0 ==> match r {
                Ok(b) => portable_paths(compressed_archive_files(documents@, date@)) ==> b@ == tar_gz_archive(
                    stored_entries(compressed_archive_files(documents@, date@)),
                ),
                Err(m) => archive_failure(compressed_archive_files(documents@, date@), m@),
            },
            selected_docs(documents@).len() > 0 && archive_paths_ok(compressed_archive_files(documents@, date@))
                ==> (r matches Ok(b) && b@ == tar_gz_archive(file_entries(compressed_archive_files(documents@, date@)))),
    {
        let files = compressed_archive_file_list(documents, date);
        if files.len() == 1 {
            proof { lemma_sort_len(selected_docs(documents@)); lemma_archive_files_len(sort_by_order(selected_docs(documents@)), date@); }
            assert(file_views(files@).len() == files@.len());
            assert(selected_docs(documents@).len() == 0);
            return Err("没有选中任何文档".to_owned());
        }
        proof { lemma_sort_len(selected_docs(documents@)); lemma_archive_files_len(sort_by_order(selected_docs(documents@)), date@); }
        assert(file_views(files@).len() == files@.len());
        assert(text_pairs(files@) =~= file_views(files@));
        write_archive(&files)
    }

    /// The UTF-8 bytes of one document's file (`document_file`), made at
    /// `date`.
    pub fn create_single_file_download(&self, document: &TranslatedDocument, date: &str) -> (r: Vec<u8>)
        requires
            document.link.order < usize::MAX,
        ensures
            r@ == vstd::utf8::encode_utf8(document_file(*document, date@)),
    {
        let body = string_of(&document_file_exec(document, date));
        vstd::slice::slice_to_vec(body.as_str().as_bytes())
    }
}

proof fn lemma_sort_len(s: Seq<TranslatedDocument>)
    ensures
        sort_by_order(s).len() == s.len(),
    decreases s.len(),
{
    if s.len() > 0 {
        lemma_sort_len(s.drop_last());
        lemma_insert_len(sort_by_order(s.drop_last()), s.last());
    }
}

proof fn lemma_insert_len(s: Seq<TranslatedDocument>, x: TranslatedDocument)
    ensures
        insert_by_order(s, x).len() == s.len() + 1,
    decreases s.len(),
{
    if s.len() > 0 {
        lemma_insert_len(s.drop_first(), x);
    }
}

proof fn lemma_archive_files_len(s: Seq<TranslatedDocument>, date: Seq<char>)
    ensures
        archive_files_of(s, date).len() == s.len(),
    decreases s.len(),
{
    if s.len() > 0 {
        lemma_archive_files_len(s.drop_last(), date);
    }
}

// ---------------------------------------------------------------------------
// The steps of a batch run between the network calls.
// ---------------------------------------------------------------------------

/// The host of the index page, or why there is none.
pub fn index_base_domain(index_url: &str) -> (r: Result<String, String>)
    ensures
        match r {
            Ok(h) => host_spec(index_url@) == Some(h@),
            Err(e) => host_spec(index_url@) is None && e@ == "无法解析输入URL的域名"@,
        },
{
    match extract_base_domain(index_url) {
        Some(h) => Ok(h),
        None => Err("无法解析输入URL的域名".to_owned()),
    }
}

/// What the progress shows while document `index` (from 0) of `total` is
/// translated.
pub open spec fn progress_task(title: Seq<char>, index: nat, total: nat) -> Seq<char> {
    "正在翻译: "@ + title + " ("@ + decimal(index + 1) + "/"@ + decimal(total) + ")"@
}

/// `progress_task`.
pub fn progress_message(title: &str, index: usize, total: usize) -> (r: String)
    requires
        index < usize::MAX,
    ensures
        r@ == progress_task(title@, index as nat, total as nat),
{
    let mut out: Vec<char> = Vec::new();
    append_str(&mut out, "正在翻译: ");
    append_str(&mut out, title);
    append_str(&mut out, " (");
    append_slice(&mut out, &decimal_vec((index + 1) as u64));
    append_str(&mut out, "/");
    append_slice(&mut out, &decimal_vec(total as u64));
    append_str(&mut out, ")");
    string_of(&out)
}

/// What the progress shows at the end.
pub open spec fn completion_task(ok: nat, failed: nat) -> Seq<char> {
    if failed > 0 {
        "翻译完成，成功: "@ + decimal(ok) + ", 失败: "@ + decimal(failed)
    } else {
        "所有文档翻译完成"@
    }
}

/// `completion_task`.
pub fn completion_message(ok: usize, failed: usize) -> (r: String)
    ensures
        r@ == completion_task(ok as nat, failed as nat),
{
    if failed > 0 {
        let mut out: Vec<char> = Vec::new();
        append_str(&mut out, "翻译完成，成功: ");
        append_slice(&mut out, &decimal_vec(ok as u64));
        append_str(&mut out, ", 失败: ");
        append_slice(&mut out, &decimal_vec(failed as u64));
        string_of(&out)
    } else {
        "所有文档翻译完成".to_owned()
    }
}

/// How many attempts a document gets.
pub const MAX_RETRIES: u32 = 2;

/// Two to the power `k`.
pub open spec fn pow2(k: nat) -> nat
    decreases k,
{
    if k == 0 { 1 } else { 2 * pow2((k - 1) as nat) }
}

/// After failed attempt number `attempts` (from 1): `None` where the
/// document is given up, else the milliseconds to wait before the next
/// attempt (1000 times two to the power `attempts`).
pub fn retry_delay(attempts: u32) -> (r: Option<u32>)
    requires
        attempts <= 21,
    ensures
        attempts >= MAX_RETRIES ==> r is None,
        attempts < MAX_RETRIES ==> r == Some((1000 * pow2(attempts as nat)) as u32),
{
    if attempts >= MAX_RETRIES {
        None
    } else {
        let mut p: u32 = 1;
        let mut i: u32 = 0;
        while i < attempts
            invariant
                i <= attempts,
                attempts < 2,
                p == pow2(i as nat),
            decreases attempts - i,
        {
            p = p * 2;
            i += 1;
        }
        assert(p <= 2) by {
            assert(pow2(0) == 1);
            assert(pow2(1) == 2 * pow2(0));
        }
        Some(1000 * p)
    }
}

/// The pause after a document: longer once something has failed.
pub fn document_delay(failed_count: usize) -> (r: u32)
    ensures
        r == (if failed_count == 0 { 1000u32 } else { 2000u32 }),
{
    if failed_count == 0 { 1000 } else { 2000 }
}

/// Whether a longer rest follows document `index` (from 0): after every
/// tenth.
pub fn needs_rest(index: usize) -> (r: bool)
    requires
        index < usize::MAX,
    ensures
        r == ((index + 1) % 10 == 0),
{
    (index + 1) % 10 == 0
}

/// What follows the outcome of an attempt at a document.
#[derive(Debug, Clone, Copy, PartialEq, Eq, Structural)]
pub enum BatchNext {
    /// Wait this many milliseconds, then try the same document again.
    Retry(u32),
    /// Wait `pause` milliseconds, then `rest` more, then go on with the next
    /// document.
    Advance { pause: u32, rest: u32 },
}

/// A batch translation under way: how many documents there are, which one
/// is being worked on, how many attempts at it have failed, the documents
/// translated so far and how many were given up.
pub struct BatchRun {
    total: usize,
    index: usize,
    attempts: u32,
    translated: Vec<TranslatedDocument>,
    failed: usize,
}

/// The pause after a document, given the number given up so far.
pub open spec fn pause_after(failed: nat) -> u32 {
    if failed == 0 { 1000 } else { 2000 }
}

/// The extra rest after document `index` (from 0): after every tenth.
pub open spec fn rest_after(index: nat) -> u32 {
    if (index + 1) % 10 == 0 { 2000 } else { 0 }
}

impl BatchRun {
    /// The number of documents.
    pub closed spec fn total(&self) -> nat {
        self.total as nat
    }

    /// The position of the document being worked on (the number finished).
    pub closed spec fn index(&self) -> nat {
        self.index as nat
    }

    /// The failed attempts at the current document.
    pub closed spec fn attempts(&self) -> nat {
        self.attempts as nat
    }

    /// The documents translated so far, in order.
    pub closed spec fn translated(&self) -> Seq<TranslatedDocument> {
        self.translated@
    }

    /// The number of documents given up.
    pub closed spec fn failed(&self) -> nat {
        self.failed as nat
    }

    /// Every finished document was either translated or given up, no more
    /// documents than there are were finished, and the current one has had
    /// fewer failed attempts than allowed.
    pub closed spec fn wf(&self) -> bool {
        &&& self.index <= self.total
        &&& self.translated@.len() + self.failed == self.index
        &&& self.attempts < MAX_RETRIES
    }

    /// A run over `total` documents, with the progress shown at its start.
    pub fn new(total: usize) -> (r: (BatchRun, BatchProgress))
        ensures
            r.0.wf(),
            r.0.total() == total,
            r.0.index() == 0,
            r.0.attempts() == 0,
            r.0.translated().len() == 0,
            r.0.failed() == 0,
            r.1.total == total,
            r.1.completed == 0,
            r.1.current_task@ == "开始批量翻译"@,
            r.1.failed_count == 0,
            r.1.status is Translating,
    {
        let run = BatchRun { total, index: 0, attempts: 0, translated: Vec::new(), failed: 0 };
        let p = BatchProgress {
            total,
            completed: 0,
            current_task: "开始批量翻译".to_owned(),
            failed_count: 0,
            status: BatchStatus::Translating,
        };
        (run, p)
    }

    /// Whether every document is finished.
    pub fn is_done(&self) -> (r: bool)
        ensures
            r == (self.index() == self.total()),
    {
        self.index == self.total
    }

    /// The position of the document being worked on.
    pub fn current(&self) -> (r: usize)
        ensures
            r == self.index(),
    {
        self.index
    }

    /// The progress shown when work on the current document, titled
    /// `title`, begins.
    pub fn progress(&self, title: &str) -> (r: BatchProgress)
        requires
            self.wf(),
            self.index() < self.total(),
        ensures
            r.total == self.total(),
            r.completed == self.index(),
            r.current_task@ == progress_task(title@, self.index(), self.total()),
            r.failed_count == self.failed(),
            r.status is Translating,
    {
        BatchProgress {
            total: self.total,
            completed: self.index,
            current_task: progress_message(title, self.index, self.total),
            failed_count: self.failed,
            status: BatchStatus::Translating,
        }
    }

    /// Records the outcome of an attempt at the current document: its
    /// translation, or `None` where it failed. A translated document is kept
    /// and the run goes on; a failed attempt is tried again after the retry
    /// delay, unless it was the last allowed, in which case the document is
    /// given up and the run goes on. Going on waits the pause for the number
    /// given up so far, and after every tenth document the rest.
    pub fn record(&mut self, outcome: Option<TranslatedDocument>) -> (r: BatchNext)
        requires
            old(self).wf(),
            old(self).index() < old(self).total(),
        ensures
            final(self).wf(),
            final(self).total() == old(self).total(),
            match outcome {
                Some(d) => {
                    &&& final(self).translated() == old(self).translated().push(d)
                    &&& final(self).failed() == old(self).failed()
                    &&& final(self).index() == old(self).index() + 1
                    &&& final(self).attempts() == 0
                    &&& r == BatchNext::Advance { pause: pause_after(old(self).failed()), rest: rest_after(old(self).index()) }
                },
                None => if old(self).attempts() + 1 >= MAX_RETRIES {
                    &&& final(self).translated() == old(self).translated()
                    &&& final(self).failed() == old(self).failed() + 1
                    &&& final(self).index() == old(self).index() + 1
                    &&& final(self).attempts() == 0
                    &&& r == BatchNext::Advance { pause: pause_after(old(self).failed() + 1), rest: rest_after(old(self).index()) }
                } else {
                    &&& final(self).translated() == old(self).translated()
                    &&& final(self).failed() == old(self).failed()
                    &&& final(self).index() == old(self).index()
                    &&& final(self).attempts() == old(self).attempts() + 1
                    &&& r == BatchNext::Retry((1000 * pow2(old(self).attempts() + 1)) as u32)
                },
            },
    {
        let finished = self.index;
        match outcome {
            Some(d) => {
                self.translated.push(d);
                self.index = self.index + 1;
                self.attempts = 0;
            },
            None => {
                let attempts = self.attempts + 1;
                match retry_delay(attempts) {
                    Some(ms) => {
                        self.attempts = attempts;
                        return BatchNext::Retry(ms);
                    },
                    None => {
                        self.failed = self.failed + 1;
                        self.index = self.index + 1;
                        self.attempts = 0;
                    },
                }
            },
        }
        let rest: u32 = if needs_rest(finished) { 2000 } else { 0 };
        BatchNext::Advance { pause: document_delay(self.failed), rest }
    }

    /// Ends a finished run: the translated documents, and the progress shown
    /// at the end.
    pub fn finish(self) -> (r: (Vec<TranslatedDocument>, BatchProgress))
        requires
            self.wf(),
            self.index() == self.total(),
        ensures
            r.0@ == self.translated(),
            r.1.total == self.total(),
            r.1.completed == self.translated().len(),
            r.1.current_task@ == completion_task(self.translated().len(), self.failed()),
            r.1.failed_count == self.failed(),
            r.1.status is Completed,
    {
        let p = BatchProgress {
            total: self.total,
            completed: self.translated.len(),
            current_task: completion_message(self.translated.len(), self.failed),
            failed_count: self.failed,
            status: BatchStatus::Completed,
        };
        (self.translated, p)
    }
}

/// When a batch run is over, every document was either translated or given
/// up: the two numbers add up to the number of documents.
pub proof fn law_batch_run_accounts_for_every_document(run: BatchRun)
    requires
        run.wf(),
        run.index() == run.total(),
    ensures
        run.translated().len() + run.failed() == run.total(),
{
}

/// A run never counts a document twice: while it is under way, the
/// documents translated and given up are those finished, never more than
/// there are.
pub proof fn law_batch_run_counts_stay_within_total(run: BatchRun)
    requires
        run.wf(),
    ensures
        run.translated().len() + run.failed() == run.index(),
        run.index() <= run.total(),
{
}

/// Whether `ctx` is the naming context of the document of `link` named at
/// `now`: its URL, its title with the page's path in front, its position,
/// content type `documentation`, no folder.
pub open spec fn is_document_context(ctx: FileNamingContext, link: DocumentLink, now: Timestamp) -> bool {
    &&& ctx.url@ == link.url@
    &&& ctx.title@ == enhanced_title(link.url@, link.title@)
    &&& ctx.order == Some(link.order)
    &&& ctx.timestamp == now
    &&& ctx.content_type@ == "documentation"@
    &&& ctx.folder_path is None
}

/// A translated document from its link and the fetched and translated
/// texts: refused where either text is blank; named by a fresh naming
/// service with `naming` (`None` where that cannot name it), in the folder
/// `documents`, selected.
pub fn translated_document(
    link: &DocumentLink,
    original_content: String,
    translated_content: String,
    now: Timestamp,
    naming: &FileNamingConfig,
) -> (r: Option<Result<TranslatedDocument, String>>)
    requires
        naming.word_separator@.len() > 0,
    ensures
        trim(original_content@).len() == 0 ==> (r matches Some(Err(e)) && e@ == "提取的内容为空"@),
        trim(original_content@).len() > 0 && trim(translated_content@).len() == 0 ==> (r matches Some(Err(e)) && e@ == "翻译结果为空"@),
        trim(original_content@).len() > 0 && trim(translated_content@).len() > 0 ==> exists|ctx: FileNamingContext| #![trigger is_document_context(ctx, *link, now)] {
            &&& is_document_context(ctx, *link, now)
            &&& match r {
                Some(Ok(d)) => {
                    &&& nameable(*naming, ctx)
                    &&& d.link == *link
                    &&& d.original_content == original_content
                    &&& d.translated_content == translated_content
                    &&& d.file_name@ == unique_name(Seq::empty(), base_name_spec(*naming, ctx)) + extension_spec(*naming)
                    &&& d.folder_path@ == "documents"@
                    &&& d.selected
                },
                Some(Err(_)) => false,
                None => !nameable(*naming, ctx),
            }
        },
{
    if trim_vec(&chars_of(original_content.as_str())).len() == 0 {
        return Some(Err("提取的内容为空".to_owned()));
    }
    if trim_vec(&chars_of(translated_content.as_str())).len() == 0 {
        return Some(Err("翻译结果为空".to_owned()));
    }
    let ctx = FileNamingContext {
        url: link.url.clone(),
        title: create_enhanced_title_with_path(link.url.as_str(), link.title.as_str()),
        order: Some(link.order),
        timestamp: now,
        content_type: "documentation".to_owned(),
        folder_path: None,
    };
    let mut service = FileNamingService::new(naming.duplicate());
    let r = match service.try_generate_file_name(&ctx) {
        Some(res) => Some(Ok(TranslatedDocument {
            link: link.duplicate(),
            original_content,
            translated_content,
            file_name: res.file_name,
            folder_path: generate_smart_folder_path(link.url.as_str()),
            selected: true,
        })),
        None => None,
    };
    assert(is_document_context(ctx, *link, now));
    r
}

/// A URL that holds `print.html`, `github.com`, `mailto:`, `javascript:`,
/// `.git`, `#`, `search.html` or `404.html` is never a documentation URL.
pub proof fn law_excluded_urls_are_not_documents(url: Seq<char>)
    ensures
        has_match(url, "print.html"@) ==> !is_documentation_url(url),
        has_match(url, "github.com"@) ==> !is_documentation_url(url),
        has_match(url, "mailto:"@) ==> !is_documentation_url(url),
        has_match(url, "javascript:"@) ==> !is_documentation_url(url),
        has_match(url, ".git"@) ==> !is_documentation_url(url),
        has_match(url, "#"@) ==> !is_documentation_url(url),
        has_match(url, "search.html"@) ==> !is_documentation_url(url),
        has_match(url, "404.html"@) ==> !is_documentation_url(url),
{
    let ex = url_exclusions();
    assert(ex[0] == "print.html"@);
    assert(ex[1] == "github.com"@);
    assert(ex[2] == "mailto:"@);
    assert(ex[3] == "javascript:"@);
    assert(ex[4] == ".git"@);
    assert(ex[5] == "#"@);
    assert(ex[6] == "search.html"@);
    assert(ex[7] == "404.html"@);
}

/// Every link taken from an index is a same-site documentation URL, so
/// none holds `print.html` or another exclusion.
pub proof fn law_extracted_links_are_documents(ls: Seq<Seq<char>>, base: Seq<char>)
    ensures
        forall|k: int| 0 <= k < links_of_lines(ls, base).len()
            ==> is_same_site_doc(#[trigger] links_of_lines(ls, base)[k].1, base),
        forall|k: int| 0 <= k < links_of_lines(ls, base).len()
            ==> !has_match(#[trigger] links_of_lines(ls, base)[k].1, "print.html"@),
    decreases ls.len(),
{
    if ls.len() > 0 {
        law_extracted_links_are_documents(ls.drop_last(), base);
        let r = links_of_lines(ls.drop_last(), base);
        let q = links_of_lines(ls, base);
        assert forall|k: int| 0 <= k < q.len() implies is_same_site_doc(#[trigger] q[k].1, base) by {
            if k < r.len() {
                assert(q[k] == r[k]);
            }
        }
        assert forall|k: int| 0 <= k < q.len() implies !has_match(#[trigger] q[k].1, "print.html"@) by {
            assert(is_same_site_doc(q[k].1, base));
            law_excluded_urls_are_not_documents(q[k].1);
        }
    }
}

} // verus!
