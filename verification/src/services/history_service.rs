//! The translation history: adding, finding, deleting, searching and
//! exporting entries, and the documents downloaded from them. Where the
//! entries are stored is the caller's concern: the operations take the
//! stored list and give the list to store back.

use vstd::prelude::*;
use crate::text::{
    append_slice, append_str, chars_of, contains, has_match, lowercase_vec, string_of, unicode_lowercase,
    replace, replace_vec, eq_chars, contains_string, string_views, views, slice_vec,
};
use crate::archive::{
    archive_failure, archive_paths_ok, file_entries, portable_paths, stored_entries, tar_gz_archive, text_pairs,
    write_archive,
};
use crate::num::{decimal, decimal_vec, zero_padded, zero_padded_vec};
use crate::urls::{parse_url, url_parse};
use crate::types::history::{BatchDocumentInfo, HistoryEntry, HistoryEntryType, HistoryFilter, HistorySortBy};

verus! {

/// The most entries the history keeps.
pub const MAX_HISTORY_ENTRIES: usize = 100;

/// The storage key of the history.
pub const HISTORY_STORAGE_KEY: &'static str = "translation_history";

/// The history operations.
#[derive(Clone, Debug)]
pub struct HistoryService;

// ---------------------------------------------------------------------------
// Finding entries.
// ---------------------------------------------------------------------------

/// The index of the first entry with URL `url`.
pub open spec fn find_url(s: Seq<HistoryEntry>, url: Seq<char>) -> Option<int>
    decreases s.len(),
{
    if s.len() == 0 {
        None
    } else {
        match find_url(s.drop_last(), url) {
            Some(i) => Some(i),
            None => if s.last().url@ == url { Some(s.len() - 1) } else { None },
        }
    }
}

/// The index of the first entry with id `id`.
pub open spec fn find_id(s: Seq<HistoryEntry>, id: Seq<char>) -> Option<int>
    decreases s.len(),
{
    if s.len() == 0 {
        None
    } else {
        match find_id(s.drop_last(), id) {
            Some(i) => Some(i),
            None => if s.last().id@ == id { Some(s.len() - 1) } else { None },
        }
    }
}

/// The history after adding `e`: it replaces the first entry with its URL,
/// or else goes in front, and the list is cut to `MAX_HISTORY_ENTRIES`.
pub open spec fn added(s: Seq<HistoryEntry>, e: HistoryEntry) -> Seq<HistoryEntry> {
    match find_url(s, e.url@) {
        Some(i) => s.update(i, e),
        None => {
            let t = seq![e] + s;
            if t.len() > MAX_HISTORY_ENTRIES { t.take(MAX_HISTORY_ENTRIES as int) } else { t }
        },
    }
}

/// The entries whose id is not `id`, in order.
pub open spec fn without_id(s: Seq<HistoryEntry>, id: Seq<char>) -> Seq<HistoryEntry>
    decreases s.len(),
{
    if s.len() == 0 {
        seq![]
    } else {
        let r = without_id(s.drop_last(), id);
        if s.last().id@ == id { r } else { r.push(s.last()) }
    }
}

proof fn lemma_find_url_range(s: Seq<HistoryEntry>, url: Seq<char>)
    ensures
        match find_url(s, url) {
            Some(i) => 0 <= i < s.len() && s[i].url@ == url && forall|j: int| 0 <= j < i ==> s[j].url@ != url,
            None => forall|j: int| 0 <= j < s.len() ==> s[j].url@ != url,
        },
    decreases s.len(),
{
    if s.len() > 0 {
        lemma_find_url_range(s.drop_last(), url);
        assert forall|j: int| 0 <= j < s.len() - 1 implies s.drop_last()[j] == s[j] by {}
    }
}

proof fn lemma_find_id_range(s: Seq<HistoryEntry>, id: Seq<char>)
    ensures
        match find_id(s, id) {
            Some(i) => 0 <= i < s.len() && s[i].id@ == id,
            None => forall|j: int| 0 <= j < s.len() ==> s[j].id@ != id,
        },
    decreases s.len(),
{
    if s.len() > 0 {
        lemma_find_id_range(s.drop_last(), id);
        assert forall|j: int| 0 <= j < s.len() - 1 implies s.drop_last()[j] == s[j] by {}
    }
}

/// The index of the first entry with URL `url`.
fn find_url_exec(s: &Vec<HistoryEntry>, url: &String) -> (r: Option<usize>)
    ensures
        match r {
            Some(i) => find_url(s@, url@) == Some(i as int),
            None => find_url(s@, url@) is None,
        },
{
    let mut i: usize = 0;
    while i < s.len()
        invariant
            i <= s@.len(),
            find_url(s@.take(i as int), url@) is None,
        decreases s.len() - i,
    {
        assert(s@.take(i + 1).drop_last() =~= s@.take(i as int));
        if s[i].url == *url {
            proof { lemma_find_url_prefix(s@, url@, i + 1); }
            return Some(i);
        }
        i += 1;
    }
    assert(s@.take(s@.len() as int) =~= s@);
    None
}

/// A match in a prefix is the match of the whole.
proof fn lemma_find_url_prefix(s: Seq<HistoryEntry>, url: Seq<char>, k: int)
    requires
        0 <= k <= s.len(),
        find_url(s.take(k), url) is Some,
    ensures
        find_url(s, url) == find_url(s.take(k), url),
    decreases s.len() - k,
{
    if k < s.len() {
        assert(s.take(k + 1).drop_last() =~= s.take(k));
        lemma_find_url_prefix(s, url, k + 1);
    } else {
        assert(s.take(k) =~= s);
    }
}

/// A match in a prefix is the match of the whole.
proof fn lemma_find_id_prefix(s: Seq<HistoryEntry>, id: Seq<char>, k: int)
    requires
        0 <= k <= s.len(),
        find_id(s.take(k), id) is Some,
    ensures
        find_id(s, id) == find_id(s.take(k), id),
    decreases s.len() - k,
{
    if k < s.len() {
        assert(s.take(k + 1).drop_last() =~= s.take(k));
        lemma_find_id_prefix(s, id, k + 1);
    } else {
        assert(s.take(k) =~= s);
    }
}

/// The index of the first entry with id `id`.
fn find_id_exec(s: &Vec<HistoryEntry>, id: &str) -> (r: Option<usize>)
    ensures
        match r {
            Some(i) => find_id(s@, id@) == Some(i as int),
            None => find_id(s@, id@) is None,
        },
{
    let key = id.to_owned();
    let mut i: usize = 0;
    while i < s.len()
        invariant
            i <= s@.len(),
            key@ == id@,
            find_id(s@.take(i as int), id@) is None,
        decreases s.len() - i,
    {
        assert(s@.take(i + 1).drop_last() =~= s@.take(i as int));
        if s[i].id == key {
            proof { lemma_find_id_prefix(s@, id@, i + 1); }
            return Some(i);
        }
        i += 1;
    }
    assert(s@.take(s@.len() as int) =~= s@);
    None
}

impl HistoryService {
    pub fn new() -> (r: HistoryService) {
        HistoryService
    }

    /// Adds `entry` to the stored `entries` (`added`).
    pub fn add_entry(&self, entries: &mut Vec<HistoryEntry>, entry: HistoryEntry)
        ensures
            final(entries)@ == added(old(entries)@, entry),
    {
        match find_url_exec(entries, &entry.url) {
            Some(i) => {
                proof { lemma_find_url_range(entries@, entry.url@); }
                entries.set(i, entry);
            },
            None => {
                entries.insert(0, entry);
                if entries.len() > MAX_HISTORY_ENTRIES {
                    entries.truncate(MAX_HISTORY_ENTRIES);
                }
            },
        }
    }

    /// The first stored entry with id `id`.
    pub fn get_entry_by_id(&self, entries: Vec<HistoryEntry>, id: &str) -> (r: Option<HistoryEntry>)
        ensures
            r == (match find_id(entries@, id@) {
                Some(i) => Some(entries@[i]),
                None => None,
            }),
    {
        let mut entries = entries;
        match find_id_exec(&entries, id) {
            Some(i) => {
                proof { lemma_find_id_range(entries@, id@); }
                Some(entries.remove(i))
            },
            None => None,
        }
    }

    /// Removes every stored entry with id `id`.
    pub fn delete_entry(&self, entries: &mut Vec<HistoryEntry>, id: &str)
        ensures
            final(entries)@ == without_id(old(entries)@, id@),
    {
        let ghost orig = entries@;
        let key = id.to_owned();
        assert(orig.len() == entries.len());
        let mut rest: Vec<HistoryEntry> = Vec::new();
        std::mem::swap(&mut rest, entries);
        let mut k: usize = 0;
        assert(orig.len() == rest.len());
        assert(orig.take(0) =~= Seq::<HistoryEntry>::empty());
        assert(orig.skip(0) =~= orig);
        while rest.len() > 0
            invariant
                k <= orig.len(),
                orig.len() <= usize::MAX,
                key@ == id@,
                rest@ == orig.skip(k as int),
                entries@ == without_id(orig.take(k as int), id@),
            decreases rest@.len(),
        {
            assert(orig.take(k + 1).drop_last() =~= orig.take(k as int));
            assert(orig.skip(k as int)[0] == orig[k as int]);
            let e = rest.remove(0);
            assert(rest@ =~= orig.skip(k + 1));
            if e.id != key {
                entries.push(e);
            }
            k += 1;
        }
        assert(orig.take(k as int) =~= orig);
    }
}

// ---------------------------------------------------------------------------
// Laws of adding and deleting.
// ---------------------------------------------------------------------------

/// Whether no two entries share a URL.
pub open spec fn urls_distinct(s: Seq<HistoryEntry>) -> bool {
    forall|i: int, j: int| 0 <= i < j < s.len() ==> s[i].url@ != s[j].url@
}

/// After adding an entry, the first entry with its URL is that entry.
pub proof fn law_added_entry_is_found(s: Seq<HistoryEntry>, e: HistoryEntry)
    ensures
        find_url(added(s, e), e.url@) is Some,
        added(s, e)[find_url(added(s, e), e.url@).unwrap()] == e,
{
    lemma_find_url_range(s, e.url@);
    let r = added(s, e);
    match find_url(s, e.url@) {
        Some(i) => {
            assert(r.take(i + 1).drop_last() =~= s.take(i));
            assert(r.take(i + 1).last() == e);
            lemma_find_url_none_prefix(s, e.url@, i);
            assert(find_url(r.take(i + 1), e.url@) == Some(i));
            lemma_find_url_prefix(r, e.url@, i + 1);
            assert(r[i] == e);
        },
        None => {
            assert(r.take(1) =~= seq![e]);
            assert(seq![e].drop_last() =~= Seq::<HistoryEntry>::empty());
            assert(find_url(Seq::<HistoryEntry>::empty(), e.url@) is None);
            assert(find_url(r.take(1), e.url@) == Some(0int));
            lemma_find_url_prefix(r, e.url@, 1);
            assert(r[0] == e);
        },
    }
}

/// Before the first match no prefix matches.
proof fn lemma_find_url_none_prefix(s: Seq<HistoryEntry>, url: Seq<char>, k: int)
    requires
        0 <= k <= s.len(),
        forall|j: int| 0 <= j < k ==> s[j].url@ != url,
    ensures
        find_url(s.take(k), url) is None,
    decreases k,
{
    if k > 0 {
        assert(s.take(k).drop_last() =~= s.take(k - 1));
        lemma_find_url_none_prefix(s, url, k - 1);
    }
}

/// Adding keeps the URLs of the history distinct.
pub proof fn law_added_keeps_urls_distinct(s: Seq<HistoryEntry>, e: HistoryEntry)
    requires
        urls_distinct(s),
    ensures
        urls_distinct(added(s, e)),
{
    lemma_find_url_range(s, e.url@);
    let r = added(s, e);
    match find_url(s, e.url@) {
        Some(i) => {
            assert forall|a: int, b: int| 0 <= a < b < r.len() implies r[a].url@ != r[b].url@ by {
                if a == i {
                    assert(s[i].url@ == e.url@);
                } else if b == i {
                    assert(s[i].url@ == e.url@);
                }
            }
        },
        None => {
            let t = seq![e] + s;
            assert forall|a: int, b: int| 0 <= a < b < r.len() implies r[a].url@ != r[b].url@ by {
                assert(r[a] == t[a] && r[b] == t[b]);
                if a > 0 {
                    assert(t[a] == s[a - 1] && t[b] == s[b - 1]);
                } else {
                    assert(t[b] == s[b - 1]);
                }
            }
        },
    }
}

/// Adding never takes the history past `MAX_HISTORY_ENTRIES` entries, and
/// never drops an entry while there is room.
pub proof fn law_added_bounded(s: Seq<HistoryEntry>, e: HistoryEntry)
    requires
        s.len() <= MAX_HISTORY_ENTRIES,
    ensures
        added(s, e).len() <= MAX_HISTORY_ENTRIES,
        added(s, e).len() >= s.len(),
{
    lemma_find_url_range(s, e.url@);
}

/// After deleting an id no entry has it.
pub proof fn law_deleted_is_gone(s: Seq<HistoryEntry>, id: Seq<char>)
    ensures
        find_id(without_id(s, id), id) is None,
        forall|j: int| 0 <= j < without_id(s, id).len() ==> without_id(s, id)[j].id@ != id,
    decreases s.len(),
{
    if s.len() > 0 {
        law_deleted_is_gone(s.drop_last(), id);
        lemma_find_id_range(without_id(s, id), id);
        let r0 = without_id(s.drop_last(), id);
        let r = without_id(s, id);
        assert forall|j: int| 0 <= j < r.len() implies r[j].id@ != id by {
            if j < r0.len() {
                assert(r[j] == r0[j]);
            }
        }
    }
}

// ---------------------------------------------------------------------------
// Searching.
// ---------------------------------------------------------------------------

/// Whether `a` comes before `b` in the order of `str`: character by
/// character, a proper prefix first. (UTF-8 keeps the order of code points,
/// so this is also the order of the bytes.)
pub open spec fn str_less(a: Seq<char>, b: Seq<char>) -> bool
    decreases a.len(),
{
    if b.len() == 0 {
        false
    } else if a.len() == 0 {
        true
    } else if a[0] != b[0] {
        (a[0] as u32) < (b[0] as u32)
    } else {
        str_less(a.drop_first(), b.drop_first())
    }
}

/// Whether `a` goes strictly before `b` in the order `by`.
pub open spec fn sort_before(by: HistorySortBy, a: HistoryEntry, b: HistoryEntry) -> bool {
    match by {
        HistorySortBy::CreatedAtDesc => str_less(b.created_at@, a.created_at@),
        HistorySortBy::CreatedAtAsc => str_less(a.created_at@, b.created_at@),
        HistorySortBy::TitleAsc => str_less(a.title@, b.title@),
        HistorySortBy::TitleDesc => str_less(b.title@, a.title@),
        HistorySortBy::WordCountDesc => b.word_count < a.word_count,
        HistorySortBy::WordCountAsc => a.word_count < b.word_count,
    }
}

/// `x` put into `sorted` after every entry it does not go before.
pub open spec fn insert_sorted(sorted: Seq<HistoryEntry>, x: HistoryEntry, by: HistorySortBy) -> Seq<HistoryEntry>
    decreases sorted.len(),
{
    if sorted.len() == 0 {
        seq![x]
    } else if sort_before(by, x, sorted[0]) {
        seq![x] + sorted
    } else {
        seq![sorted[0]] + insert_sorted(sorted.drop_first(), x, by)
    }
}

/// The stable sort of `s` in the order `by` (`slice::sort_by`): entries in
/// order, entries that neither goes before the other kept as they came.
pub open spec fn stable_sort(s: Seq<HistoryEntry>, by: HistorySortBy) -> Seq<HistoryEntry>
    decreases s.len(),
{
    if s.len() == 0 {
        seq![]
    } else {
        insert_sorted(stable_sort(s.drop_last(), by), s.last(), by)
    }
}

/// Whether an entry matches the search term of `f`: the lowercased term
/// occurs in the lowercased title, URL or translation.
pub open spec fn term_matches(e: HistoryEntry, f: HistoryFilter) -> bool {
    match f.search_term {
        Some(t) => {
            let lt = unicode_lowercase(t@);
            has_match(unicode_lowercase(e.title@), lt) || has_match(unicode_lowercase(e.url@), lt)
                || has_match(unicode_lowercase(e.translated_content@), lt)
        },
        None => true,
    }
}

/// Whether an entry passes the filter `f`.
pub open spec fn passes(e: HistoryEntry, f: HistoryFilter) -> bool {
    &&& term_matches(e, f)
    &&& (f.source_lang matches Some(l) ==> e.source_lang@ == l@)
    &&& (f.target_lang matches Some(l) ==> e.target_lang@ == l@)
}

/// The entries that pass `f`, in order.
pub open spec fn filter_entries(s: Seq<HistoryEntry>, f: HistoryFilter) -> Seq<HistoryEntry>
    decreases s.len(),
{
    if s.len() == 0 {
        seq![]
    } else {
        let r = filter_entries(s.drop_last(), f);
        if passes(s.last(), f) { r.push(s.last()) } else { r }
    }
}

/// `str_less` on strings.
fn str_less_exec(a: &String, b: &String) -> (r: bool)
    ensures
        r == str_less(a@, b@),
{
    let x = chars_of(a.as_str());
    let y = chars_of(b.as_str());
    let mut i: usize = 0;
    assert(x@.skip(0) =~= x@);
    assert(y@.skip(0) =~= y@);
    while i < x.len() && i < y.len() && x[i] == y[i]
        invariant
            i <= x@.len(),
            i <= y@.len(),
            str_less(a@, b@) == str_less(x@.skip(i as int), y@.skip(i as int)),
            x@ == a@,
            y@ == b@,
        decreases x.len() - i,
    {
        assert(x@.skip(i as int).drop_first() =~= x@.skip(i + 1));
        assert(y@.skip(i as int).drop_first() =~= y@.skip(i + 1));
        i += 1;
    }
    if i == y.len() {
        false
    } else if i == x.len() {
        true
    } else {
        (x[i] as u32) < (y[i] as u32)
    }
}

/// `sort_before` on entries.
fn sort_before_exec(by: &HistorySortBy, a: &HistoryEntry, b: &HistoryEntry) -> (r: bool)
    ensures
        r == sort_before(*by, *a, *b),
{
    match by {
        HistorySortBy::CreatedAtDesc => str_less_exec(&b.created_at, &a.created_at),
        HistorySortBy::CreatedAtAsc => str_less_exec(&a.created_at, &b.created_at),
        HistorySortBy::TitleAsc => str_less_exec(&a.title, &b.title),
        HistorySortBy::TitleDesc => str_less_exec(&b.title, &a.title),
        HistorySortBy::WordCountDesc => b.word_count < a.word_count,
        HistorySortBy::WordCountAsc => a.word_count < b.word_count,
    }
}

/// Inserting at the first place where `x` goes before the entry there.
proof fn lemma_insert_sorted_at(sorted: Seq<HistoryEntry>, x: HistoryEntry, by: HistorySortBy, j: int)
    requires
        0 <= j <= sorted.len(),
        forall|k: int| 0 <= k < j ==> !sort_before(by, x, #[trigger] sorted[k]),
        j < sorted.len() ==> sort_before(by, x, sorted[j]),
    ensures
        insert_sorted(sorted, x, by) == sorted.take(j) + seq![x] + sorted.skip(j),
    decreases j,
{
    if j == 0 {
        if sorted.len() == 0 {
            assert(sorted.take(0) + seq![x] + sorted.skip(0) =~= seq![x]);
        } else {
            assert(sorted.take(0) + seq![x] + sorted.skip(0) =~= seq![x] + sorted);
        }
    } else {
        let d = sorted.drop_first();
        assert forall|k: int| 0 <= k < j - 1 implies !sort_before(by, x, #[trigger] d[k]) by {
            assert(d[k] == sorted[k + 1]);
        }
        assert(!sort_before(by, x, sorted[0]));
        lemma_insert_sorted_at(d, x, by, j - 1);
        assert(seq![sorted[0]] + (d.take(j - 1) + seq![x] + d.skip(j - 1)) =~= sorted.take(j) + seq![x] + sorted.skip(j));
    }
}

/// Inserts `x` into the sorted `out` (`insert_sorted`).
fn insert_sorted_exec(out: &mut Vec<HistoryEntry>, x: HistoryEntry, by: &HistorySortBy)
    ensures
        final(out)@ == insert_sorted(old(out)@, x, *by),
{
    let mut j: usize = 0;
    while j < out.len() && !sort_before_exec(by, &x, &out[j])
        invariant
            j <= out@.len(),
            forall|k: int| 0 <= k < j ==> !sort_before(*by, x, #[trigger] out@[k]),
        decreases out.len() - j,
    {
        j += 1;
    }
    proof {
        lemma_insert_sorted_at(out@, x, *by, j as int);
    }
    let ghost before = out@;
    out.insert(j, x);
    assert(out@ =~= before.take(j as int) + seq![x] + before.skip(j as int));
}

impl HistoryService {
    /// The stored entries that pass `filter`, stably sorted by `sort_by`.
    pub fn search_entries(
        &self,
        entries: Vec<HistoryEntry>,
        filter: &HistoryFilter,
        sort_by: &HistorySortBy,
    ) -> (r: Vec<HistoryEntry>)
        ensures
            r@ == stable_sort(filter_entries(entries@, *filter), *sort_by),
            *sort_by is CreatedAtDesc ==> forall|i: int, j: int|
                0 <= i < j < r@.len() ==> !str_less((#[trigger] r@[i]).created_at@, (#[trigger] r@[j]).created_at@),
            *sort_by is CreatedAtAsc ==> forall|i: int, j: int|
                0 <= i < j < r@.len() ==> !str_less((#[trigger] r@[j]).created_at@, (#[trigger] r@[i]).created_at@),
            *sort_by is TitleAsc ==> forall|i: int, j: int|
                0 <= i < j < r@.len() ==> !str_less((#[trigger] r@[j]).title@, (#[trigger] r@[i]).title@),
            *sort_by is TitleDesc ==> forall|i: int, j: int|
                0 <= i < j < r@.len() ==> !str_less((#[trigger] r@[i]).title@, (#[trigger] r@[j]).title@),
            *sort_by is WordCountDesc ==> forall|i: int, j: int|
                0 <= i < j < r@.len() ==> (#[trigger] r@[j]).word_count <= (#[trigger] r@[i]).word_count,
            *sort_by is WordCountAsc ==> forall|i: int, j: int|
                0 <= i < j < r@.len() ==> (#[trigger] r@[i]).word_count <= (#[trigger] r@[j]).word_count,
    {
        proof { law_search_order(filter_entries(entries@, *filter)); }
        let ghost orig = entries@;
        let term: Option<Vec<char>> = match &filter.search_term {
            Some(t) => Some(lowercase_vec(&chars_of(t.as_str()))),
            None => None,
        };
        // Filtering.
        let mut rest = entries;
        let mut kept: Vec<HistoryEntry> = Vec::new();
        let mut k: usize = 0;
        assert(orig.len() == rest.len());
        assert(orig.take(0) =~= Seq::<HistoryEntry>::empty());
        assert(orig.skip(0) =~= orig);
        while rest.len() > 0
            invariant
                k <= orig.len(),
                orig.len() <= usize::MAX,
                rest@ == orig.skip(k as int),
                kept@ == filter_entries(orig.take(k as int), *filter),
                match filter.search_term {
                    Some(t) => term matches Some(v) && v@ == unicode_lowercase(t@),
                    None => term is None,
                },
            decreases rest@.len(),
        {
            assert(orig.take(k + 1).drop_last() =~= orig.take(k as int));
            assert(orig.skip(k as int)[0] == orig[k as int]);
            let e = rest.remove(0);
            assert(rest@ =~= orig.skip(k + 1));
            let term_ok = match &term {
                Some(lt) => {
                    let title = lowercase_vec(&chars_of(e.title.as_str()));
                    let url = lowercase_vec(&chars_of(e.url.as_str()));
                    let tr = lowercase_vec(&chars_of(e.translated_content.as_str()));
                    contains(&title, lt) || contains(&url, lt) || contains(&tr, lt)
                },
                None => true,
            };
            let src_ok = match &filter.source_lang {
                Some(l) => e.source_lang == *l,
                None => true,
            };
            let tgt_ok = match &filter.target_lang {
                Some(l) => e.target_lang == *l,
                None => true,
            };
            assert(term_ok == term_matches(e, *filter));
            if term_ok && src_ok && tgt_ok {
                kept.push(e);
            }
            k += 1;
        }
        assert(orig.take(k as int) =~= orig);
        // Sorting.
        let ghost fs = kept@;
        let mut out: Vec<HistoryEntry> = Vec::new();
        let mut m: usize = 0;
        assert(fs.len() == kept.len());
        assert(fs.take(0) =~= Seq::<HistoryEntry>::empty());
        assert(fs.skip(0) =~= fs);
        while kept.len() > 0
            invariant
                m <= fs.len(),
                fs.len() <= usize::MAX,
                kept@ == fs.skip(m as int),
                out@ == stable_sort(fs.take(m as int), *sort_by),
            decreases kept@.len(),
        {
            assert(fs.take(m + 1).drop_last() =~= fs.take(m as int));
            assert(fs.skip(m as int)[0] == fs[m as int]);
            let e = kept.remove(0);
            assert(kept@ =~= fs.skip(m + 1));
            insert_sorted_exec(&mut out, e, sort_by);
            m += 1;
        }
        assert(fs.take(m as int) =~= fs);
        out
    }
}

// ---------------------------------------------------------------------------
// Laws of sorting.
// ---------------------------------------------------------------------------

proof fn lemma_str_less_irreflexive(a: Seq<char>)
    ensures
        !str_less(a, a),
    decreases a.len(),
{
    if a.len() > 0 {
        lemma_str_less_irreflexive(a.drop_first());
    }
}

proof fn lemma_str_less_transitive(a: Seq<char>, b: Seq<char>, c: Seq<char>)
    requires
        str_less(a, b),
        str_less(b, c),
    ensures
        str_less(a, c),
    decreases a.len(),
{
    if a.len() > 0 && b.len() > 0 && c.len() > 0 && a[0] == b[0] && b[0] == c[0] {
        lemma_str_less_transitive(a.drop_first(), b.drop_first(), c.drop_first());
    }
}

proof fn lemma_sort_before_irreflexive(by: HistorySortBy, a: HistoryEntry)
    ensures
        !sort_before(by, a, a),
{
    lemma_str_less_irreflexive(a.created_at@);
    lemma_str_less_irreflexive(a.title@);
}

proof fn lemma_sort_before_transitive(by: HistorySortBy, a: HistoryEntry, b: HistoryEntry, c: HistoryEntry)
    requires
        sort_before(by, a, b),
        sort_before(by, b, c),
    ensures
        sort_before(by, a, c),
{
    match by {
        HistorySortBy::CreatedAtDesc => lemma_str_less_transitive(c.created_at@, b.created_at@, a.created_at@),
        HistorySortBy::CreatedAtAsc => lemma_str_less_transitive(a.created_at@, b.created_at@, c.created_at@),
        HistorySortBy::TitleAsc => lemma_str_less_transitive(a.title@, b.title@, c.title@),
        HistorySortBy::TitleDesc => lemma_str_less_transitive(c.title@, b.title@, a.title@),
        _ => {},
    }
}

/// No entry goes before an earlier one.
pub open spec fn is_sorted_by(s: Seq<HistoryEntry>, by: HistorySortBy) -> bool {
    forall|i: int, j: int| 0 <= i < j < s.len() ==> !sort_before(by, #[trigger] s[j], #[trigger] s[i])
}

/// Inserting puts `x` at one place and moves nothing else.
proof fn lemma_insert_sorted_is_insert(sorted: Seq<HistoryEntry>, x: HistoryEntry, by: HistorySortBy) -> (j: int)
    ensures
        0 <= j <= sorted.len(),
        insert_sorted(sorted, x, by) == sorted.insert(j, x),
    decreases sorted.len(),
{
    if sorted.len() == 0 {
        assert(sorted.insert(0, x) =~= seq![x]);
        0
    } else if sort_before(by, x, sorted[0]) {
        assert(sorted.insert(0, x) =~= seq![x] + sorted);
        0
    } else {
        let d = sorted.drop_first();
        let k = lemma_insert_sorted_is_insert(d, x, by);
        assert(seq![sorted[0]] + d.insert(k, x) =~= sorted.insert(k + 1, x));
        k + 1
    }
}

proof fn lemma_insert_sorted_sorted(sorted: Seq<HistoryEntry>, x: HistoryEntry, by: HistorySortBy)
    requires
        is_sorted_by(sorted, by),
    ensures
        is_sorted_by(insert_sorted(sorted, x, by), by),
    decreases sorted.len(),
{
    if sorted.len() == 0 {
    } else if sort_before(by, x, sorted[0]) {
        let r = seq![x] + sorted;
        assert forall|i: int, j: int| 0 <= i < j < r.len() implies !sort_before(by, #[trigger] r[j], #[trigger] r[i]) by {
            if i == 0 {
                let y = sorted[j - 1];
                if sort_before(by, y, x) {
                    lemma_sort_before_transitive(by, y, x, sorted[0]);
                    if j - 1 == 0 {
                        lemma_sort_before_irreflexive(by, y);
                    }
                }
            } else {
                assert(r[i] == sorted[i - 1] && r[j] == sorted[j - 1]);
            }
        }
    } else {
        let d = sorted.drop_first();
        assert forall|i: int, j: int| 0 <= i < j < d.len() implies !sort_before(by, #[trigger] d[j], #[trigger] d[i]) by {
            assert(d[i] == sorted[i + 1] && d[j] == sorted[j + 1]);
        }
        lemma_insert_sorted_sorted(d, x, by);
        let k = lemma_insert_sorted_is_insert(d, x, by);
        let m = insert_sorted(d, x, by);
        let r = seq![sorted[0]] + m;
        assert forall|i: int, j: int| 0 <= i < j < r.len() implies !sort_before(by, #[trigger] r[j], #[trigger] r[i]) by {
            if i == 0 {
                let y = m[j - 1];
                if j - 1 == k {
                    assert(y == x);
                } else if j - 1 < k {
                    assert(y == d[j - 1]);
                    assert(y == sorted[j]);
                } else {
                    assert(y == d[j - 2]);
                    assert(y == sorted[j - 1]);
                }
            } else {
                assert(r[i] == m[i - 1] && r[j] == m[j - 1]);
            }
        }
    }
}

/// A search's order is a sort: no entry of the result goes before an
/// earlier one.
pub proof fn law_stable_sort_sorted(s: Seq<HistoryEntry>, by: HistorySortBy)
    ensures
        is_sorted_by(stable_sort(s, by), by),
    decreases s.len(),
{
    if s.len() > 0 {
        law_stable_sort_sorted(s.drop_last(), by);
        lemma_insert_sorted_sorted(stable_sort(s.drop_last(), by), s.last(), by);
    }
}

/// The order of a search, in each sort: dates newest first (no later
/// entry has a later date than an earlier one, in string order) or oldest
/// first, titles from A or from Z, word counts largest or smallest first.
pub proof fn law_search_order(s: Seq<HistoryEntry>)
    ensures
        forall|i: int, j: int| 0 <= i < j < stable_sort(s, HistorySortBy::CreatedAtDesc).len() ==> !str_less(
            (#[trigger] stable_sort(s, HistorySortBy::CreatedAtDesc)[i]).created_at@,
            (#[trigger] stable_sort(s, HistorySortBy::CreatedAtDesc)[j]).created_at@,
        ),
        forall|i: int, j: int| 0 <= i < j < stable_sort(s, HistorySortBy::CreatedAtAsc).len() ==> !str_less(
            (#[trigger] stable_sort(s, HistorySortBy::CreatedAtAsc)[j]).created_at@,
            (#[trigger] stable_sort(s, HistorySortBy::CreatedAtAsc)[i]).created_at@,
        ),
        forall|i: int, j: int| 0 <= i < j < stable_sort(s, HistorySortBy::TitleAsc).len() ==> !str_less(
            (#[trigger] stable_sort(s, HistorySortBy::TitleAsc)[j]).title@,
            (#[trigger] stable_sort(s, HistorySortBy::TitleAsc)[i]).title@,
        ),
        forall|i: int, j: int| 0 <= i < j < stable_sort(s, HistorySortBy::TitleDesc).len() ==> !str_less(
            (#[trigger] stable_sort(s, HistorySortBy::TitleDesc)[i]).title@,
            (#[trigger] stable_sort(s, HistorySortBy::TitleDesc)[j]).title@,
        ),
        forall|i: int, j: int| 0 <= i < j < stable_sort(s, HistorySortBy::WordCountDesc).len() ==>
            (#[trigger] stable_sort(s, HistorySortBy::WordCountDesc)[j]).word_count
                <= (#[trigger] stable_sort(s, HistorySortBy::WordCountDesc)[i]).word_count,
        forall|i: int, j: int| 0 <= i < j < stable_sort(s, HistorySortBy::WordCountAsc).len() ==>
            (#[trigger] stable_sort(s, HistorySortBy::WordCountAsc)[i]).word_count
                <= (#[trigger] stable_sort(s, HistorySortBy::WordCountAsc)[j]).word_count,
{
    law_stable_sort_sorted(s, HistorySortBy::CreatedAtDesc);
    law_stable_sort_sorted(s, HistorySortBy::CreatedAtAsc);
    law_stable_sort_sorted(s, HistorySortBy::TitleAsc);
    law_stable_sort_sorted(s, HistorySortBy::TitleDesc);
    law_stable_sort_sorted(s, HistorySortBy::WordCountDesc);
    law_stable_sort_sorted(s, HistorySortBy::WordCountAsc);
}

proof fn lemma_str_less_total(a: Seq<char>, b: Seq<char>)
    requires
        a != b,
    ensures
        str_less(a, b) || str_less(b, a),
    decreases a.len(),
{
    if a.len() == 0 && b.len() == 0 {
        assert(a =~= b);
    } else if a.len() > 0 && b.len() > 0 && a[0] == b[0] {
        if a.drop_first() == b.drop_first() {
            assert(a =~= seq![a[0]] + a.drop_first());
            assert(b =~= seq![b[0]] + b.drop_first());
        }
        lemma_str_less_total(a.drop_first(), b.drop_first());
    } else if a.len() > 0 && b.len() > 0 {
        vstd::utf8::char_u32_cast(a[0], a[0] as u32);
        vstd::utf8::char_u32_cast(b[0], b[0] as u32);
        assert((a[0] as u32) != (b[0] as u32));
    }
}

proof fn lemma_str_less_asym(a: Seq<char>, b: Seq<char>)
    requires
        str_less(a, b),
    ensures
        !str_less(b, a),
{
    if str_less(b, a) {
        lemma_str_less_transitive(a, b, a);
        lemma_str_less_irreflexive(a);
    }
}

/// Whether the dates of `s` all differ.
pub open spec fn dates_distinct(s: Seq<HistoryEntry>) -> bool {
    forall|i: int, j: int| 0 <= i < j < s.len() ==> (#[trigger] s[i]).created_at@ != (#[trigger] s[j]).created_at@
}

/// `insert_sorted` puts `x` before the first entry it goes before.
proof fn lemma_insert_at_first(sorted: Seq<HistoryEntry>, x: HistoryEntry, by: HistorySortBy) -> (p: int)
    ensures
        0 <= p <= sorted.len(),
        insert_sorted(sorted, x, by) == sorted.insert(p, x),
        forall|k: int| 0 <= k < p ==> !sort_before(by, x, #[trigger] sorted[k]),
        p < sorted.len() ==> sort_before(by, x, sorted[p]),
    decreases sorted.len(),
{
    if sorted.len() == 0 {
        assert(sorted.insert(0, x) =~= seq![x]);
        0
    } else if sort_before(by, x, sorted[0]) {
        assert(sorted.insert(0, x) =~= seq![x] + sorted);
        0
    } else {
        let d = sorted.drop_first();
        let q = lemma_insert_at_first(d, x, by);
        assert(seq![sorted[0]] + d.insert(q, x) =~= sorted.insert(q + 1, x));
        assert forall|k: int| 0 <= k < q + 1 implies !sort_before(by, x, #[trigger] sorted[k]) by {
            if k > 0 {
                assert(sorted[k] == d[k - 1]);
            }
        }
        if q < d.len() {
            assert(sorted[q + 1] == d[q]);
        }
        q + 1
    }
}

/// Oldest first, over entries whose dates all differ: dates strictly
/// rising, each the date of an entry given.
proof fn lemma_oldest_first_strict(s: Seq<HistoryEntry>)
    requires
        dates_distinct(s),
    ensures
        stable_sort(s, HistorySortBy::CreatedAtAsc).len() == s.len(),
        forall|i: int, j: int| 0 <= i < j < stable_sort(s, HistorySortBy::CreatedAtAsc).len() ==> str_less(
            (#[trigger] stable_sort(s, HistorySortBy::CreatedAtAsc)[i]).created_at@,
            (#[trigger] stable_sort(s, HistorySortBy::CreatedAtAsc)[j]).created_at@,
        ),
        forall|k: int| 0 <= k < stable_sort(s, HistorySortBy::CreatedAtAsc).len() ==> exists|m: int|
            0 <= m < s.len() && (#[trigger] stable_sort(s, HistorySortBy::CreatedAtAsc)[k]).created_at@
                == s[m].created_at@,
    decreases s.len(),
{
    let by = HistorySortBy::CreatedAtAsc;
    if s.len() > 0 {
        let d = s.drop_last();
        let x = s.last();
        assert forall|i: int, j: int| 0 <= i < j < d.len() implies (#[trigger] d[i]).created_at@
            != (#[trigger] d[j]).created_at@ by {
            assert(d[i] == s[i] && d[j] == s[j]);
        }
        lemma_oldest_first_strict(d);
        let a = stable_sort(d, by);
        let p = lemma_insert_at_first(a, x, by);
        let r = a.insert(p, x);
        assert(stable_sort(s, by) == r);
        // x's date differs from every date in `a`.
        assert forall|k: int| 0 <= k < a.len() implies (#[trigger] a[k]).created_at@ != x.created_at@ by {
            let m = choose|m: int| 0 <= m < d.len() && a[k].created_at@ == d[m].created_at@;
            assert(d[m] == s[m]);
            assert(s[m].created_at@ != s[s.len() - 1].created_at@);
        }
        assert forall|k: int| 0 <= k < p implies str_less((#[trigger] a[k]).created_at@, x.created_at@) by {
            assert(!sort_before(by, x, a[k]));
            lemma_str_less_total(a[k].created_at@, x.created_at@);
        }
        assert forall|i: int, j: int| 0 <= i < j < r.len() implies str_less(
            (#[trigger] r[i]).created_at@,
            (#[trigger] r[j]).created_at@,
        ) by {
            if j < p {
                assert(r[i] == a[i] && r[j] == a[j]);
            } else if j == p {
                assert(r[i] == a[i] && r[j] == x);
            } else if i < p {
                assert(r[i] == a[i] && r[j] == a[j - 1]);
                assert(str_less(a[i].created_at@, x.created_at@));
                assert(sort_before(by, x, a[p]));
                if j - 1 > p {
                    lemma_str_less_transitive(x.created_at@, a[p].created_at@, a[j - 1].created_at@);
                }
                lemma_str_less_transitive(a[i].created_at@, x.created_at@, a[j - 1].created_at@);
            } else if i == p {
                assert(r[i] == x && r[j] == a[j - 1]);
                assert(sort_before(by, x, a[p]));
                if j - 1 > p {
                    lemma_str_less_transitive(x.created_at@, a[p].created_at@, a[j - 1].created_at@);
                }
            } else {
                assert(r[i] == a[i - 1] && r[j] == a[j - 1]);
            }
        }
        assert forall|k: int| 0 <= k < r.len() implies exists|m: int|
            0 <= m < s.len() && (#[trigger] r[k]).created_at@ == s[m].created_at@ by {
            if k < p {
                assert(r[k] == a[k]);
                let m = choose|m: int| 0 <= m < d.len() && a[k].created_at@ == d[m].created_at@;
                assert(d[m] == s[m]);
            } else if k == p {
                assert(r[k] == s[s.len() - 1]);
            } else {
                assert(r[k] == a[k - 1]);
                let m = choose|m: int| 0 <= m < d.len() && a[k - 1].created_at@ == d[m].created_at@;
                assert(d[m] == s[m]);
            }
        }
    }
}

/// Where all dates differ, newest first is oldest first reversed.
pub proof fn law_newest_first_reverses_oldest_first(s: Seq<HistoryEntry>)
    requires
        dates_distinct(s),
    ensures
        stable_sort(s, HistorySortBy::CreatedAtDesc) == stable_sort(s, HistorySortBy::CreatedAtAsc).reverse(),
    decreases s.len(),
{
    let asc = HistorySortBy::CreatedAtAsc;
    let desc = HistorySortBy::CreatedAtDesc;
    if s.len() == 0 {
        assert(stable_sort(s, asc).reverse() =~= Seq::<HistoryEntry>::empty());
    } else {
        let d = s.drop_last();
        let x = s.last();
        assert forall|i: int, j: int| 0 <= i < j < d.len() implies (#[trigger] d[i]).created_at@
            != (#[trigger] d[j]).created_at@ by {
            assert(d[i] == s[i] && d[j] == s[j]);
        }
        law_newest_first_reverses_oldest_first(d);
        lemma_oldest_first_strict(d);
        let a = stable_sort(d, asc);
        let n = a.len() as int;
        let y = a.reverse();
        assert(stable_sort(d, desc) == y);
        let p = lemma_insert_at_first(a, x, asc);
        let q = lemma_insert_at_first(y, x, desc);
        assert forall|k: int| 0 <= k < n implies (#[trigger] a[k]).created_at@ != x.created_at@ by {
            let m = choose|m: int| 0 <= m < d.len() && a[k].created_at@ == d[m].created_at@;
            assert(d[m] == s[m]);
            assert(s[m].created_at@ != s[s.len() - 1].created_at@);
        }
        // `q` is `n - p`.
        if q < n - p {
            // y[q] = a[n - 1 - q], at or after p: later than x.
            let idx = n - 1 - q;
            assert(y[q] == a[idx]);
            assert(sort_before(desc, x, y[q]));
            assert(str_less(a[idx].created_at@, x.created_at@));
            assert(idx >= p);
            assert(sort_before(asc, x, a[p]));
            if idx > p {
                lemma_str_less_transitive(x.created_at@, a[p].created_at@, a[idx].created_at@);
            }
            lemma_str_less_asym(a[idx].created_at@, x.created_at@);
            assert(false);
        } else if q > n - p {
            let k = n - p;
            assert(p >= 1);
            assert(y[k] == a[p - 1]);
            assert(!sort_before(desc, x, y[k]));
            assert(!sort_before(asc, x, a[p - 1]));
            lemma_str_less_total(a[p - 1].created_at@, x.created_at@);
            assert(false);
        }
        assert(q == n - p);
        assert(a.insert(p, x).reverse() =~= y.insert(n - p, x));
        assert(stable_sort(s, desc) == y.insert(q, x));
        assert(stable_sort(s, asc) == a.insert(p, x));
    }
}

/// Sorting keeps exactly the entries it was given.
pub proof fn law_stable_sort_permutes(s: Seq<HistoryEntry>, by: HistorySortBy)
    ensures
        stable_sort(s, by).to_multiset() == s.to_multiset(),
    decreases s.len(),
{
    broadcast use vstd::seq_lib::group_to_multiset_ensures;
    if s.len() > 0 {
        law_stable_sort_permutes(s.drop_last(), by);
        let j = lemma_insert_sorted_is_insert(stable_sort(s.drop_last(), by), s.last(), by);
        assert(s.drop_last().push(s.last()) =~= s);
    } else {
        assert(stable_sort(s, by) =~= s);
    }
}

// ---------------------------------------------------------------------------
// Exporting and downloading.
// ---------------------------------------------------------------------------

/// The first line of the CSV export.
pub open spec fn csv_header() -> Seq<char> {
    "ID,URL,Title,Source Language,Target Language,Created At,Word Count\n"@
}

/// One entry as a CSV line; commas in the title become semicolons.
pub open spec fn csv_row(e: HistoryEntry) -> Seq<char> {
    e.id@ + ","@ + e.url@ + ","@ + replace(e.title@, ","@, ";"@) + ","@ + e.source_lang@ + ","@
        + e.target_lang@ + ","@ + e.created_at@ + ","@ + decimal(e.word_count as nat) + "\n"@
}

/// The CSV lines of all entries.
pub open spec fn csv_rows(s: Seq<HistoryEntry>) -> Seq<char>
    decreases s.len(),
{
    if s.len() == 0 { seq![] } else { csv_rows(s.drop_last()) + csv_row(s.last()) }
}

/// One entry as a Markdown section, with its date as the caller formats it.
pub open spec fn markdown_section(e: HistoryEntry, date: Seq<char>) -> Seq<char> {
    "## "@ + e.title@ + "\n\n**URL**: "@ + e.url@ + "\n\n**语言**: "@ + e.source_lang@ + " -> "@
        + e.target_lang@ + "\n\n**创建时间**: "@ + date + "\n\n**字数**: "@ + decimal(e.word_count as nat)
        + "\n\n---\n\n"@
}

/// The Markdown sections of all entries.
pub open spec fn markdown_sections(s: Seq<HistoryEntry>, dates: Seq<String>) -> Seq<char>
    decreases s.len(),
{
    if s.len() == 0 {
        seq![]
    } else {
        markdown_sections(s.drop_last(), dates) + markdown_section(s.last(), dates[s.len() - 1]@)
    }
}

/// The Markdown document of a single-page entry.
pub open spec fn single_page_document(e: HistoryEntry, date: Seq<char>) -> Seq<char> {
    "# "@ + e.title@ + "\n\n"@ + "> **原始URL**: "@ + e.url@ + "\n"@ + "> **翻译时间**: "@ + date + "\n"@
        + "> **语言**: "@ + e.source_lang@ + " -> "@ + e.target_lang@ + "\n"@ + "> **字数**: "@
        + decimal(e.word_count as nat) + " 字\n\n"@ + "---\n\n"@ + e.translated_content@
}

/// What downloading a single page gives: the document's UTF-8 bytes, or why
/// there is none.
pub open spec fn single_page_download(s: Seq<HistoryEntry>, dates: Seq<String>, id: Seq<char>) -> Result<Seq<u8>, Seq<char>> {
    match find_id(s, id) {
        None => Err("未找到指定记录"@),
        Some(i) => match s[i].entry_type {
            HistoryEntryType::SinglePage => Ok(vstd::utf8::encode_utf8(single_page_document(s[i], dates[i]@))),
            HistoryEntryType::BatchTranslation => Err("该记录是批量翻译，请使用批量下载功能"@),
        },
    }
}

impl HistoryService {
    /// The entries as CSV: a header line, then one line per entry.
    pub fn export_csv(&self, entries: &Vec<HistoryEntry>) -> (r: String)
        ensures
            r@ == csv_header() + csv_rows(entries@),
    {
        let mut out: Vec<char> = Vec::new();
        append_str(&mut out, "ID,URL,Title,Source Language,Target Language,Created At,Word Count\n");
        let comma = chars_of(",");
        let semi = chars_of(";");
        proof { reveal_strlit(","); }
        let mut i: usize = 0;
        while i < entries.len()
            invariant
                i <= entries@.len(),
                comma@ == ","@,
                comma@.len() > 0,
                semi@ == ";"@,
                out@ == csv_header() + csv_rows(entries@.take(i as int)),
            decreases entries.len() - i,
        {
            assert(entries@.take(i + 1).drop_last() =~= entries@.take(i as int));
            let e = &entries[i];
            let ghost before = out@;
            append_str(&mut out, e.id.as_str());
            append_str(&mut out, ",");
            append_str(&mut out, e.url.as_str());
            append_str(&mut out, ",");
            let title = replace_vec(&chars_of(e.title.as_str()), &comma, &semi);
            append_slice(&mut out, &title);
            append_str(&mut out, ",");
            append_str(&mut out, e.source_lang.as_str());
            append_str(&mut out, ",");
            append_str(&mut out, e.target_lang.as_str());
            append_str(&mut out, ",");
            append_str(&mut out, e.created_at.as_str());
            append_str(&mut out, ",");
            append_slice(&mut out, &decimal_vec(e.word_count as u64));
            append_str(&mut out, "\n");
            assert(out@ =~= before + csv_row(*e));
            i += 1;
        }
        assert(entries@.take(entries@.len() as int) =~= entries@);
        string_of(&out)
    }

    /// The entries as Markdown, each with its date as `dates` gives it.
    pub fn export_markdown(&self, entries: &Vec<HistoryEntry>, dates: &Vec<String>) -> (r: String)
        requires
            dates@.len() == entries@.len(),
        ensures
            r@ == "# 翻译历史记录\n\n"@ + markdown_sections(entries@, dates@),
    {
        let mut out: Vec<char> = Vec::new();
        append_str(&mut out, "# 翻译历史记录\n\n");
        let mut i: usize = 0;
        while i < entries.len()
            invariant
                i <= entries@.len(),
                dates@.len() == entries@.len(),
                out@ == "# 翻译历史记录\n\n"@ + markdown_sections(entries@.take(i as int), dates@),
            decreases entries.len() - i,
        {
            assert(entries@.take(i + 1).drop_last() =~= entries@.take(i as int));
            let e = &entries[i];
            let ghost before = out@;
            append_str(&mut out, "## ");
            append_str(&mut out, e.title.as_str());
            append_str(&mut out, "\n\n**URL**: ");
            append_str(&mut out, e.url.as_str());
            append_str(&mut out, "\n\n**语言**: ");
            append_str(&mut out, e.source_lang.as_str());
            append_str(&mut out, " -> ");
            append_str(&mut out, e.target_lang.as_str());
            append_str(&mut out, "\n\n**创建时间**: ");
            append_str(&mut out, dates[i].as_str());
            append_str(&mut out, "\n\n**字数**: ");
            append_slice(&mut out, &decimal_vec(e.word_count as u64));
            append_str(&mut out, "\n\n---\n\n");
            assert(out@ =~= before + markdown_section(*e, dates@[i as int]@));
            i += 1;
        }
        assert(entries@.take(entries@.len() as int) =~= entries@);
        string_of(&out)
    }

    /// The document of the single-page entry with id `entry_id`, as bytes;
    /// `dates` gives each entry's date as the caller formats it.
    pub fn download_single_page(&self, entries: &Vec<HistoryEntry>, dates: &Vec<String>, entry_id: &str) -> (r: Result<Vec<u8>, String>)
        requires
            dates@.len() == entries@.len(),
        ensures
            match (r, single_page_download(entries@, dates@, entry_id@)) {
                (Ok(b), Ok(sb)) => b@ == sb,
                (Err(m), Err(sm)) => m@ == sm,
                _ => false,
            },
    {
        match find_id_exec(entries, entry_id) {
            None => Err("未找到指定记录".to_owned()),
            Some(i) => {
                proof { lemma_find_id_range(entries@, entry_id@); }
                let e = &entries[i];
                match e.entry_type {
                    HistoryEntryType::SinglePage => {
                        let mut out: Vec<char> = Vec::new();
                        append_str(&mut out, "# ");
                        append_str(&mut out, e.title.as_str());
                        append_str(&mut out, "\n\n");
                        append_str(&mut out, "> **原始URL**: ");
                        append_str(&mut out, e.url.as_str());
                        append_str(&mut out, "\n");
                        append_str(&mut out, "> **翻译时间**: ");
                        append_str(&mut out, dates[i].as_str());
                        append_str(&mut out, "\n");
                        append_str(&mut out, "> **语言**: ");
                        append_str(&mut out, e.source_lang.as_str());
                        append_str(&mut out, " -> ");
                        append_str(&mut out, e.target_lang.as_str());
                        append_str(&mut out, "\n");
                        append_str(&mut out, "> **字数**: ");
                        append_slice(&mut out, &decimal_vec(e.word_count as u64));
                        append_str(&mut out, " 字\n\n");
                        append_str(&mut out, "---\n\n");
                        append_str(&mut out, e.translated_content.as_str());
                        assert(out@ =~= single_page_document(*e, dates@[i as int]@));
                        let doc = string_of(&out);
                        Ok(vstd::slice::slice_to_vec(doc.as_str().as_bytes()))
                    },
                    HistoryEntryType::BatchTranslation => Err("该记录是批量翻译，请使用批量下载功能".to_owned()),
                }
            },
        }
    }
}

// ---------------------------------------------------------------------------
// Downloading a batch.
// ---------------------------------------------------------------------------

/// The documents a batch download takes: those at the chosen indices that
/// exist (in the order chosen, repeats kept), or else the translated ones.
pub open spec fn chosen_docs(list: Seq<BatchDocumentInfo>, chosen: Option<Seq<usize>>) -> Seq<BatchDocumentInfo> {
    match chosen {
        Some(ix) => docs_at(list, ix),
        None => translated_docs(list),
    }
}

/// The documents at the indices `ix` that exist.
pub open spec fn docs_at(list: Seq<BatchDocumentInfo>, ix: Seq<usize>) -> Seq<BatchDocumentInfo>
    decreases ix.len(),
{
    if ix.len() == 0 {
        seq![]
    } else {
        let r = docs_at(list, ix.drop_last());
        if (ix.last() as int) < list.len() { r.push(list[ix.last() as int]) } else { r }
    }
}

/// The translated documents, in order.
pub open spec fn translated_docs(list: Seq<BatchDocumentInfo>) -> Seq<BatchDocumentInfo>
    decreases list.len(),
{
    if list.len() == 0 {
        seq![]
    } else {
        let r = translated_docs(list.drop_last());
        if list.last().translated { r.push(list.last()) } else { r }
    }
}

/// Whether a folder is the archive's top level (empty or `docs`).
pub open spec fn is_top_folder(f: Seq<char>) -> bool {
    f.len() == 0 || f == "docs"@
}

/// A document's file name in the archive: its 1-based position, three
/// digits wide, `_`, its file name.
pub open spec fn numbered_name(d: BatchDocumentInfo) -> Seq<char> {
    zero_padded((d.order + 1) as nat, 3) + "_"@ + d.file_name@
}

/// A document's path in the archive.
pub open spec fn archive_path(d: BatchDocumentInfo) -> Seq<char> {
    if is_top_folder(d.folder_path@) { numbered_name(d) } else { d.folder_path@ + "/"@ + numbered_name(d) }
}

/// A document's file in the archive.
pub open spec fn archive_document(d: BatchDocumentInfo, e: HistoryEntry, date: Seq<char>) -> Seq<char> {
    "# "@ + d.title@ + "\n\n"@ + "> **原始URL**: "@ + d.url@ + "\n"@ + "> **翻译时间**: "@ + date + "\n"@
        + "> **文档序号**: "@ + decimal((d.order + 1) as nat) + "\n"@ + "> **语言**: "@ + e.source_lang@
        + " -> "@ + e.target_lang@ + "\n\n"@ + "---\n\n"@ + d.translated_content@
}

/// The folders of `docs`, each once, in the order they first appear.
pub open spec fn distinct_folders(docs: Seq<BatchDocumentInfo>) -> Seq<Seq<char>>
    decreases docs.len(),
{
    if docs.len() == 0 {
        seq![]
    } else {
        let r = distinct_folders(docs.drop_last());
        if r.contains(docs.last().folder_path@) { r } else { r.push(docs.last().folder_path@) }
    }
}

/// A document's line in the table of contents of its folder `f`.
pub open spec fn toc_line(d: BatchDocumentInfo, f: Seq<char>) -> Seq<char> {
    "- ["@ + d.title@ + "]("@ + numbered_name(d) + ")\n  - 原始URL: "@ + d.url@ + "\n  - 文件路径: "@
        + (if is_top_folder(f) { "."@ } else { f }) + "/"@ + numbered_name(d) + "\n\n"@
}

/// The lines of the documents in folder `f`.
pub open spec fn toc_folder_lines(docs: Seq<BatchDocumentInfo>, f: Seq<char>) -> Seq<char>
    decreases docs.len(),
{
    if docs.len() == 0 {
        seq![]
    } else {
        toc_folder_lines(docs.drop_last(), f) + if docs.last().folder_path@ == f { toc_line(docs.last(), f) } else { seq![] }
    }
}

/// The table of contents, folder by folder.
pub open spec fn toc(folders: Seq<Seq<char>>, docs: Seq<BatchDocumentInfo>) -> Seq<char>
    decreases folders.len(),
{
    if folders.len() == 0 {
        seq![]
    } else {
        let f = folders.last();
        toc(folders.drop_last(), docs) + (if is_top_folder(f) { seq![] } else { "### 📁 "@ + f + "\n\n"@ })
            + toc_folder_lines(docs, f)
    }
}

/// The README of a batch archive. Folders are listed in the order in which
/// they first appear among `docs`.
pub open spec fn batch_readme(e: HistoryEntry, docs: Seq<BatchDocumentInfo>, date: Seq<char>) -> Seq<char> {
    "# 批量翻译文档归档\n\n"@ + "**项目名称**: "@ + e.title@ + "\n"@ + "**索引URL**: "@ + e.url@ + "\n"@
        + "**翻译时间**: "@ + date + "\n"@ + "**语言**: "@ + e.source_lang@ + " -> "@ + e.target_lang@ + "\n"@
        + "**文档总数**: "@ + decimal(docs.len()) + " 个\n\n"@
        + (match e.batch_data {
            Some(b) => "**翻译统计**:\n"@ + "- 总文档数: "@ + decimal(b.total_documents as nat) + "\n"@
                + "- 成功翻译: "@ + decimal(b.successful_documents as nat) + "\n"@ + "- 失败文档: "@
                + decimal(b.failed_documents as nat) + "\n\n"@,
            None => seq![],
        })
        + "## 文档目录\n\n"@ + toc(distinct_folders(docs), docs) + "---\n\n"@
        + "*此归档由URL翻译工具历史记录功能生成*\n"@
}

/// The translated documents' files, in order.
pub open spec fn archive_documents(docs: Seq<BatchDocumentInfo>, e: HistoryEntry, date: Seq<char>) -> Seq<(Seq<char>, Seq<char>)>
    decreases docs.len(),
{
    if docs.len() == 0 {
        seq![]
    } else {
        let r = archive_documents(docs.drop_last(), e, date);
        let d = docs.last();
        if d.translated { r.push((archive_path(d), archive_document(d, e, date))) } else { r }
    }
}

/// The files of a batch archive, path and contents: the README, then each
/// translated document.
pub open spec fn batch_archive_files_spec(e: HistoryEntry, docs: Seq<BatchDocumentInfo>, date: Seq<char>) -> Seq<(Seq<char>, Seq<char>)> {
    seq![("README.md"@, batch_readme(e, docs, date))] + archive_documents(docs, e, date)
}

/// Which documents a batch download of entry `id` takes, or why it takes
/// none.
pub open spec fn batch_download_choice(
    s: Seq<HistoryEntry>,
    id: Seq<char>,
    chosen: Option<Seq<usize>>,
) -> Result<(int, Seq<BatchDocumentInfo>), Seq<char>> {
    match find_id(s, id) {
        None => Err("未找到指定记录"@),
        Some(i) => match s[i].entry_type {
            HistoryEntryType::BatchTranslation => match s[i].batch_data {
                None => Err("批量翻译数据缺失"@),
                Some(b) => {
                    let docs = chosen_docs(b.document_list@, chosen);
                    if docs.len() == 0 { Err("没有选中任何文档"@) } else { Ok((i, docs)) }
                },
            },
            HistoryEntryType::SinglePage => Err("该记录是单页翻译，请使用单页下载功能"@),
        },
    }
}

/// The pairs' views.
pub open spec fn pair_views(v: Seq<(String, String)>) -> Seq<(Seq<char>, Seq<char>)> {
    v.map_values(|p: (String, String)| (p.0@, p.1@))
}

/// Whether no document's 1-based position overflows.
pub open spec fn orders_fit(docs: Seq<BatchDocumentInfo>) -> bool {
    forall|k: int| 0 <= k < docs.len() ==> (#[trigger] docs[k]).order < usize::MAX
}

/// `is_top_folder` on a string.
fn is_top_folder_exec(f: &String) -> (r: bool)
    ensures
        r == is_top_folder(f@),
{
    let v = chars_of(f.as_str());
    v.len() == 0 || eq_chars(&v, &chars_of("docs"))
}

/// `numbered_name`.
fn numbered_name_exec(d: &BatchDocumentInfo) -> (r: Vec<char>)
    requires
        d.order < usize::MAX,
    ensures
        r@ == numbered_name(*d),
{
    let mut out = zero_padded_vec((d.order + 1) as u64, 3);
    append_str(&mut out, "_");
    append_str(&mut out, d.file_name.as_str());
    out
}

/// The files of a batch archive (`batch_archive_files_spec`).
pub fn batch_archive_files(e: &HistoryEntry, docs: &Vec<BatchDocumentInfo>, date: &str) -> (r: Vec<(String, String)>)
    requires
        orders_fit(docs@),
    ensures
        pair_views(r@) == batch_archive_files_spec(*e, docs@, date@),
{
    let readme = batch_readme_exec(e, docs, date);
    let mut r: Vec<(String, String)> = Vec::new();
    r.push(("README.md".to_owned(), readme));
    assert(pair_views(r@) =~= seq![("README.md"@, batch_readme(*e, docs@, date@))]);
    let mut i: usize = 0;
    while i < docs.len()
        invariant
            i <= docs@.len(),
            orders_fit(docs@),
            pair_views(r@) == seq![("README.md"@, batch_readme(*e, docs@, date@))]
                + archive_documents(docs@.take(i as int), *e, date@),
        decreases docs.len() - i,
    {
        assert(docs@.take(i + 1).drop_last() =~= docs@.take(i as int));
        let d = &docs[i];
        assert(d.order < usize::MAX);
        if d.translated {
            let name = numbered_name_exec(d);
            let mut path: Vec<char> = Vec::new();
            if !is_top_folder_exec(&d.folder_path) {
                append_str(&mut path, d.folder_path.as_str());
                append_str(&mut path, "/");
            }
            append_slice(&mut path, &name);
            let mut body: Vec<char> = Vec::new();
            append_str(&mut body, "# ");
            append_str(&mut body, d.title.as_str());
            append_str(&mut body, "\n\n");
            append_str(&mut body, "> **原始URL**: ");
            append_str(&mut body, d.url.as_str());
            append_str(&mut body, "\n");
            append_str(&mut body, "> **翻译时间**: ");
            append_str(&mut body, date);
            append_str(&mut body, "\n");
            append_str(&mut body, "> **文档序号**: ");
            append_slice(&mut body, &decimal_vec((d.order + 1) as u64));
            append_str(&mut body, "\n");
            append_str(&mut body, "> **语言**: ");
            append_str(&mut body, e.source_lang.as_str());
            append_str(&mut body, " -> ");
            append_str(&mut body, e.target_lang.as_str());
            append_str(&mut body, "\n\n");
            append_str(&mut body, "---\n\n");
            append_str(&mut body, d.translated_content.as_str());
            assert(path@ =~= archive_path(*d));
            assert(body@ =~= archive_document(*d, *e, date@));
            let ghost before = pair_views(r@);
            r.push((string_of(&path), string_of(&body)));
            assert(pair_views(r@) =~= before.push((archive_path(*d), archive_document(*d, *e, date@))));
        }
        i += 1;
    }
    assert(docs@.take(docs@.len() as int) =~= docs@);
    r
}

/// `batch_readme`.
fn batch_readme_exec(e: &HistoryEntry, docs: &Vec<BatchDocumentInfo>, date: &str) -> (r: String)
    requires
        orders_fit(docs@),
    ensures
        r@ == batch_readme(*e, docs@, date@),
{
    let mut out: Vec<char> = Vec::new();
    append_str(&mut out, "# 批量翻译文档归档\n\n");
    append_str(&mut out, "**项目名称**: ");
    append_str(&mut out, e.title.as_str());
    append_str(&mut out, "\n");
    append_str(&mut out, "**索引URL**: ");
    append_str(&mut out, e.url.as_str());
    append_str(&mut out, "\n");
    append_str(&mut out, "**翻译时间**: ");
    append_str(&mut out, date);
    append_str(&mut out, "\n");
    append_str(&mut out, "**语言**: ");
    append_str(&mut out, e.source_lang.as_str());
    append_str(&mut out, " -> ");
    append_str(&mut out, e.target_lang.as_str());
    append_str(&mut out, "\n");
    append_str(&mut out, "**文档总数**: ");
    append_slice(&mut out, &decimal_vec(docs.len() as u64));
    append_str(&mut out, " 个\n\n");
    match &e.batch_data {
        Some(b) => {
            append_str(&mut out, "**翻译统计**:\n");
            append_str(&mut out, "- 总文档数: ");
            append_slice(&mut out, &decimal_vec(b.total_documents as u64));
            append_str(&mut out, "\n");
            append_str(&mut out, "- 成功翻译: ");
            append_slice(&mut out, &decimal_vec(b.successful_documents as u64));
            append_str(&mut out, "\n");
            append_str(&mut out, "- 失败文档: ");
            append_slice(&mut out, &decimal_vec(b.failed_documents as u64));
            append_str(&mut out, "\n\n");
        },
        None => {},
    }
    append_str(&mut out, "## 文档目录\n\n");
    let folders = distinct_folders_exec(docs);
    let t = toc_exec(&folders, docs);
    append_slice(&mut out, &t);
    append_str(&mut out, "---\n\n");
    append_str(&mut out, "*此归档由URL翻译工具历史记录功能生成*\n");
    string_of(&out)
}

/// `distinct_folders`.
fn distinct_folders_exec(docs: &Vec<BatchDocumentInfo>) -> (r: Vec<String>)
    ensures
        string_views(r@) == distinct_folders(docs@),
{
    let mut r: Vec<String> = Vec::new();
    let mut i: usize = 0;
    while i < docs.len()
        invariant
            i <= docs@.len(),
            string_views(r@) == distinct_folders(docs@.take(i as int)),
        decreases docs.len() - i,
    {
        assert(docs@.take(i + 1).drop_last() =~= docs@.take(i as int));
        let f = &docs[i].folder_path;
        if !contains_string(&r, f) {
            let ghost before = string_views(r@);
            r.push(string_of(&chars_of(f.as_str())));
            assert(string_views(r@) =~= before.push(f@));
        }
        i += 1;
    }
    assert(docs@.take(docs@.len() as int) =~= docs@);
    r
}

/// `toc`.
fn toc_exec(folders: &Vec<String>, docs: &Vec<BatchDocumentInfo>) -> (r: Vec<char>)
    requires
        orders_fit(docs@),
    ensures
        r@ == toc(string_views(folders@), docs@),
{
    let mut out: Vec<char> = Vec::new();
    let mut i: usize = 0;
    while i < folders.len()
        invariant
            i <= folders@.len(),
            orders_fit(docs@),
            out@ == toc(string_views(folders@).take(i as int), docs@),
        decreases folders.len() - i,
    {
        let ghost fs = string_views(folders@).take(i + 1);
        assert(fs.drop_last() =~= string_views(folders@).take(i as int));
        assert(fs.last() == folders@[i as int]@);
        let f = &folders[i];
        let top = is_top_folder_exec(f);
        let ghost before = out@;
        if !top {
            append_str(&mut out, "### 📁 ");
            append_str(&mut out, f.as_str());
            append_str(&mut out, "\n\n");
        }
        let ghost mid = out@;
        let mut j: usize = 0;
        while j < docs.len()
            invariant
                j <= docs@.len(),
                orders_fit(docs@),
                top == is_top_folder(f@),
                out@ == mid + toc_folder_lines(docs@.take(j as int), f@),
            decreases docs.len() - j,
        {
            assert(docs@.take(j + 1).drop_last() =~= docs@.take(j as int));
            let d = &docs[j];
            assert(d.order < usize::MAX);
            if d.folder_path == *f {
                let name = numbered_name_exec(d);
                let ghost b2 = out@;
                append_str(&mut out, "- [");
                append_str(&mut out, d.title.as_str());
                append_str(&mut out, "](");
                append_slice(&mut out, &name);
                append_str(&mut out, ")\n  - 原始URL: ");
                append_str(&mut out, d.url.as_str());
                append_str(&mut out, "\n  - 文件路径: ");
                if top {
                    append_str(&mut out, ".");
                } else {
                    append_str(&mut out, f.as_str());
                }
                append_str(&mut out, "/");
                append_slice(&mut out, &name);
                append_str(&mut out, "\n\n");
                assert(out@ =~= b2 + toc_line(*d, f@));
            }
            j += 1;
        }
        assert(docs@.take(docs@.len() as int) =~= docs@);
        i += 1;
    }
    assert(string_views(folders@).take(folders@.len() as int) =~= string_views(folders@));
    out
}

/// `chosen_docs`.
fn chosen_docs_exec(list: &Vec<BatchDocumentInfo>, chosen: &Option<Vec<usize>>) -> (r: Vec<BatchDocumentInfo>)
    ensures
        r@ == chosen_docs(list@, match chosen { Some(v) => Some(v@), None => None }),
{
    let mut r: Vec<BatchDocumentInfo> = Vec::new();
    match chosen {
        Some(ix) => {
            let mut i: usize = 0;
            while i < ix.len()
                invariant
                    i <= ix@.len(),
                    r@ == docs_at(list@, ix@.take(i as int)),
                decreases ix.len() - i,
            {
                assert(ix@.take(i + 1).drop_last() =~= ix@.take(i as int));
                let k = ix[i];
                if k < list.len() {
                    r.push(list[k].duplicate());
                }
                i += 1;
            }
            assert(ix@.take(ix@.len() as int) =~= ix@);
        },
        None => {
            let mut i: usize = 0;
            while i < list.len()
                invariant
                    i <= list@.len(),
                    r@ == translated_docs(list@.take(i as int)),
                decreases list.len() - i,
            {
                assert(list@.take(i + 1).drop_last() =~= list@.take(i as int));
                if list[i].translated {
                    r.push(list[i].duplicate());
                }
                i += 1;
            }
            assert(list@.take(list@.len() as int) =~= list@);
        },
    }
    r
}

/// Every document `docs_at` takes comes from the list.
proof fn lemma_docs_at_from(list: Seq<BatchDocumentInfo>, ix: Seq<usize>)
    ensures
        forall|k: int| 0 <= k < docs_at(list, ix).len() ==> list.contains(#[trigger] docs_at(list, ix)[k]),
    decreases ix.len(),
{
    if ix.len() > 0 {
        lemma_docs_at_from(list, ix.drop_last());
        let r = docs_at(list, ix.drop_last());
        if (ix.last() as int) < list.len() {
            assert(list[ix.last() as int] == list[ix.last() as int]);
            assert forall|k: int| 0 <= k < docs_at(list, ix).len() implies list.contains(#[trigger] docs_at(list, ix)[k]) by {
                if k < r.len() {
                    assert(docs_at(list, ix)[k] == r[k]);
                } else {
                    assert(docs_at(list, ix)[k] == list[ix.last() as int]);
                }
            }
        }
    }
}

/// Every document `translated_docs` takes comes from the list.
proof fn lemma_translated_docs_from(list: Seq<BatchDocumentInfo>)
    ensures
        forall|k: int| 0 <= k < translated_docs(list).len() ==> list.contains(#[trigger] translated_docs(list)[k]),
    decreases list.len(),
{
    if list.len() > 0 {
        lemma_translated_docs_from(list.drop_last());
        let r = translated_docs(list.drop_last());
        assert forall|k: int| 0 <= k < translated_docs(list).len() implies list.contains(#[trigger] translated_docs(list)[k]) by {
            if k < r.len() {
                assert(translated_docs(list)[k] == r[k]);
                let x = r[k];
                let w = choose|w: int| 0 <= w < list.drop_last().len() && list.drop_last()[w] == x;
                assert(list[w] == x);
            } else {
                assert(translated_docs(list)[k] == list.last());
                assert(list[list.len() - 1] == list.last());
            }
        }
    }
}

impl HistoryService {
    /// The README of a batch archive (`batch_readme`).
    pub fn generate_batch_readme(&self, entry: &HistoryEntry, documents: &Vec<BatchDocumentInfo>, date: &str) -> (r: String)
        requires
            orders_fit(documents@),
        ensures
            r@ == batch_readme(*entry, documents@, date@),
    {
        batch_readme_exec(entry, documents, date)
    }

    /// The archive of the batch entry `entry_id`: its README and the
    /// translated documents among those chosen (`batch_download_choice`),
    /// `dates` giving each entry's date as the caller formats it. Where no
    /// document can be taken, the reason; else what `create_batch_archive`
    /// gives for the chosen documents: the archive's bytes, certainly where
    /// the archive takes every path as it is, else the refused file.
    pub fn download_batch_translation(
        &self,
        entries: &Vec<HistoryEntry>,
        dates: &Vec<String>,
        entry_id: &str,
        selected_docs: Option<Vec<usize>>,
    ) -> (r: Result<Vec<u8>, String>)
        requires
            dates@.len() == entries@.len(),
            forall|i: int| 0 <= i < entries@.len() ==> ((#[trigger] entries@[i]).batch_data matches Some(b)
                ==> orders_fit(b.document_list@)),
        ensures
            match batch_download_choice(entries@, entry_id@, match selected_docs { Some(v) => Some(v@), None => None }) {
                Err(m) => r matches Err(e) && e@ == m,
                Ok((i, docs)) => {
                    let files = batch_archive_files_spec(entries@[i], docs, dates@[i]@);
                    &&& match r {
                        Ok(b) => portable_paths(files) ==> b@ == tar_gz_archive(stored_entries(files)),
                        Err(m) => archive_failure(files, m@),
                    }
                    &&& archive_paths_ok(files) ==> (r matches Ok(b) && b@ == tar_gz_archive(file_entries(files)))
                },
            },
    {
        match find_id_exec(entries, entry_id) {
            None => Err("未找到指定记录".to_owned()),
            Some(i) => {
                proof { lemma_find_id_range(entries@, entry_id@); }
                let e = &entries[i];
                match e.entry_type {
                    HistoryEntryType::SinglePage => Err("该记录是单页翻译，请使用单页下载功能".to_owned()),
                    HistoryEntryType::BatchTranslation => match &e.batch_data {
                        None => Err("批量翻译数据缺失".to_owned()),
                        Some(b) => {
                            let docs = chosen_docs_exec(&b.document_list, &selected_docs);
                            if docs.len() == 0 {
                                Err("没有选中任何文档".to_owned())
                            } else {
                                proof {
                                    assert(orders_fit(b.document_list@));
                                    match selected_docs {
                                        Some(v) => lemma_docs_at_from(b.document_list@, v@),
                                        None => lemma_translated_docs_from(b.document_list@),
                                    }
                                    assert forall|k: int| 0 <= k < docs@.len() implies (#[trigger] docs@[k]).order < usize::MAX by {
                                        assert(b.document_list@.contains(docs@[k]));
                                    }
                                }
                                self.create_batch_archive(e, &docs, dates[i].as_str())
                            }
                        },
                    },
                }
            },
        }
    }

    /// Writes the files of `batch_archive_files` into a gzip-compressed tar
    /// archive, in order, and gives its bytes (`write_archive`): it succeeds
    /// where the archive takes every path as it is (`archive_paths_ok`; the
    /// README and each document's `folder/NNN_file` path); else it gives the
    /// archive at the paths tar records, or names the first refused file
    /// (`archive_failure`).
    pub fn create_batch_archive(&self, entry: &HistoryEntry, documents: &Vec<BatchDocumentInfo>, date: &str) -> (r: Result<Vec<u8>, String>)
        requires
            orders_fit(documents@),
        ensures
            match r {
                Ok(b) => portable_paths(batch_archive_files_spec(*entry, documents@, date@)) ==> b@ == tar_gz_archive(
                    stored_entries(batch_archive_files_spec(*entry, documents@, date@)),
                ),
                Err(m) => archive_failure(batch_archive_files_spec(*entry, documents@, date@), m@),
            },
            archive_paths_ok(batch_archive_files_spec(*entry, documents@, date@)) ==> (r matches Ok(b) && b@
                == tar_gz_archive(file_entries(batch_archive_files_spec(*entry, documents@, date@)))),
    {
        let files = batch_archive_files(entry, documents, date);
        assert(text_pairs(files@) =~= pair_views(files@));
        write_archive(&files)
    }
}

// ---------------------------------------------------------------------------
// Statistics.
// ---------------------------------------------------------------------------

/// Figures over the whole history.
#[derive(Debug, Clone)]
pub struct HistoryStatistics {
    pub total_entries: usize,
    pub total_words: usize,
    pub most_used_language_pair: Option<String>,
    pub most_translated_domain: Option<String>,
}

/// How an export is written.
#[derive(Debug, Clone, Copy, PartialEq, Eq, Structural)]
pub enum ExportFormat {
    Json,
    Csv,
    Markdown,
}

/// How many of `keys` equal `k`.
pub open spec fn count_key(keys: Seq<Seq<char>>, k: Seq<char>) -> nat
    decreases keys.len(),
{
    if keys.len() == 0 {
        0
    } else {
        count_key(keys.drop_last(), k) + if keys.last() == k { 1nat } else { 0nat }
    }
}

/// `k` is one of `keys` and none of them occurs more often.
pub open spec fn is_most_frequent(keys: Seq<Seq<char>>, k: Seq<char>) -> bool {
    keys.contains(k) && forall|j: int| 0 <= j < keys.len() ==> count_key(keys, #[trigger] keys[j]) <= count_key(keys, k)
}

/// An entry's language pair, `source -> target`.
pub open spec fn pair_key(e: HistoryEntry) -> Seq<char> {
    e.source_lang@ + " -> "@ + e.target_lang@
}

/// The language pairs of the entries.
pub open spec fn pair_keys(s: Seq<HistoryEntry>) -> Seq<Seq<char>> {
    s.map_values(|e: HistoryEntry| pair_key(e))
}

/// The non-empty host name of a URL, where it parses.
pub open spec fn host_of(u: Seq<char>) -> Option<Seq<char>> {
    match url_parse(u) {
        Some((_, Some(h), _)) => if h.len() > 0 { Some(h) } else { None },
        _ => None,
    }
}

/// The host names of the entries' URLs, where they have one.
pub open spec fn host_keys(s: Seq<HistoryEntry>) -> Seq<Seq<char>>
    decreases s.len(),
{
    if s.len() == 0 {
        seq![]
    } else {
        let r = host_keys(s.drop_last());
        match host_of(s.last().url@) {
            Some(h) => r.push(h),
            None => r,
        }
    }
}

/// The words of all entries, added up.
pub open spec fn words_of(s: Seq<HistoryEntry>) -> nat
    decreases s.len(),
{
    if s.len() == 0 { 0 } else { words_of(s.drop_last()) + s.last().word_count as nat }
}

/// `count_key`.
fn count_key_exec(keys: &Vec<Vec<char>>, k: &Vec<char>) -> (n: usize)
    ensures
        n == count_key(views(keys@), k@),
{
    let mut n: usize = 0;
    let mut i: usize = 0;
    while i < keys.len()
        invariant
            i <= keys@.len(),
            n == count_key(views(keys@).take(i as int), k@),
            n <= i,
        decreases keys.len() - i,
    {
        assert(views(keys@).take(i + 1).drop_last() =~= views(keys@).take(i as int));
        if eq_chars(&keys[i], k) {
            n += 1;
        }
        i += 1;
    }
    assert(views(keys@).take(keys@.len() as int) =~= views(keys@));
    n
}

/// One of the most frequent keys, or `None` when there are none.
pub fn most_frequent(keys: &Vec<Vec<char>>) -> (r: Option<Vec<char>>)
    ensures
        match r {
            Some(k) => is_most_frequent(views(keys@), k@),
            None => keys@.len() == 0,
        },
{
    if keys.len() == 0 {
        return None;
    }
    let mut best: usize = 0;
    let mut best_n = count_key_exec(keys, &keys[0]);
    let mut i: usize = 1;
    while i < keys.len()
        invariant
            1 <= i <= keys@.len(),
            best < keys@.len(),
            best_n == count_key(views(keys@), keys@[best as int]@),
            forall|j: int| 0 <= j < i ==> count_key(views(keys@), #[trigger] views(keys@)[j]) <= best_n,
        decreases keys.len() - i,
    {
        let n = count_key_exec(keys, &keys[i]);
        if n > best_n {
            best = i;
            best_n = n;
        }
        i += 1;
    }
    let r = slice_vec(&keys[best], 0, keys[best].len());
    assert(r@ =~= keys@[best as int]@);
    assert(views(keys@)[best as int] == r@);
    Some(r)
}

impl HistoryService {
    /// The number of entries and of words, the most frequent language pair
    /// and the most frequent host name (where several are as frequent, one
    /// of them).
    pub fn get_statistics(&self, entries: &Vec<HistoryEntry>) -> (r: HistoryStatistics)
        requires
            words_of(entries@) <= usize::MAX,
        ensures
            r.total_entries == entries@.len(),
            r.total_words == words_of(entries@),
            match r.most_used_language_pair {
                Some(p) => is_most_frequent(pair_keys(entries@), p@),
                None => entries@.len() == 0,
            },
            match r.most_translated_domain {
                Some(d) => is_most_frequent(host_keys(entries@), d@),
                None => host_keys(entries@).len() == 0,
            },
    {
        let mut words: usize = 0;
        let mut pairs: Vec<Vec<char>> = Vec::new();
        let mut hosts: Vec<Vec<char>> = Vec::new();
        let mut i: usize = 0;
        while i < entries.len()
            invariant
                i <= entries@.len(),
                words_of(entries@) <= usize::MAX,
                words == words_of(entries@.take(i as int)),
                views(pairs@) == pair_keys(entries@.take(i as int)),
                views(hosts@) == host_keys(entries@.take(i as int)),
            decreases entries.len() - i,
        {
            assert(entries@.take(i + 1).drop_last() =~= entries@.take(i as int));
            proof { lemma_words_prefix(entries@, i + 1); }
            let e = &entries[i];
            words = words + e.word_count;
            let mut p: Vec<char> = Vec::new();
            append_str(&mut p, e.source_lang.as_str());
            append_str(&mut p, " -> ");
            append_str(&mut p, e.target_lang.as_str());
            let ghost p0 = views(pairs@);
            pairs.push(p);
            assert(views(pairs@) =~= p0.push(pair_key(*e)));
            assert(pair_keys(entries@.take(i + 1)) =~= pair_keys(entries@.take(i as int)).push(pair_key(*e)));
            match parse_url(e.url.as_str()) {
                Some(parts) => match parts.host {
                    Some(h) => {
                        let hv = chars_of(h.as_str());
                        if hv.len() > 0 {
                            let ghost h0 = views(hosts@);
                            hosts.push(hv);
                            assert(views(hosts@) =~= h0.push(h@));
                        }
                    },
                    None => {},
                },
                None => {},
            }
            i += 1;
        }
        assert(entries@.take(entries@.len() as int) =~= entries@);
        let pair = match most_frequent(&pairs) {
            Some(p) => Some(string_of(&p)),
            None => None,
        };
        let host = match most_frequent(&hosts) {
            Some(h) => Some(string_of(&h)),
            None => None,
        };
        HistoryStatistics {
            total_entries: entries.len(),
            total_words: words,
            most_used_language_pair: pair,
            most_translated_domain: host,
        }
    }
}

proof fn lemma_words_prefix(s: Seq<HistoryEntry>, i: int)
    requires
        0 <= i <= s.len(),
    ensures
        words_of(s.take(i)) <= words_of(s),
    decreases s.len() - i,
{
    if i < s.len() {
        lemma_words_prefix(s, i + 1);
        assert(s.take(i + 1).drop_last() =~= s.take(i));
    } else {
        assert(s.take(i) =~= s);
    }
}

} // verus!
