use vstd::prelude::*;
use crate::clock::{chrono_format, format_utc, now_utc, Timestamp};
use crate::num::{decimal, decimal_vec, lemma_decimal_injective, lemma_pigeonhole, zero_padded, zero_padded_vec};
use crate::text::{
    append_slice, chars_of, collapse_vec, eq_chars, is_alphanumeric, is_whitespace, join_vec,
    keep_views, lowercase_vec, replace_vec, slice_vec, split_on_vec, split_ws_vec, string_of,
    trim_char_vec, views, find_last, utf8_len_upto, contains_string, string_views,
    collapse, filter_seqs, join, last_match, replace, split_on, split_ws, trim_char,
    unicode_alphanumeric, unicode_lowercase, unicode_whitespace, utf8_len,
};
use crate::urls::{parse_url, url_parse};

verus! {

/// How a file name is put together.
#[derive(Debug, Clone)]
pub enum FileNamingMode {
    /// `title.md`
    TitleOnly,
    /// `title_20250708_143022.md`
    TitleWithTimestamp,
    /// `example_docs_getting_started.md`
    DomainPathTitle,
    /// `001_getting_started.md`
    OrderTitle,
    /// A template over `{domain}`, `{path}`, `{title}`, `{timestamp}`,
    /// `{order}` and `{content_type}`.
    Custom(String),
}

/// Settings of the file naming service.
#[derive(Debug, Clone)]
pub struct FileNamingConfig {
    pub mode: FileNamingMode,
    pub max_length: usize,
    pub timestamp_format: String,
    pub remove_special_chars: bool,
    pub lowercase: bool,
    pub word_separator: String,
    pub include_extension: bool,
}

/// What a file name is made from.
#[derive(Debug, Clone)]
pub struct FileNamingContext {
    pub url: String,
    pub title: String,
    pub order: Option<usize>,
    pub timestamp: Timestamp,
    pub content_type: String,
    pub folder_path: Option<String>,
}

/// A generated file name and where it goes.
#[derive(Debug, Clone)]
pub struct FileNamingResult {
    pub file_name: String,
    pub folder_path: String,
    pub full_path: String,
    pub original_title: String,
    pub cleaned_title: String,
    pub extension: String,
}

impl FileNamingMode {
    /// An equal mode.
    pub fn duplicate(&self) -> (r: FileNamingMode)
        ensures
            r == *self,
    {
        match self {
            FileNamingMode::TitleOnly => FileNamingMode::TitleOnly,
            FileNamingMode::TitleWithTimestamp => FileNamingMode::TitleWithTimestamp,
            FileNamingMode::DomainPathTitle => FileNamingMode::DomainPathTitle,
            FileNamingMode::OrderTitle => FileNamingMode::OrderTitle,
            FileNamingMode::Custom(t) => FileNamingMode::Custom(t.clone()),
        }
    }
}

impl FileNamingConfig {
    /// An equal configuration.
    pub fn duplicate(&self) -> (r: FileNamingConfig)
        ensures
            r == *self,
    {
        FileNamingConfig {
            mode: self.mode.duplicate(),
            max_length: self.max_length,
            timestamp_format: self.timestamp_format.clone(),
            remove_special_chars: self.remove_special_chars,
            lowercase: self.lowercase,
            word_separator: self.word_separator.clone(),
            include_extension: self.include_extension,
        }
    }

    /// The default configuration: title with timestamp, at most 100 bytes,
    /// `%Y%m%d_%H%M%S`, special characters removed, lowercase, `_` between
    /// words, `.md` extension.
    pub fn default_config() -> (r: FileNamingConfig)
        ensures
            r.mode == FileNamingMode::TitleWithTimestamp,
            r.max_length == 100,
            r.timestamp_format@ == "%Y%m%d_%H%M%S"@,
            r.remove_special_chars,
            r.lowercase,
            r.word_separator@ == "_"@,
            r.include_extension,
    {
        FileNamingConfig {
            mode: FileNamingMode::TitleWithTimestamp,
            max_length: 100,
            timestamp_format: "%Y%m%d_%H%M%S".to_owned(),
            remove_special_chars: true,
            lowercase: true,
            word_separator: "_".to_owned(),
            include_extension: true,
        }
    }
}

impl Default for FileNamingConfig {
    fn default() -> (r: FileNamingConfig)
        ensures
            r.mode == FileNamingMode::TitleWithTimestamp,
            r.max_length == 100,
            r.timestamp_format@ == "%Y%m%d_%H%M%S"@,
            r.remove_special_chars,
            r.lowercase,
            r.word_separator@ == "_"@,
            r.include_extension,
    {
        FileNamingConfig::default_config()
    }
}

// ---------------------------------------------------------------------------
// The naming rules.
// ---------------------------------------------------------------------------

/// Characters that survive cleaning: alphanumerics and `_` (a `-` becomes a
/// separator too: `rust-lang.org` gives `rust_lang_org`).
pub open spec fn is_name_char(c: char) -> bool {
    unicode_alphanumeric(c) || c == '_'
}

/// A title character after special characters are removed.
pub open spec fn title_char(c: char) -> char {
    if is_name_char(c) || unicode_whitespace(c) {
        c
    } else {
        '_'
    }
}

/// A path-segment character after cleaning.
pub open spec fn segment_char(c: char) -> char {
    if is_name_char(c) {
        c
    } else {
        '_'
    }
}

/// The cleaned title: special characters to `_`, lowercased, words joined by
/// the separator, doubled separators collapsed, separator characters trimmed.
pub open spec fn clean_title_spec(title: Seq<char>, remove_special: bool, lowercase: bool, sep: Seq<char>) -> Seq<char> {
    let a = if remove_special {
        title.map_values(|c: char| title_char(c))
    } else {
        title
    };
    let b = if lowercase {
        unicode_lowercase(a)
    } else {
        a
    };
    let c = join(split_ws(b), sep);
    let d = collapse(c, sep + sep, sep);
    trim_char(d, sep[0])
}

/// A cleaned path segment: non-name characters to `_`, `_` trimmed.
pub open spec fn clean_segment(s: Seq<char>) -> Seq<char> {
    trim_char(s.map_values(|c: char| segment_char(c)), '_')
}

/// The domain part of a name: the URL's domain with `.` as `_`, cleaned, or
/// `unknown`.
pub open spec fn domain_part(url: Seq<char>) -> Seq<char> {
    match url_parse(url) {
        Some((Some(d), _, _)) => clean_segment(replace(d, "."@, "_"@)),
        _ => "unknown"@,
    }
}

/// Whether a path segment counts: non-empty and not `index.html`.
pub open spec fn counts_as_segment(s: Seq<char>) -> bool {
    s.len() > 0 && s != "index.html"@
}

/// The path part of a name: the cleaned, non-empty directory segments of the
/// URL's path joined by `_`.
pub open spec fn path_part(url: Seq<char>) -> Seq<char> {
    match url_parse(url) {
        Some((_, _, path)) => {
            let segs = filter_seqs(split_on(path, '/'), |s: Seq<char>| counts_as_segment(s));
            if segs.len() > 1 {
                join(
                    filter_seqs(
                        segs.take(segs.len() - 1).map_values(|s: Seq<char>| clean_segment(s)),
                        |s: Seq<char>| s.len() > 0,
                    ),
                    "_"@,
                )
            } else {
                seq![]
            }
        },
        None => seq![],
    }
}

/// The `{order}` text: `order + 1` with three digits, or `000`.
pub open spec fn order_text(order: Option<usize>) -> Seq<char> {
    match order {
        Some(o) => zero_padded((o + 1) as nat, 3),
        None => "000"@,
    }
}

/// The formatted timestamp of a context.
pub open spec fn timestamp_text(ts: Timestamp, fmt: Seq<char>) -> Seq<char> {
    chrono_format(ts.secs, ts.nanos, fmt).unwrap()
}

/// A custom template with its placeholders filled in, in this order:
/// `{domain}`, `{path}`, `{title}`, `{timestamp}`, `{order}`, `{content_type}`.
pub open spec fn template_spec(template: Seq<char>, ctx: FileNamingContext, cleaned: Seq<char>, fmt: Seq<char>) -> Seq<char> {
    let s1 = replace(template, "{domain}"@, domain_part(ctx.url@));
    let s2 = replace(s1, "{path}"@, path_part(ctx.url@));
    let s3 = replace(s2, "{title}"@, cleaned);
    let s4 = replace(s3, "{timestamp}"@, timestamp_text(ctx.timestamp, fmt));
    let s5 = replace(s4, "{order}"@, order_text(ctx.order));
    replace(s5, "{content_type}"@, ctx.content_type@)
}

/// The name before truncation, by mode.
pub open spec fn raw_base_name(cfg: FileNamingConfig, ctx: FileNamingContext, cleaned: Seq<char>) -> Seq<char> {
    match cfg.mode {
        FileNamingMode::TitleOnly => cleaned,
        FileNamingMode::TitleWithTimestamp => cleaned + "_"@ + timestamp_text(ctx.timestamp, cfg.timestamp_format@),
        FileNamingMode::DomainPathTitle => {
            let path = path_part(ctx.url@);
            if path.len() == 0 {
                domain_part(ctx.url@) + "_"@ + cleaned
            } else {
                domain_part(ctx.url@) + "_"@ + path + "_"@ + cleaned
            }
        },
        FileNamingMode::OrderTitle => match ctx.order {
            Some(o) => zero_padded((o + 1) as nat, 3) + "_"@ + cleaned,
            None => cleaned,
        },
        FileNamingMode::Custom(t) => template_spec(t@, ctx, cleaned, cfg.timestamp_format@),
    }
}

/// A name cut to `max` bytes: names within the limit stay; longer ones keep
/// their first `max` characters, and are cut again at the last separator
/// when that separator starts after byte `max / 2`.
pub open spec fn truncate_spec(name: Seq<char>, max: nat, sep: Seq<char>) -> Seq<char> {
    if utf8_len(name) <= max {
        name
    } else {
        let t = name.take(if max < name.len() { max as int } else { name.len() as int });
        match last_match(t, sep) {
            Some(i) => if utf8_len(t.take(i)) > max / 2 {
                t.take(i)
            } else {
                t
            },
            None => t,
        }
    }
}

/// The name with counter `k`: `base_k`.
pub open spec fn numbered(base: Seq<char>, k: nat) -> Seq<char> {
    base + "_"@ + decimal(k)
}

/// `k` is the least counter from 1 whose numbered name is unused.
pub open spec fn is_first_free(used: Seq<Seq<char>>, base: Seq<char>, k: nat) -> bool {
    &&& k >= 1
    &&& !used.contains(numbered(base, k))
    &&& forall|j: nat| 1 <= j < k ==> used.contains(#[trigger] numbered(base, j))
}

/// `base` if it is unused, otherwise `base_k` for the least `k >= 1` that is.
pub open spec fn unique_name(used: Seq<Seq<char>>, base: Seq<char>) -> Seq<char> {
    if !used.contains(base) {
        base
    } else {
        numbered(base, choose|k: nat| is_first_free(used, base, k))
    }
}

/// Whether the mode formats the timestamp.
pub open spec fn uses_timestamp(mode: FileNamingMode) -> bool {
    mode is TitleWithTimestamp || mode is Custom
}

/// Whether the mode prints the order.
pub open spec fn uses_order(mode: FileNamingMode) -> bool {
    mode is OrderTitle || mode is Custom
}

/// What a context needs for a name to be produced under `cfg`: a timestamp
/// that chrono can format with the configured format where the mode uses it,
/// and an order below the largest `usize` where the mode prints it (it is
/// printed plus one).
pub open spec fn nameable(cfg: FileNamingConfig, ctx: FileNamingContext) -> bool {
    &&& uses_timestamp(cfg.mode) ==> chrono_format(ctx.timestamp.secs, ctx.timestamp.nanos, cfg.timestamp_format@) is Some
    &&& uses_order(cfg.mode) ==> (ctx.order matches Some(o) ==> o < usize::MAX)
}

/// The base name (cleaned, by mode, truncated) for a context.
pub open spec fn base_name_spec(cfg: FileNamingConfig, ctx: FileNamingContext) -> Seq<char> {
    let cleaned = clean_title_spec(ctx.title@, cfg.remove_special_chars, cfg.lowercase, cfg.word_separator@);
    truncate_spec(raw_base_name(cfg, ctx, cleaned), cfg.max_length as nat, cfg.word_separator@)
}

/// The extension appended to names.
pub open spec fn extension_spec(cfg: FileNamingConfig) -> Seq<char> {
    if cfg.include_extension {
        ".md"@
    } else {
        ""@
    }
}

/// The folder of a context: its own, or `documents`.
pub open spec fn folder_spec(ctx: FileNamingContext) -> Seq<char> {
    match ctx.folder_path {
        Some(f) => f@,
        None => "documents"@,
    }
}

/// The full result of naming `ctx` with the names in `used` taken.
pub open spec fn naming_result_matches(r: FileNamingResult, cfg: FileNamingConfig, ctx: FileNamingContext, used: Seq<Seq<char>>) -> bool {
    let name = unique_name(used, base_name_spec(cfg, ctx)) + extension_spec(cfg);
    &&& r.file_name@ == name
    &&& r.folder_path@ == folder_spec(ctx)
    &&& r.full_path@ == folder_spec(ctx) + "/"@ + name
    &&& r.original_title@ == ctx.title@
    &&& r.cleaned_title@ == clean_title_spec(ctx.title@, cfg.remove_special_chars, cfg.lowercase, cfg.word_separator@)
    &&& r.extension@ == extension_spec(cfg)
}

// ---------------------------------------------------------------------------
// Character-level steps.
// ---------------------------------------------------------------------------

fn name_char(c: char) -> (b: bool)
    ensures
        b == is_name_char(c),
{
    is_alphanumeric(c) || c == '_'
}

/// Special characters of a title to `_`.
fn map_title_chars(s: &[char]) -> (r: Vec<char>)
    ensures
        r@ == s@.map_values(|c: char| title_char(c)),
{
    let mut r: Vec<char> = Vec::new();
    let mut i: usize = 0;
    while i < s.len()
        invariant
            i <= s@.len(),
            r@ == s@.take(i as int).map_values(|c: char| title_char(c)),
        decreases s.len() - i,
    {
        let c = s[i];
        let d = if name_char(c) || is_whitespace(c) { c } else { '_' };
        r.push(d);
        i += 1;
        assert(r@ =~= s@.take(i as int).map_values(|c: char| title_char(c)));
    }
    assert(s@.take(s@.len() as int) =~= s@);
    r
}

/// Non-name characters of a segment to `_`.
fn map_segment_chars(s: &[char]) -> (r: Vec<char>)
    ensures
        r@ == s@.map_values(|c: char| segment_char(c)),
{
    let mut r: Vec<char> = Vec::new();
    let mut i: usize = 0;
    while i < s.len()
        invariant
            i <= s@.len(),
            r@ == s@.take(i as int).map_values(|c: char| segment_char(c)),
        decreases s.len() - i,
    {
        let c = s[i];
        let d = if name_char(c) { c } else { '_' };
        r.push(d);
        i += 1;
        assert(r@ =~= s@.take(i as int).map_values(|c: char| segment_char(c)));
    }
    assert(s@.take(s@.len() as int) =~= s@);
    r
}

/// `clean_title_spec` on characters.
pub fn clean_title_chars(title: &[char], remove_special: bool, lowercase: bool, sep: &[char]) -> (r: Vec<char>)
    requires
        sep@.len() > 0,
    ensures
        r@ == clean_title_spec(title@, remove_special, lowercase, sep@),
{
    let a = if remove_special { map_title_chars(title) } else { slice_vec(title, 0, title.len()) };
    assert(title@.subrange(0, title@.len() as int) =~= title@);
    let b = if lowercase { lowercase_vec(&a) } else { a };
    let words = split_ws_vec(&b);
    let c = join_vec(&words, sep);
    let mut dd = slice_vec(sep, 0, sep.len());
    append_slice(&mut dd, sep);
    assert(sep@.subrange(0, sep@.len() as int) =~= sep@);
    let d = collapse_vec(&c, &dd, sep);
    trim_char_vec(&d, sep[0])
}

/// `clean_segment` on characters.
pub fn clean_segment_chars(s: &[char]) -> (r: Vec<char>)
    ensures
        r@ == clean_segment(s@),
{
    let m = map_segment_chars(s);
    trim_char_vec(&m, '_')
}

fn literal(s: &str) -> (r: Vec<char>)
    ensures
        r@ == s@,
{
    chars_of(s)
}

/// `domain_part` of a URL.
pub fn domain_part_chars(url: &str) -> (r: Vec<char>)
    ensures
        r@ == domain_part(url@),
{
    match parse_url(url) {
        Some(parts) => match parts.domain {
            Some(d) => {
                let dc = chars_of(d.as_str());
                let dot = literal(".");
                let us = literal("_");
                proof { reveal_strlit("."); }
                let rep = replace_vec(&dc, &dot, &us);
                clean_segment_chars(&rep)
            },
            None => literal("unknown"),
        },
        None => literal("unknown"),
    }
}

/// `path_part` of a URL.
pub fn path_part_chars(url: &str) -> (r: Vec<char>)
    ensures
        r@ == path_part(url@),
{
    match parse_url(url) {
        Some(parts) => {
            let pc = chars_of(parts.path.as_str());
            let pieces = split_on_vec(&pc, '/');
            let index_html = literal("index.html");
            let mut keep: Vec<bool> = Vec::new();
            let mut i: usize = 0;
            while i < pieces.len()
                invariant
                    i <= pieces@.len(),
                    index_html@ == "index.html"@,
                    keep@.len() == i,
                    forall|k: int| 0 <= k < i ==> keep@[k] == counts_as_segment(#[trigger] pieces@[k]@),
                decreases pieces.len() - i,
            {
                let ok = pieces[i].len() > 0 && !eq_chars(&pieces[i], &index_html);
                keep.push(ok);
                i += 1;
            }
            let segs = keep_views(&pieces, Ghost(|s: Seq<char>| counts_as_segment(s)), keep);
            if segs.len() > 1 {
                let mut cleaned: Vec<Vec<char>> = Vec::new();
                let mut nonempty: Vec<bool> = Vec::new();
                let mut j: usize = 0;
                let last = segs.len() - 1;
                while j < last
                    invariant
                        last == segs@.len() - 1,
                        j <= last,
                        cleaned@.len() == j,
                        nonempty@.len() == j,
                        forall|k: int| 0 <= k < j ==> #[trigger] cleaned@[k]@ == clean_segment(segs@[k]@),
                        forall|k: int| 0 <= k < j ==> nonempty@[k] == (cleaned@[k]@.len() > 0),
                    decreases last - j,
                {
                    let c = clean_segment_chars(&segs[j]);
                    nonempty.push(c.len() > 0);
                    cleaned.push(c);
                    j += 1;
                }
                assert(views(cleaned@) =~= views(segs@).take(views(segs@).len() - 1).map_values(|s: Seq<char>| clean_segment(s)));
                let kept = keep_views(&cleaned, Ghost(|s: Seq<char>| s.len() > 0), nonempty);
                let us = literal("_");
                join_vec(&kept, &us)
            } else {
                Vec::new()
            }
        },
        None => Vec::new(),
    }
}

/// `truncate_spec` on characters.
#[verifier::rlimit(40)]
pub fn truncate_chars(name: &[char], max: usize, sep: &[char]) -> (r: Vec<char>)
    ensures
        r@ == truncate_spec(name@, max as nat, sep@),
{
    assert(name@.subrange(0, name@.len() as int) =~= name@);
    assert(name@.take(name@.len() as int) =~= name@);
    match utf8_len_upto(name, name.len(), max) {
        Some(_) => {
            return slice_vec(name, 0, name.len());
        },
        None => {},
    }
    let k = if max < name.len() { max } else { name.len() };
    let t = slice_vec(name, 0, k);
    assert(t@ =~= name@.take(k as int));
    match find_last(&t, sep) {
        Some(i) => {
            match utf8_len_upto(&t, i, max / 2) {
                Some(_) => t,
                None => {
                    let u = slice_vec(&t, 0, i);
                    assert(u@ =~= t@.take(i as int));
                    u
                },
            }
        },
        None => t,
    }
}

proof fn lemma_numbered_injective(base: Seq<char>, a: nat, b: nat)
    requires
        numbered(base, a) == numbered(base, b),
    ensures
        a == b,
{
    reveal_strlit("_");
    let n = base.len() + 1;
    assert(numbered(base, a).skip(n as int) =~= decimal(a));
    assert(numbered(base, b).skip(n as int) =~= decimal(b));
    lemma_decimal_injective(a, b);
}

proof fn lemma_first_free_exists(used: Seq<Seq<char>>, base: Seq<char>, j: nat)
    requires
        1 <= j <= used.len() + 1,
        forall|i: nat| 1 <= i < j ==> used.contains(#[trigger] numbered(base, i)),
    ensures
        exists|k: nat| is_first_free(used, base, k),
    decreases used.len() + 1 - j,
{
    if !used.contains(numbered(base, j)) {
        assert(is_first_free(used, base, j));
    } else if j == used.len() + 1 {
        let f = |k: int| numbered(base, k as nat);
        assert forall|a: int, b: int| 1 <= a <= j && 1 <= b <= j && #[trigger] f(a) == #[trigger] f(b) implies a == b by {
            lemma_numbered_injective(base, a as nat, b as nat);
        }
        assert forall|k: int| 1 <= k <= j implies used.contains(#[trigger] f(k)) by {
            if k < j {
                assert(used.contains(numbered(base, k as nat)));
            }
        }
        lemma_pigeonhole(f, j as int, used);
    } else {
        lemma_first_free_exists(used, base, j + 1);
    }
}

/// A name handed out is never one already in use: `unique_name` of any
/// base is not among the used names.
pub proof fn law_unique_name_is_new(used: Seq<Seq<char>>, base: Seq<char>)
    ensures
        !used.contains(unique_name(used, base)),
{
    if used.contains(base) {
        lemma_first_free_exists(used, base, 1);
        let k = choose|k: nat| is_first_free(used, base, k);
        assert(is_first_free(used, base, k));
    }
}

/// Two names handed out one after the other differ, whatever their bases:
/// the second is not the first, which is in use by then.
pub proof fn law_successive_names_differ(used: Seq<Seq<char>>, first_base: Seq<char>, second_base: Seq<char>)
    ensures
        unique_name(used.push(unique_name(used, first_base)), second_base) != unique_name(used, first_base),
{
    let first = unique_name(used, first_base);
    let u2 = used.push(first);
    law_unique_name_is_new(u2, second_base);
    assert(u2[used.len() as int] == first);
    assert(u2.contains(first));
}

/// The name handed out is the base where the base is free; otherwise the
/// base with the least counter from 1 that is free, every smaller counter
/// being taken.
pub proof fn law_unique_name_is_least(used: Seq<Seq<char>>, base: Seq<char>)
    ensures
        !used.contains(base) ==> unique_name(used, base) == base,
        used.contains(base) ==> exists|k: nat| {
            &&& k >= 1
            &&& unique_name(used, base) == #[trigger] numbered(base, k)
            &&& !used.contains(numbered(base, k))
            &&& forall|j: nat| 1 <= j < k ==> used.contains(#[trigger] numbered(base, j))
        },
{
    if used.contains(base) {
        lemma_first_free_exists(used, base, 1);
        let k = choose|k: nat| is_first_free(used, base, k);
        assert(is_first_free(used, base, k));
        assert(unique_name(used, base) == numbered(base, k));
    }
}

/// Names handed out one after another never repeat: where the names in
/// use are all different, they stay so with the next name added.
pub proof fn law_used_names_stay_distinct(used: Seq<Seq<char>>, base: Seq<char>)
    requires
        forall|i: int, j: int| 0 <= i < j < used.len() ==> used[i] != used[j],
    ensures
        forall|i: int, j: int| 0 <= i < j < used.len() + 1
            ==> #[trigger] used.push(unique_name(used, base))[i] != #[trigger] used.push(unique_name(used, base))[j],
{
    law_unique_name_is_new(used, base);
    let u = used.push(unique_name(used, base));
    assert forall|i: int, j: int| 0 <= i < j < used.len() + 1 implies #[trigger] u[i] != #[trigger] u[j] by {
        if j == used.len() {
            assert(u[i] == used[i]);
            assert(used.contains(used[i]));
        } else {
            assert(u[i] == used[i] && u[j] == used[j]);
        }
    }
}

/// A preview names a context as the next generation from the same state
/// does: two results that both match one configuration, context and record
/// of used names agree in every field. (The preview records nothing; the
/// generation then records the name, which was not yet in use.)
pub proof fn law_preview_is_next_name(
    preview: FileNamingResult,
    generated: FileNamingResult,
    cfg: FileNamingConfig,
    ctx: FileNamingContext,
    used: Seq<Seq<char>>,
)
    requires
        naming_result_matches(preview, cfg, ctx, used),
        naming_result_matches(generated, cfg, ctx, used),
    ensures
        preview.file_name@ == generated.file_name@,
        preview.folder_path@ == generated.folder_path@,
        preview.full_path@ == generated.full_path@,
        preview.original_title@ == generated.original_title@,
        preview.cleaned_title@ == generated.cleaned_title@,
        preview.extension@ == generated.extension@,
        !used.contains(unique_name(used, base_name_spec(cfg, ctx))),
{
    law_unique_name_is_new(used, base_name_spec(cfg, ctx));
}

/// `base + "_" + decimal(k)`.
fn numbered_chars(base: &[char], k: u64) -> (r: Vec<char>)
    ensures
        r@ == numbered(base@, k as nat),
{
    let mut r = slice_vec(base, 0, base.len());
    assert(base@.subrange(0, base@.len() as int) =~= base@);
    let us = literal("_");
    append_slice(&mut r, &us);
    let d = decimal_vec(k);
    append_slice(&mut r, &d);
    r
}

/// `unique_name` of `base` among `used`.
pub fn unique_name_chars(used: &Vec<String>, base: &[char]) -> (r: Vec<char>)
    requires
        used@.len() < usize::MAX,
    ensures
        r@ == unique_name(string_views(used@), base@),
{
    let ghost u = string_views(used@);
    let base_s = string_of(base);
    if !contains_string(used, &base_s) {
        assert(base@.subrange(0, base@.len() as int) =~= base@);
        return slice_vec(base, 0, base.len());
    }
    let mut counter: u64 = 1;
    loop
        invariant
            u == string_views(used@),
            used@.len() < usize::MAX,
            u.contains(base@),
            1 <= counter <= u.len() + 1,
            forall|j: nat| 1 <= j < counter ==> u.contains(#[trigger] numbered(base@, j)),
        decreases u.len() + 1 - counter,
    {
        let cand = numbered_chars(base, counter);
        let cs = string_of(&cand);
        if !contains_string(used, &cs) {
            proof {
                assert(is_first_free(u, base@, counter as nat));
                let c = choose|k: nat| is_first_free(u, base@, k);
                assert(is_first_free(u, base@, c));
                if c < counter {
                    assert(u.contains(numbered(base@, c)));
                } else if counter < c {
                    assert(u.contains(numbered(base@, counter as nat)));
                }
            }
            return cand;
        }
        proof {
            let f = |k: int| numbered(base@, k as nat);
            assert forall|a: int, b: int| 1 <= a <= counter && 1 <= b <= counter && #[trigger] f(a) == #[trigger] f(b) implies a == b by {
                lemma_numbered_injective(base@, a as nat, b as nat);
            }
            assert forall|k: int| 1 <= k <= counter implies u.contains(#[trigger] f(k)) by {
                if k < counter {
                    assert(u.contains(numbered(base@, k as nat)));
                }
            }
            lemma_pigeonhole(f, counter as int, u);
        }
        counter = counter + 1;
    }
}

/// The formatted timestamp of `ts`, which chrono can format.
fn timestamp_chars(ts: &Timestamp, fmt: &String) -> (r: Vec<char>)
    requires
        chrono_format(ts.secs, ts.nanos, fmt@) is Some,
    ensures
        r@ == timestamp_text(*ts, fmt@),
{
    match format_utc(ts.secs, ts.nanos, fmt.as_str()) {
        Some(s) => chars_of(s.as_str()),
        None => {
            proof { assert(false); }
            Vec::new()
        },
    }
}

/// `order_text`.
fn order_chars(order: Option<usize>) -> (r: Vec<char>)
    requires
        order matches Some(o) ==> o < usize::MAX,
    ensures
        r@ == order_text(order),
{
    match order {
        Some(o) => zero_padded_vec((o + 1) as u64, 3),
        None => literal("000"),
    }
}

/// `template_spec`.
fn template_chars(template: &String, ctx: &FileNamingContext, cleaned: &[char], fmt: &String) -> (r: Vec<char>)
    requires
        chrono_format(ctx.timestamp.secs, ctx.timestamp.nanos, fmt@) is Some,
        ctx.order matches Some(o) ==> o < usize::MAX,
    ensures
        r@ == template_spec(template@, *ctx, cleaned@, fmt@),
{
    proof {
        reveal_strlit("{domain}");
        reveal_strlit("{path}");
        reveal_strlit("{title}");
        reveal_strlit("{timestamp}");
        reveal_strlit("{order}");
        reveal_strlit("{content_type}");
    }
    let t = chars_of(template.as_str());
    let s1 = replace_vec(&t, &literal("{domain}"), &domain_part_chars(ctx.url.as_str()));
    let s2 = replace_vec(&s1, &literal("{path}"), &path_part_chars(ctx.url.as_str()));
    let s3 = replace_vec(&s2, &literal("{title}"), cleaned);
    let s4 = replace_vec(&s3, &literal("{timestamp}"), &timestamp_chars(&ctx.timestamp, fmt));
    let s5 = replace_vec(&s4, &literal("{order}"), &order_chars(ctx.order));
    replace_vec(&s5, &literal("{content_type}"), &chars_of(ctx.content_type.as_str()))
}

/// `raw_base_name`.
fn raw_base_chars(cfg: &FileNamingConfig, ctx: &FileNamingContext, cleaned: &[char]) -> (r: Vec<char>)
    requires
        nameable(*cfg, *ctx),
    ensures
        r@ == raw_base_name(*cfg, *ctx, cleaned@),
{
    let us = literal("_");
    match &cfg.mode {
        FileNamingMode::TitleOnly => {
            assert(cleaned@.subrange(0, cleaned@.len() as int) =~= cleaned@);
            slice_vec(cleaned, 0, cleaned.len())
        },
        FileNamingMode::TitleWithTimestamp => {
            let mut r = slice_vec(cleaned, 0, cleaned.len());
            assert(cleaned@.subrange(0, cleaned@.len() as int) =~= cleaned@);
            append_slice(&mut r, &us);
            append_slice(&mut r, &timestamp_chars(&ctx.timestamp, &cfg.timestamp_format));
            r
        },
        FileNamingMode::DomainPathTitle => {
            let mut r = domain_part_chars(ctx.url.as_str());
            let path = path_part_chars(ctx.url.as_str());
            append_slice(&mut r, &us);
            if path.len() > 0 {
                append_slice(&mut r, &path);
                append_slice(&mut r, &us);
            }
            append_slice(&mut r, cleaned);
            r
        },
        FileNamingMode::OrderTitle => match ctx.order {
            Some(o) => {
                let mut r = zero_padded_vec((o + 1) as u64, 3);
                append_slice(&mut r, &us);
                append_slice(&mut r, cleaned);
                r
            },
            None => {
                assert(cleaned@.subrange(0, cleaned@.len() as int) =~= cleaned@);
                slice_vec(cleaned, 0, cleaned.len())
            },
        },
        FileNamingMode::Custom(t) => template_chars(t, ctx, cleaned, &cfg.timestamp_format),
    }
}

// ---------------------------------------------------------------------------
// The service.
// ---------------------------------------------------------------------------

/// Produces file names for translated documents and remembers the names it
/// has handed out, so that none is given twice.
pub struct FileNamingService {
    config: FileNamingConfig,
    used_names: Vec<String>,
}

impl FileNamingService {
    /// The word separator is never empty (with an empty one, collapsing
    /// doubled separators never ends).
    #[verifier::type_invariant]
    spec fn inv(self) -> bool {
        self.config.word_separator@.len() > 0
    }

    /// The configuration in use.
    pub closed spec fn cfg(self) -> FileNamingConfig {
        self.config
    }

    /// The names handed out or registered so far.
    pub closed spec fn used(self) -> Seq<Seq<char>> {
        string_views(self.used_names@)
    }

    /// A service with `config` and no names used.
    pub fn new(config: FileNamingConfig) -> (r: FileNamingService)
        requires
            config.word_separator@.len() > 0,
        ensures
            r.cfg() == config,
            r.used() == Seq::<Seq<char>>::empty(),
    {
        let r = FileNamingService { config, used_names: Vec::new() };
        assert(r.used() =~= Seq::<Seq<char>>::empty());
        r
    }

    /// A service with the default configuration.
    pub fn with_default_config() -> (r: FileNamingService)
        ensures
            r.cfg().mode == FileNamingMode::TitleWithTimestamp,
            r.cfg().max_length == 100,
            r.cfg().timestamp_format@ == "%Y%m%d_%H%M%S"@,
            r.cfg().remove_special_chars,
            r.cfg().lowercase,
            r.cfg().word_separator@ == "_"@,
            r.cfg().include_extension,
            r.used() == Seq::<Seq<char>>::empty(),
    {
        proof { reveal_strlit("_"); }
        FileNamingService::new(FileNamingConfig::default_config())
    }

    /// The title cleaned by the configuration's rules.
    pub fn clean_title(&self, title: &str) -> (r: String)
        ensures
            r@ == clean_title_spec(title@, self.cfg().remove_special_chars, self.cfg().lowercase, self.cfg().word_separator@),
    {
        proof { use_type_invariant(self); }
        let t = chars_of(title);
        let sep = chars_of(self.config.word_separator.as_str());
        let c = clean_title_chars(&t, self.config.remove_special_chars, self.config.lowercase, &sep);
        string_of(&c)
    }

    /// A path segment with non-name characters turned to `_` and `_` trimmed.
    pub fn clean_path_segment(&self, segment: &str) -> (r: String)
        ensures
            r@ == clean_segment(segment@),
    {
        let c = clean_segment_chars(&chars_of(segment));
        string_of(&c)
    }

    /// The domain part of a name for `url`.
    pub fn extract_domain(&self, url: &str) -> (r: String)
        ensures
            r@ == domain_part(url@),
    {
        string_of(&domain_part_chars(url))
    }

    /// The path part of a name for `url`.
    pub fn extract_path(&self, url: &str) -> (r: String)
        ensures
            r@ == path_part(url@),
    {
        string_of(&path_part_chars(url))
    }

    /// `name` cut to the configured length.
    pub fn truncate_name(&self, name: &str) -> (r: String)
        ensures
            r@ == truncate_spec(name@, self.cfg().max_length as nat, self.cfg().word_separator@),
    {
        let sep = chars_of(self.config.word_separator.as_str());
        string_of(&truncate_chars(&chars_of(name), self.config.max_length, &sep))
    }

    /// `base_name` if no name handed out equals it, otherwise `base_name_k`
    /// for the least free `k >= 1`.
    pub fn ensure_unique_name(&self, base_name: &str) -> (r: String)
        requires
            self.used().len() < usize::MAX,
        ensures
            r@ == unique_name(self.used(), base_name@),
    {
        string_of(&unique_name_chars(&self.used_names, &chars_of(base_name)))
    }

    /// The truncated base name for a context under the configuration.
    fn generate_base_name(&self, context: &FileNamingContext, cleaned_title: &[char]) -> (r: Vec<char>)
        requires
            nameable(self.cfg(), *context),
        ensures
            r@ == truncate_spec(raw_base_name(self.cfg(), *context, cleaned_title@), self.cfg().max_length as nat, self.cfg().word_separator@),
    {
        let raw = raw_base_chars(&self.config, context, cleaned_title);
        let sep = chars_of(self.config.word_separator.as_str());
        truncate_chars(&raw, self.config.max_length, &sep)
    }

    /// The name for `context` without recording it.
    fn name_for(&self, context: &FileNamingContext) -> (r: (FileNamingResult, Vec<char>))
        requires
            nameable(self.cfg(), *context),
            self.used().len() < usize::MAX,
        ensures
            naming_result_matches(r.0, self.cfg(), *context, self.used()),
            r.1@ == unique_name(self.used(), base_name_spec(self.cfg(), *context)),
    {
        proof { use_type_invariant(self); }
        let sep = chars_of(self.config.word_separator.as_str());
        let cleaned = clean_title_chars(&chars_of(context.title.as_str()), self.config.remove_special_chars, self.config.lowercase, &sep);
        let base = self.generate_base_name(context, &cleaned);
        let file_name = unique_name_chars(&self.used_names, &base);
        let extension = if self.config.include_extension { ".md" } else { "" };
        let mut final_name = slice_vec(&file_name, 0, file_name.len());
        assert(file_name@.subrange(0, file_name@.len() as int) =~= file_name@);
        append_slice(&mut final_name, &chars_of(extension));
        let folder_path = match &context.folder_path {
            Some(f) => f.clone(),
            None => "documents".to_owned(),
        };
        let mut full = chars_of(folder_path.as_str());
        append_slice(&mut full, &literal("/"));
        append_slice(&mut full, &final_name);
        let result = FileNamingResult {
            file_name: string_of(&final_name),
            folder_path,
            full_path: string_of(&full),
            original_title: context.title.clone(),
            cleaned_title: string_of(&cleaned),
            extension: extension.to_owned(),
        };
        (result, file_name)
    }

    /// Names `context` and records the name (without extension) as used.
    pub fn generate_file_name(&mut self, context: &FileNamingContext) -> (r: FileNamingResult)
        requires
            nameable(old(self).cfg(), *context),
            old(self).used().len() < usize::MAX,
        ensures
            naming_result_matches(r, old(self).cfg(), *context, old(self).used()),
            final(self).cfg() == old(self).cfg(),
            final(self).used() == old(self).used().push(
                unique_name(old(self).used(), base_name_spec(old(self).cfg(), *context)),
            ),
    {
        proof { use_type_invariant(&*self); }
        let (result, file_name) = self.name_for(context);
        let ghost u0 = self.used();
        let mut names: Vec<String> = Vec::new();
        std::mem::swap(&mut names, &mut self.used_names);
        names.push(string_of(&file_name));
        self.used_names = names;
        assert(self.used() =~= u0.push(file_name@));
        result
    }

    /// `generate_file_name` where the context can be named; `None` (and
    /// nothing recorded) where its timestamp cannot be formatted, or its order
    /// is the largest `usize` in a mode that prints it.
    pub fn try_generate_file_name(&mut self, context: &FileNamingContext) -> (r: Option<FileNamingResult>)
        requires
            old(self).used().len() < usize::MAX,
        ensures
            r is Some <==> nameable(old(self).cfg(), *context),
            r matches Some(res) ==> naming_result_matches(res, old(self).cfg(), *context, old(self).used())
                && final(self).used() == old(self).used().push(
                    unique_name(old(self).used(), base_name_spec(old(self).cfg(), *context)),
                ),
            r is None ==> final(self).used() == old(self).used(),
            final(self).cfg() == old(self).cfg(),
    {
        if self.can_name(context) {
            Some(self.generate_file_name(context))
        } else {
            None
        }
    }

    /// Whether `nameable` holds for `context`.
    fn can_name(&self, context: &FileNamingContext) -> (b: bool)
        ensures
            b == nameable(self.cfg(), *context),
    {
        let ts_ok = match &self.config.mode {
            FileNamingMode::TitleWithTimestamp | FileNamingMode::Custom(_) =>
                format_utc(context.timestamp.secs, context.timestamp.nanos, self.config.timestamp_format.as_str()).is_some(),
            _ => true,
        };
        let order_ok = match &self.config.mode {
            FileNamingMode::OrderTitle | FileNamingMode::Custom(_) => match context.order {
                Some(o) => o < usize::MAX,
                None => true,
            },
            _ => true,
        };
        ts_ok && order_ok
    }

    /// The name `generate_file_name` would give, without recording it.
    pub fn preview_file_name(&self, context: &FileNamingContext) -> (r: FileNamingResult)
        requires
            nameable(self.cfg(), *context),
            self.used().len() < usize::MAX,
        ensures
            naming_result_matches(r, self.cfg(), *context, self.used()),
    {
        self.name_for(context).0
    }

    /// `preview_file_name` where the context can be named, else `None`.
    pub fn try_preview_file_name(&self, context: &FileNamingContext) -> (r: Option<FileNamingResult>)
        requires
            self.used().len() < usize::MAX,
        ensures
            r is Some <==> nameable(self.cfg(), *context),
            r matches Some(res) ==> naming_result_matches(res, self.cfg(), *context, self.used()),
    {
        if self.can_name(context) {
            Some(self.preview_file_name(context))
        } else {
            None
        }
    }

    /// Names each context in turn, each seeing the names given before it.
    pub fn generate_batch_file_names(&mut self, contexts: &[FileNamingContext]) -> (r: Vec<FileNamingResult>)
        requires
            forall|i: int| 0 <= i < contexts@.len() ==> nameable(old(self).cfg(), #[trigger] contexts@[i]),
            old(self).used().len() + contexts@.len() < usize::MAX,
        ensures
            r@.len() == contexts@.len(),
            final(self).cfg() == old(self).cfg(),
            final(self).used().len() == old(self).used().len() + contexts@.len(),
            final(self).used().take(old(self).used().len() as int) == old(self).used(),
            forall|i: int| 0 <= i < contexts@.len() ==> naming_result_matches(
                #[trigger] r@[i],
                old(self).cfg(),
                contexts@[i],
                final(self).used().take(old(self).used().len() + i),
            ),
    {
        let ghost u0 = self.used();
        let mut out: Vec<FileNamingResult> = Vec::new();
        let mut i: usize = 0;
        while i < contexts.len()
            invariant
                i <= contexts@.len(),
                out@.len() == i,
                self.cfg() == old(self).cfg(),
                u0 == old(self).used(),
                self.used().len() == u0.len() + i,
                self.used().take(u0.len() as int) == u0,
                u0.len() + contexts@.len() < usize::MAX,
                forall|k: int| 0 <= k < contexts@.len() ==> nameable(old(self).cfg(), #[trigger] contexts@[k]),
                forall|k: int| 0 <= k < i ==> naming_result_matches(
                    #[trigger] out@[k],
                    old(self).cfg(),
                    contexts@[k],
                    self.used().take(u0.len() + k),
                ),
            decreases contexts.len() - i,
        {
            let ghost before = self.used();
            let res = self.generate_file_name(&contexts[i]);
            assert(self.used().take(u0.len() + i) =~= before);
            assert forall|k: int| 0 <= k < i implies naming_result_matches(
                #[trigger] out@[k],
                old(self).cfg(),
                contexts@[k],
                self.used().take(u0.len() + k),
            ) by {
                assert(self.used().take(u0.len() + k) =~= before.take(u0.len() + k));
            }
            assert(self.used().take(u0.len() as int) =~= before.take(u0.len() as int));
            out.push(res);
            i += 1;
        }
        out
    }

    /// Forgets all names handed out.
    pub fn reset_used_names(&mut self)
        ensures
            final(self).cfg() == old(self).cfg(),
            final(self).used() == Seq::<Seq<char>>::empty(),
    {
        proof { use_type_invariant(&*self); }
        self.used_names = Vec::new();
        assert(self.used() =~= Seq::<Seq<char>>::empty());
    }

    /// Records `name` as used (once).
    pub fn add_used_name(&mut self, name: &str)
        ensures
            final(self).cfg() == old(self).cfg(),
            old(self).used().contains(name@) ==> final(self).used() == old(self).used(),
            !old(self).used().contains(name@) ==> final(self).used() == old(self).used().push(name@),
    {
        proof { use_type_invariant(&*self); }
        let s = string_of(&chars_of(name));
        if !contains_string(&self.used_names, &s) {
            let ghost u0 = self.used();
            let mut names: Vec<String> = Vec::new();
            std::mem::swap(&mut names, &mut self.used_names);
            names.push(s);
            self.used_names = names;
            assert(self.used() =~= u0.push(name@));
        }
    }

    /// The configuration in use.
    pub fn get_config(&self) -> (r: &FileNamingConfig)
        ensures
            *r == self.cfg(),
    {
        &self.config
    }

    /// Replaces the configuration; the names used stay.
    pub fn update_config(&mut self, config: FileNamingConfig)
        requires
            config.word_separator@.len() > 0,
        ensures
            final(self).cfg() == config,
            final(self).used() == old(self).used(),
    {
        self.config = config;
    }
}

/// The name the default settings give a page titled `title` at `ts`, with
/// no name taken yet: the cleaned title, `_`, the timestamp as
/// `%Y%m%d_%H%M%S`, cut to 100 bytes, then `.md`.
pub open spec fn default_file_name(title: Seq<char>, ts: Timestamp) -> Seq<char> {
    truncate_spec(
        clean_title_spec(title, true, true, "_"@) + "_"@ + timestamp_text(ts, "%Y%m%d_%H%M%S"@),
        100,
        "_"@,
    ) + ".md"@
}

/// Names one document under the default settings, with nothing named before.
fn default_name_for(context: &FileNamingContext) -> (r: Option<String>)
    ensures
        r is Some <==> chrono_format(context.timestamp.secs, context.timestamp.nanos, "%Y%m%d_%H%M%S"@) is Some,
        r matches Some(n) ==> n@ == default_file_name(context.title@, context.timestamp),
{
    let mut service = FileNamingService::with_default_config();
    match service.try_generate_file_name(context) {
        Some(res) => {
            proof {
                reveal_strlit(".md");
                let base = base_name_spec(service.cfg(), *context);
                assert(!Seq::<Seq<char>>::empty().contains(base));
            }
            Some(res.file_name)
        },
        None => None,
    }
}

/// The file name of a single translated page (an `article`) made at
/// `timestamp`, under the default settings (`default_file_name`); `None`
/// where chrono cannot format the timestamp.
pub fn single_page_filename_at(url: &str, title: &str, timestamp: Timestamp) -> (r: Option<String>)
    ensures
        r is Some <==> chrono_format(timestamp.secs, timestamp.nanos, "%Y%m%d_%H%M%S"@) is Some,
        r matches Some(n) ==> n@ == default_file_name(title@, timestamp),
{
    let context = FileNamingContext {
        url: url.to_owned(),
        title: title.to_owned(),
        order: None,
        timestamp,
        content_type: "article".to_owned(),
        folder_path: None,
    };
    default_name_for(&context)
}

/// The file name of document `order` of a batch translation made at
/// `timestamp`, under the default settings (`default_file_name`: the
/// default mode does not print the order); `None` where chrono cannot format
/// the timestamp.
pub fn batch_filename_at(url: &str, title: &str, order: usize, timestamp: Timestamp) -> (r: Option<String>)
    ensures
        r is Some <==> chrono_format(timestamp.secs, timestamp.nanos, "%Y%m%d_%H%M%S"@) is Some,
        r matches Some(n) ==> n@ == default_file_name(title@, timestamp),
{
    let context = FileNamingContext {
        url: url.to_owned(),
        title: title.to_owned(),
        order: Some(order),
        timestamp,
        content_type: "documentation".to_owned(),
        folder_path: None,
    };
    default_name_for(&context)
}

/// `single_page_filename_at` for the present instant, read from the clock.
pub fn generate_single_page_filename(url: &str, title: &str) -> (r: Option<String>)
    ensures
        exists|t: Timestamp| {
            &&& (r is Some <==> chrono_format(t.secs, t.nanos, "%Y%m%d_%H%M%S"@) is Some)
            &&& (r matches Some(n) ==> n@ == default_file_name(title@, t))
        },
{
    let now = now_utc();
    single_page_filename_at(url, title, now)
}

/// `batch_filename_at` for the present instant, read from the clock.
pub fn generate_batch_filename(url: &str, title: &str, order: usize) -> (r: Option<String>)
    ensures
        exists|t: Timestamp| {
            &&& (r is Some <==> chrono_format(t.secs, t.nanos, "%Y%m%d_%H%M%S"@) is Some)
            &&& (r matches Some(n) ==> n@ == default_file_name(title@, t))
        },
{
    let now = now_utc();
    batch_filename_at(url, title, order, now)
}

} // verus!
