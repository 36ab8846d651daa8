//! Translation previews: the first part of a page, cut to a few paragraphs
//! and a number of bytes.

use vstd::prelude::*;
use crate::num::{decimal, decimal_vec};
use crate::text::{
    append_slice, append_str, byte_to_char_index, char_index_at, chars_of, contains, ends_with, ends_with_vec,
    find_last, has_match, is_match_at, is_uppercase, last_match, lines, lines_vec, lowercase_vec, slice_vec,
    split_ws, split_ws_vec, starts_with, starts_with_vec, string_of, trim, trim_vec, unicode_lowercase,
    unicode_uppercase, utf8_len, utf8_len_upto, utf8_prefix_len, views,
};

verus! {

/// A preview: the original part, its translation and its counts.
#[derive(Debug, Clone)]
pub struct PreviewContent {
    pub original_text: String,
    pub translated_text: String,
    pub word_count: usize,
    pub character_count: usize,
    pub preview_length: usize,
}

/// How much a preview takes.
#[derive(Debug, Clone)]
pub struct PreviewOptions {
    pub max_paragraphs: usize,
    pub max_characters: usize,
    pub include_title: bool,
}

impl Default for PreviewOptions {
    fn default() -> (r: PreviewOptions)
        ensures
            r.max_paragraphs == 3,
            r.max_characters == 800,
            r.include_title,
    {
        PreviewOptions { max_paragraphs: 3, max_characters: 800, include_title: true }
    }
}

impl PreviewOptions {
    /// The small preview a quick check takes: one paragraph, 200 bytes,
    /// with the title.
    pub fn quick() -> (r: PreviewOptions)
        ensures
            r.max_paragraphs == 1,
            r.max_characters == 200,
            r.include_title,
    {
        PreviewOptions { max_paragraphs: 1, max_characters: 200, include_title: true }
    }
}

/// A line that looks like a title: 6 to 99 bytes, no `.`, not starting with
/// `-` or `*`, with an uppercase letter.
pub open spec fn looks_like_title_spec(t: Seq<char>) -> bool {
    &&& utf8_len(t) < 100
    &&& utf8_len(t) > 5
    &&& !has_match(t, "."@)
    &&& !starts_with(t, "-"@)
    &&& !starts_with(t, "*"@)
    &&& exists|i: int| 0 <= i < t.len() && unicode_uppercase(#[trigger] t[i])
}

/// A line of metadata or navigation.
pub open spec fn is_metadata_spec(t: Seq<char>) -> bool {
    let lower = unicode_lowercase(t);
    has_match(lower, "published"@) || has_match(lower, "updated"@) || has_match(lower, "author"@)
        || has_match(lower, "source:"@) || has_match(lower, "url:"@) || has_match(lower, "time:"@)
        || starts_with(lower, "breadcrumb"@) || starts_with(lower, "navigation"@) || starts_with(lower, "menu"@)
        || (starts_with(t, "["@) && ends_with(t, ")"@))
}

/// The byte offset of the last `pat` in `t`, where there is one.
pub open spec fn last_byte(t: Seq<char>, pat: Seq<char>) -> Option<(int, int)> {
    match last_match(t, pat) {
        Some(p) => Some((p, utf8_len(t.take(p)) as int)),
        None => None,
    }
}

/// `tr` cut back to the last `pat`, with `suffix`, where that lies past
/// byte `half`.
pub open spec fn cut_back(tr: Seq<char>, pat: Seq<char>, half: int, suffix: Seq<char>) -> Option<Seq<char>> {
    match last_byte(tr, pat) {
        Some((p, b)) => if b > half { Some(tr.take(p) + suffix) } else { None },
        None => None,
    }
}

/// A text cut to at most `max` bytes: whole where it fits; else its first
/// `max` bytes, cut back to the last `.` (kept), `,` or space (with `...`)
/// where that lies past half of `max`, or with `...` as they are. `None`
/// where byte `max` is no character boundary.
pub open spec fn truncate_spec(t: Seq<char>, max: int) -> Option<Seq<char>> {
    if utf8_len(t) <= max {
        Some(t)
    } else {
        match char_index_at(t, max) {
            None => None,
            Some(k) => {
                let tr = t.take(k);
                let half = max / 2;
                match cut_back(tr, "."@, half, "."@) {
                    Some(c) => Some(c),
                    None => match cut_back(tr, ","@, half, "..."@) {
                        Some(c) => Some(c),
                        None => match cut_back(tr, " "@, half, "..."@) {
                            Some(c) => Some(c),
                            None => Some(tr + "..."@),
                        },
                    },
                }
            },
        }
    }
}

/// Scanning the lines `ls` from `i` for a preview: `acc` so far, `count`
/// bytes counted, `paras` paragraphs taken, whether a title was taken.
/// `None` where the scan cannot go on (a negative remainder, a cut off a
/// character boundary).
pub open spec fn preview_scan(
    ls: Seq<Seq<char>>,
    i: int,
    acc: Seq<char>,
    count: int,
    paras: nat,
    found_title: bool,
    opts: PreviewOptions,
) -> Option<Seq<char>>
    decreases ls.len() - i,
{
    if i < 0 || i >= ls.len() {
        Some(acc)
    } else {
        let tr = trim(ls[i]);
        let n = utf8_len(tr) as int;
        let max = opts.max_characters as int;
        if tr.len() == 0 {
            preview_scan(ls, i + 1, acc, count, paras, found_title, opts)
        } else if !found_title && opts.include_title && (starts_with(tr, "#"@) || looks_like_title_spec(tr)) {
            if count + n > max {
                Some(acc)
            } else {
                preview_scan(ls, i + 1, acc + tr + "\n\n"@, count + n + 2, paras, true, opts)
            }
        } else if is_metadata_spec(tr) {
            preview_scan(ls, i + 1, acc, count, paras, found_title, opts)
        } else if paras < opts.max_paragraphs {
            if count + n > max {
                let remaining = max - count;
                if remaining < 0 {
                    None
                } else if remaining > 50 {
                    match truncate_spec(tr, remaining) {
                        None => None,
                        Some(tt) => Some(acc + tt + if ends_with(tt, "..."@) { seq![] } else { "..."@ }),
                    }
                } else {
                    Some(acc)
                }
            } else {
                preview_scan(ls, i + 1, acc + tr + "\n\n"@, count + n + 2, paras + 1, found_title, opts)
            }
        } else {
            Some(acc)
        }
    }
}

/// The preview text of `content`: a title (where asked for and found),
/// then paragraphs, skipping blank lines, metadata and navigation, within
/// the paragraph and byte limits, the last paragraph cut at a sentence where
/// more than 50 bytes remain; trimmed.
pub open spec fn preview_text_spec(content: Seq<char>, opts: PreviewOptions) -> Option<Seq<char>> {
    match preview_scan(lines(content), 0, seq![], 0, 0, false, opts) {
        Some(acc) => Some(trim(acc)),
        None => None,
    }
}

/// `looks_like_title_spec`.
pub fn looks_like_title(text: &str) -> (r: bool)
    ensures
        r == looks_like_title_spec(text@),
{
    let t = chars_of(text);
    let n = t.len();
    assert(t@.take(n as int) =~= t@);
    let len_ok = utf8_len_upto(&t, n, 99).is_some() && utf8_len_upto(&t, n, 5).is_none();
    if !len_ok || contains(&t, &chars_of(".")) || starts_with_vec(&t, &chars_of("-")) || starts_with_vec(&t, &chars_of("*")) {
        return false;
    }
    assert(looks_like_title_spec(text@) == exists|j: int| 0 <= j < n && unicode_uppercase(#[trigger] t@[j]));
    let mut i: usize = 0;
    while i < n
        invariant
            i <= n,
            n == t@.len(),
            t@ == text@,
            looks_like_title_spec(text@) == exists|j: int| 0 <= j < n && unicode_uppercase(#[trigger] t@[j]),
            forall|j: int| 0 <= j < i ==> !unicode_uppercase(#[trigger] t@[j]),
        decreases n - i,
    {
        if is_uppercase(t[i]) {
            assert(unicode_uppercase(t@[i as int]));
            return true;
        }
        i += 1;
    }
    false
}

/// `is_metadata_spec`.
pub fn is_metadata_or_navigation(text: &str) -> (r: bool)
    ensures
        r == is_metadata_spec(text@),
{
    let t = chars_of(text);
    let lower = lowercase_vec(&t);
    contains(&lower, &chars_of("published")) || contains(&lower, &chars_of("updated"))
        || contains(&lower, &chars_of("author")) || contains(&lower, &chars_of("source:"))
        || contains(&lower, &chars_of("url:")) || contains(&lower, &chars_of("time:"))
        || starts_with_vec(&lower, &chars_of("breadcrumb")) || starts_with_vec(&lower, &chars_of("navigation"))
        || starts_with_vec(&lower, &chars_of("menu"))
        || (starts_with_vec(&t, &chars_of("[")) && ends_with_vec(&t, &chars_of(")")))
}

/// `last_byte`.
fn last_byte_exec(t: &[char], pat: &str) -> (r: Option<(usize, u128)>)
    ensures
        match r {
            Some((p, b)) => last_byte(t@, pat@) == Some((p as int, b as int)) && p <= t@.len(),
            None => last_byte(t@, pat@) is None,
        },
{
    match find_last(t, &chars_of(pat)) {
        Some(p) => {
            assert(p <= t@.len());
            Some((p, utf8_prefix_len(t, p)))
        },
        None => None,
    }
}

/// `cut_back`.
fn cut_back_exec(tr: &[char], pat: &str, half: u128, suffix: &str) -> (r: Option<Vec<char>>)
    ensures
        match r {
            Some(v) => cut_back(tr@, pat@, half as int, suffix@) == Some(v@),
            None => cut_back(tr@, pat@, half as int, suffix@) is None,
        },
{
    match last_byte_exec(tr, pat) {
        Some((p, b)) => {
            if b > half {
                let mut out = slice_vec(tr, 0, p);
                assert(out@ =~= tr@.take(p as int));
                append_str(&mut out, suffix);
                Some(out)
            } else {
                None
            }
        },
        None => None,
    }
}

/// `truncate_spec`.
pub fn truncate_to_sentence(text: &[char], max_length: usize) -> (r: Option<Vec<char>>)
    ensures
        match r {
            Some(v) => truncate_spec(text@, max_length as int) == Some(v@),
            None => truncate_spec(text@, max_length as int) is None,
        },
{
    let n = text.len();
    assert(text@.take(n as int) =~= text@);
    if utf8_len_upto(text, n, max_length).is_some() {
        let all = slice_vec(text, 0, n);
        assert(all@ =~= text@);
        return Some(all);
    }
    let k = match byte_to_char_index(text, max_length) {
        None => return None,
        Some(k) => k,
    };
    let tr = slice_vec(text, 0, k);
    assert(tr@ =~= text@.take(k as int));
    let half = (max_length / 2) as u128;
    match cut_back_exec(&tr, ".", half, ".") {
        Some(c) => return Some(c),
        None => {},
    }
    match cut_back_exec(&tr, ",", half, "...") {
        Some(c) => return Some(c),
        None => {},
    }
    match cut_back_exec(&tr, " ", half, "...") {
        Some(c) => return Some(c),
        None => {},
    }
    let mut out = slice_vec(&tr, 0, tr.len());
    assert(out@ =~= tr@);
    append_str(&mut out, "...");
    Some(out)
}

/// The preview text of `content` (`preview_text_spec`); `None` where the
/// scan cannot go on (`preview_scan`).
pub fn extract_preview_text(content: &str, options: &PreviewOptions) -> (r: Option<String>)
    ensures
        match r {
            Some(s) => preview_text_spec(content@, *options) == Some(s@),
            None => preview_text_spec(content@, *options) is None,
        },
{
    let ls = lines_vec(&chars_of(content));
    let ghost lv = views(ls@);
    let mut acc: Vec<char> = Vec::new();
    let mut count: u128 = 0;
    let mut paras: usize = 0;
    let mut found_title = false;
    let max = options.max_characters as u128;
    let mut i: usize = 0;
    while i < ls.len()
        invariant_except_break
            preview_scan(lv, 0, seq![], 0, 0, false, *options)
                == preview_scan(lv, i as int, acc@, count as int, paras as nat, found_title, *options),
        invariant
            i <= ls@.len(),
            lv == views(ls@),
            lv == lines(content@),
            max == options.max_characters,
            count <= max + 2,
            paras <= i,
        ensures
            preview_scan(lv, 0, seq![], 0, 0, false, *options) == Some(acc@),
        decreases ls.len() - i,
    {
        assert(lv[i as int] == ls@[i as int]@);
        let tr = trim_vec(&ls[i]);
        let n = utf8_prefix_len(&tr, tr.len());
        assert(tr@.take(tr@.len() as int) =~= tr@);
        proof { crate::text::lemma_utf8_len_bound(tr@); }
        if tr.len() == 0 {
            i += 1;
            continue;
        }
        let ts = string_of(&tr);
        if !found_title && options.include_title && (starts_with_vec(&tr, &chars_of("#")) || looks_like_title(ts.as_str())) {
            if count + n > max {
                break;
            }
            append_slice(&mut acc, &tr);
            append_str(&mut acc, "\n\n");
            count = count + n + 2;
            found_title = true;
            i += 1;
            continue;
        }
        if is_metadata_or_navigation(ts.as_str()) {
            i += 1;
            continue;
        }
        if paras < options.max_paragraphs {
            if count + n > max {
                if count > max {
                    return None;
                }
                let remaining = (max - count) as usize;
                if remaining > 50 {
                    match truncate_to_sentence(&tr, remaining) {
                        None => return None,
                        Some(tt) => {
                            let dots = ends_with_vec(&tt, &chars_of("..."));
                            append_slice(&mut acc, &tt);
                            if !dots {
                                append_str(&mut acc, "...");
                            }
                            proof {
                                if dots { assert(acc@ =~= acc@ + Seq::<char>::empty()); }
                            }
                        },
                    }
                }
                break;
            }
            append_slice(&mut acc, &tr);
            append_str(&mut acc, "\n\n");
            count = count + n + 2;
            paras += 1;
            i += 1;
        } else {
            break;
        }
    }
    Some(string_of(&trim_vec(&acc)))
}

/// The number of whitespace-separated words.
pub fn count_words(text: &str) -> (r: usize)
    ensures
        r == split_ws(text@).len(),
{
    split_ws_vec(&chars_of(text)).len()
}

/// A preview from its text and translation: the words and characters of
/// the text, and the byte limit asked for.
pub fn build_preview(preview_text: String, translated_text: String, options: &PreviewOptions) -> (r: PreviewContent)
    ensures
        r.original_text == preview_text,
        r.translated_text == translated_text,
        r.word_count == split_ws(preview_text@).len(),
        r.character_count == preview_text@.len(),
        r.preview_length == options.max_characters,
{
    let word_count = count_words(preview_text.as_str());
    let character_count = chars_of(preview_text.as_str()).len();
    PreviewContent {
        original_text: preview_text,
        translated_text,
        word_count,
        character_count,
        preview_length: options.max_characters,
    }
}

/// What a quick check reports.
pub fn validation_message(result: &Result<PreviewContent, String>) -> (r: Result<String, String>)
    ensures
        match (result, r) {
            (Ok(p), Ok(m)) => m@ == "验证成功！提取了 "@ + decimal(p.character_count as nat) + " 字符，翻译为 "@
                + decimal(p.translated_text@.len()) + " 字符"@,
            (Err(e), Err(m)) => m@ == "验证失败: "@ + e@,
            _ => false,
        },
{
    match result {
        Ok(p) => {
            let mut out: Vec<char> = Vec::new();
            append_str(&mut out, "验证成功！提取了 ");
            append_slice(&mut out, &decimal_vec(p.character_count as u64));
            append_str(&mut out, " 字符，翻译为 ");
            append_slice(&mut out, &decimal_vec(chars_of(p.translated_text.as_str()).len() as u64));
            append_str(&mut out, " 字符");
            Ok(string_of(&out))
        },
        Err(e) => {
            let mut out: Vec<char> = Vec::new();
            append_str(&mut out, "验证失败: ");
            append_str(&mut out, e.as_str());
            Err(string_of(&out))
        },
    }
}

/// A preview text that can be translated: refused where it is blank.
pub fn usable_preview(text: String) -> (r: Result<String, String>)
    ensures
        match r {
            Ok(t) => t@ == text@ && trim(text@).len() > 0,
            Err(e) => trim(text@).len() == 0 && e@ == "无法提取有效的预览内容"@,
        },
{
    if trim_vec(&chars_of(text.as_str())).len() == 0 {
        Err("无法提取有效的预览内容".to_owned())
    } else {
        Ok(text)
    }
}

} // verus!
