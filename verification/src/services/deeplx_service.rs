use vstd::prelude::*;
use crate::types::api_types::DeepLXResponse;
use crate::text::{
    char_width, char_width_exec, lemma_utf8_len_concat, lemma_utf8_len_prefix_mono, trim, utf8_len,
    lemma_utf8_subrange_le, lemma_trim_utf8_le, char_index_at, lemma_utf8_prefix_strict,
    lemma_char_index_hit, lemma_char_index_miss, lemma_split_pat_utf8_le, lemma_split_on_utf8_le,
    ws_pred, strip_start, strip_end, split_pat, split_on, slice_vec, trim_vec, views, utf8_len_upto,
    join, join_strings, append_slice, chars_of, string_of, string_views, split_pat_vec, split_on_vec,
    contains, has_match, unicode_whitespace, is_match_at,
};

verus! {

// ---------------------------------------------------------------------------
// Where a long section is cut.
//
// Positions in a section are byte offsets into its UTF-8 text (what `str::len`
// and slicing count). The search for a cut point reads the character whose
// *character* index equals the byte offset, as `chars().nth(i)` does; for
// ASCII text the two coincide.
// ---------------------------------------------------------------------------

/// A character that ends a sentence.
pub open spec fn is_sentence_end(c: char) -> bool {
    c == '.' || c == '!' || c == '?' || c == '。' || c == '！' || c == '？'
}

/// A character after which a section may be cut when no sentence ends.
pub open spec fn is_break_space(c: char) -> bool {
    c == ' ' || c == '\n' || c == '\t'
}

/// The cut predicate: sentence ends, or (when `sentence` is false) spaces.
pub open spec fn cut_pred(sentence: bool) -> spec_fn(char) -> bool {
    if sentence {
        |c: char| is_sentence_end(c)
    } else {
        |c: char| is_break_space(c)
    }
}

/// The greatest `i` with `lo <= i < hi` such that `s` has a character at
/// index `i` and it satisfies `p`.
pub open spec fn scan_back(s: Seq<char>, lo: int, hi: int, p: spec_fn(char) -> bool) -> Option<int>
    decreases hi - lo,
{
    if hi <= lo {
        None
    } else if 0 <= hi - 1 < s.len() && p(s[hi - 1]) {
        Some(hi - 1)
    } else {
        scan_back(s, lo, hi - 1, p)
    }
}

/// The byte offset at which the piece of `s` that begins at byte `start`
/// ends, for pieces of at most `max` bytes.
pub open spec fn cut_end(s: Seq<char>, start: int, max: int) -> int {
    let total = utf8_len(s) as int;
    let end = if start + max < total { start + max } else { total };
    if end < total {
        let first = match scan_back(s, start, end, cut_pred(true)) {
            Some(i) => i + 1,
            None => end,
        };
        if first == end {
            match scan_back(s, start, end, cut_pred(false)) {
                Some(i) => i + 1,
                None => end,
            }
        } else {
            first
        }
    } else {
        end
    }
}

/// The trimmed, non-empty pieces into which a section of more than `max`
/// bytes is cut, from byte `start` on; `None` where the cutting would slice
/// through a character or never finish (`max == 0`).
pub open spec fn long_pieces(s: Seq<char>, start: int, max: int) -> Option<Seq<Seq<char>>>
    decreases utf8_len(s) - start,
{
    if start < 0 || start >= utf8_len(s) {
        Some(seq![])
    } else if max <= 0 {
        None
    } else {
        let e = cut_end(s, start, max);
        proof {
            lemma_cut_end_advances(s, start, max);
        }
        match (char_index_at(s, start), char_index_at(s, e)) {
            (Some(a), Some(b)) => match long_pieces(s, e, max) {
                Some(rest) => {
                    let piece = trim(s.subrange(a, b));
                    Some(if piece.len() > 0 { seq![piece] + rest } else { rest })
                },
                None => None,
            },
            _ => None,
        }
    }
}

pub proof fn lemma_scan_back_range(s: Seq<char>, lo: int, hi: int, p: spec_fn(char) -> bool)
    ensures
        match scan_back(s, lo, hi, p) {
            Some(i) => lo <= i < hi && 0 <= i < s.len() && p(s[i]),
            None => true,
        },
    decreases hi - lo,
{
    if hi > lo {
        lemma_scan_back_range(s, lo, hi - 1, p);
    }
}

pub proof fn lemma_cut_end_advances(s: Seq<char>, start: int, max: int)
    requires
        0 <= start < utf8_len(s),
        max > 0,
    ensures
        start < cut_end(s, start, max) <= utf8_len(s),
{
    let total = utf8_len(s) as int;
    let end = if start + max < total { start + max } else { total };
    lemma_scan_back_range(s, start, end, cut_pred(true));
    lemma_scan_back_range(s, start, end, cut_pred(false));
}

/// Where a long section is cut, every piece is non-empty and holds at most
/// `max` bytes.
pub proof fn law_long_pieces_within_limit(s: Seq<char>, start: int, max: int)
    ensures
        long_pieces(s, start, max) matches Some(ps) ==> forall|i: int| 0 <= i < ps.len() ==> {
            &&& (#[trigger] ps[i]).len() > 0
            &&& utf8_len(ps[i]) <= max
        },
    decreases utf8_len(s) - start,
{
    if long_pieces(s, start, max) is Some {
        lemma_long_pieces_within(s, start, max);
    }
    if start < 0 || start >= utf8_len(s) || max <= 0 {
    } else {
        let e = cut_end(s, start, max);
        lemma_cut_end_advances(s, start, max);
        law_long_pieces_within_limit(s, e, max);
        match (char_index_at(s, start), char_index_at(s, e)) {
            (Some(a), Some(b)) => {
                match long_pieces(s, e, max) {
                    Some(rest) => {
                        let piece = trim(s.subrange(a, b));
                        let ps = long_pieces(s, start, max).unwrap();
                        assert forall|i: int| 0 <= i < ps.len() implies (#[trigger] ps[i]).len() > 0 by {
                            if piece.len() > 0 {
                                if i > 0 {
                                    assert(ps[i] == rest[i - 1]);
                                }
                            } else {
                                assert(ps[i] == rest[i]);
                            }
                        }
                    },
                    None => {},
                }
            },
            _ => {},
        }
    }
}

// ---------------------------------------------------------------------------
// Packing sections into chunks.
// ---------------------------------------------------------------------------

/// One section taken into the packing state `(chunks, current)`: its trimmed
/// text joins the current chunk with `sep` while that stays within `max`
/// bytes; otherwise the current chunk is closed, and a section that alone
/// exceeds `max` is cut by `long_pieces`.
pub open spec fn pack_step(
    st: (Seq<Seq<char>>, Seq<char>),
    section: Seq<char>,
    sep: Seq<char>,
    max: int,
) -> Option<(Seq<Seq<char>>, Seq<char>)> {
    let (chunks, cur) = st;
    let t = trim(section);
    if t.len() == 0 {
        Some(st)
    } else {
        let test = if cur.len() == 0 { t } else { cur + sep + t };
        if utf8_len(test) <= max {
            Some((chunks, test))
        } else {
            let closed = if cur.len() > 0 { chunks.push(cur) } else { chunks };
            if utf8_len(t) > max {
                match long_pieces(t, 0, max) {
                    Some(sub) => Some((closed + sub, Seq::<char>::empty())),
                    None => None,
                }
            } else {
                Some((closed, t))
            }
        }
    }
}

/// The packing state after all of `parts`.
pub open spec fn pack_state(parts: Seq<Seq<char>>, sep: Seq<char>, max: int) -> Option<(Seq<Seq<char>>, Seq<char>)>
    decreases parts.len(),
{
    if parts.len() == 0 {
        Some((Seq::<Seq<char>>::empty(), Seq::<char>::empty()))
    } else {
        match pack_state(parts.drop_last(), sep, max) {
            Some(st) => pack_step(st, parts.last(), sep, max),
            None => None,
        }
    }
}

/// The chunks made of `parts`: the closed chunks and a non-empty last one.
pub open spec fn pack(parts: Seq<Seq<char>>, sep: Seq<char>, max: int) -> Option<Seq<Seq<char>>> {
    match pack_state(parts, sep, max) {
        Some((chunks, cur)) => Some(if cur.len() > 0 { chunks.push(cur) } else { chunks }),
        None => None,
    }
}

/// The blank-line separator.
pub open spec fn blank_line() -> Seq<char> {
    seq!['\n', '\n']
}

/// The chunks a text is translated in, for chunks of at most `max` bytes:
/// the whole text when it fits; else its blank-line sections packed, or
/// failing those its lines packed, or failing those the text cut at
/// sentence ends; the whole text where that leaves nothing. `None` where
/// slicing by bytes would cut a character or never end.
pub open spec fn chunks_spec(s: Seq<char>, max: int) -> Option<Seq<Seq<char>>> {
    if utf8_len(s) <= max {
        Some(seq![s])
    } else {
        let sections = split_pat(s, blank_line());
        let lines = split_on(s, '\n');
        let r = if sections.len() > 1 {
            pack(sections, blank_line(), max)
        } else if lines.len() > 1 {
            pack(lines, seq!['\n'], max)
        } else {
            long_pieces(s, 0, max)
        };
        match r {
            Some(c) => Some(if c.len() == 0 { seq![s] } else { c }),
            None => None,
        }
    }
}

// ---------------------------------------------------------------------------
// Cutting long sections.
// ---------------------------------------------------------------------------

/// `scan_back` with the cut predicate chosen by `sentence`.
fn scan_back_exec(s: &[char], lo: usize, hi: usize, sentence: bool) -> (r: Option<usize>)
    ensures
        match r {
            Some(i) => scan_back(s@, lo as int, hi as int, cut_pred(sentence)) == Some(i as int),
            None => scan_back(s@, lo as int, hi as int, cut_pred(sentence)) is None,
        },
{
    let mut j = hi;
    while j > lo
        invariant
            lo <= j <= hi || j == hi,
            scan_back(s@, lo as int, hi as int, cut_pred(sentence)) == scan_back(s@, lo as int, j as int, cut_pred(sentence)),
        decreases j,
    {
        let i = j - 1;
        if i < s.len() {
            let c = s[i];
            let hit = if sentence {
                c == '.' || c == '!' || c == '?' || c == '。' || c == '！' || c == '？'
            } else {
                c == ' ' || c == '\n' || c == '\t'
            };
            if hit {
                return Some(i);
            }
        }
        j = i;
    }
    None
}

/// The state of a cut: the pieces so far, then those from the current offset.
pub open spec fn prepend(acc: Seq<Seq<char>>, rest: Option<Seq<Seq<char>>>) -> Option<Seq<Seq<char>>> {
    match rest {
        Some(r) => Some(acc + r),
        None => None,
    }
}

/// `long_pieces` from the start of `s`.
fn split_long_chars(s: &[char], max: usize) -> (r: Option<Vec<Vec<char>>>)
    requires
        utf8_len(s@) <= usize::MAX,
    ensures
        match r {
            Some(v) => long_pieces(s@, 0, max as int) == Some(views(v@)),
            None => long_pieces(s@, 0, max as int) is None,
        },
{
    let n = s.len();
    assert(s@.take(n as int) =~= s@);
    let total = match utf8_len_upto(s, n, usize::MAX) {
        Some(t) => t,
        None => {
            return None;
        },
    };
    let mut out: Vec<Vec<char>> = Vec::new();
    let mut start: usize = 0;
    let mut a: usize = 0;
    assert(s@.take(0) =~= Seq::<char>::empty());
    assert(views(out@) =~= Seq::<Seq<char>>::empty());
    assert(Seq::<Seq<char>>::empty() + Seq::<Seq<char>>::empty() =~= Seq::<Seq<char>>::empty());
    while start < total
        invariant
            n == s@.len(),
            total == utf8_len(s@),
            start <= total,
            a <= n,
            utf8_len(s@.take(a as int)) == start,
            long_pieces(s@, 0, max as int) == prepend(views(out@), long_pieces(s@, start as int, max as int)),
        decreases total - start,
    {
        if max == 0 {
            return None;
        }
        proof {
            lemma_cut_end_advances(s@, start as int, max as int);
            lemma_char_index_hit(s@, start as int, a as int);
        }
        let end = if max < total - start { start + max } else { total };
        let mut e = end;
        if end < total {
            let first = match scan_back_exec(s, start, end, true) {
                Some(i) => {
                    proof { lemma_scan_back_range(s@, start as int, end as int, cut_pred(true)); }
                    i + 1
                },
                None => end,
            };
            if first == end {
                match scan_back_exec(s, start, end, false) {
                    Some(i) => {
                        proof { lemma_scan_back_range(s@, start as int, end as int, cut_pred(false)); }
                        e = i + 1;
                    },
                    None => {},
                }
            } else {
                e = first;
            }
        }
        assert(e == cut_end(s@, start as int, max as int));
        // Walk to the character at byte `e`.
        let mut k = a;
        let mut pos = start;
        while pos < e && k < n
            invariant
                n == s@.len(),
                total == utf8_len(s@),
                a <= k <= n,
                start <= e <= total,
                utf8_len(s@.take(a as int)) == start,
                utf8_len(s@.take(k as int)) == pos,
                k > a ==> utf8_len(s@.take(k - 1)) < e,
            decreases n - k,
        {
            proof {
                assert(s@.take(k + 1).drop_last() =~= s@.take(k as int));
                assert(s@.take(k + 1).last() == s@[k as int]);
                lemma_utf8_len_prefix_mono(s@, k + 1, n as int);
                assert(s@.take(n as int) =~= s@);
            }
            let w = char_width_exec(s[k]);
            pos = pos + w;
            k = k + 1;
        }
        if pos != e {
            proof {
                if k == n {
                    assert(s@.take(n as int) =~= s@);
                }
                lemma_char_index_miss(s@, e as int, k as int);
            }
            return None;
        }
        proof {
            lemma_char_index_hit(s@, e as int, k as int);
            if k < a {
            } else if k == a {
            }
        }
        assert(a <= k);
        let slice = slice_vec(s, a, k);
        let piece = trim_vec(&slice);
        let ghost acc = views(out@);
        let ghost rest = long_pieces(s@, e as int, max as int);
        if piece.len() > 0 {
            out.push(piece);
            assert(views(out@) =~= acc.push(piece@));
            proof {
                match rest {
                    Some(r) => { assert(acc + (seq![piece@] + r) =~= views(out@) + r); },
                    None => {},
                }
            }
        } else {
            proof {
                match rest {
                    Some(r) => { assert(piece@ =~= Seq::<char>::empty()); },
                    None => {},
                }
            }
        }
        start = e;
        a = k;
    }
    assert(views(out@) + Seq::<Seq<char>>::empty() =~= views(out@));
    Some(out)
}

// ---------------------------------------------------------------------------
// Packing and the whole text.
// ---------------------------------------------------------------------------

/// Once the packing fails it stays failed.
proof fn lemma_pack_none_stays(parts: Seq<Seq<char>>, sep: Seq<char>, max: int, i: int)
    requires
        0 <= i <= parts.len(),
        pack_state(parts.take(i), sep, max) is None,
    ensures
        pack_state(parts, sep, max) is None,
    decreases parts.len(),
{
    if i < parts.len() {
        assert(parts.drop_last().take(i) =~= parts.take(i));
        lemma_pack_none_stays(parts.drop_last(), sep, max, i);
    } else {
        assert(parts.take(i) =~= parts);
    }
}

/// `pack` over character vectors.
fn pack_sections(parts: &Vec<Vec<char>>, sep: &[char], max: usize) -> (r: Option<Vec<Vec<char>>>)
    requires
        forall|k: int| 0 <= k < parts@.len() ==> utf8_len(#[trigger] parts@[k]@) <= usize::MAX,
    ensures
        match r {
            Some(v) => pack(views(parts@), sep@, max as int) == Some(views(v@)),
            None => pack(views(parts@), sep@, max as int) is None,
        },
{
    let ghost all = views(parts@);
    let mut chunks: Vec<Vec<char>> = Vec::new();
    let mut cur: Vec<char> = Vec::new();
    let mut i: usize = 0;
    assert(all.take(0) =~= Seq::<Seq<char>>::empty());
    assert(views(chunks@) =~= Seq::<Seq<char>>::empty());
    while i < parts.len()
        invariant
            all == views(parts@),
            i <= parts@.len(),
            forall|k: int| 0 <= k < parts@.len() ==> utf8_len(#[trigger] parts@[k]@) <= usize::MAX,
            pack_state(all.take(i as int), sep@, max as int) == Some((views(chunks@), cur@)),
        decreases parts.len() - i,
    {
        let ghost before = (views(chunks@), cur@);
        assert(all.take(i + 1).drop_last() =~= all.take(i as int));
        assert(all.take(i + 1).last() == parts@[i as int]@);
        let section = &parts[i];
        let t = trim_vec(section);
        if t.len() > 0 {
            let mut test: Vec<char> = Vec::new();
            if cur.len() > 0 {
                append_slice(&mut test, &cur);
                append_slice(&mut test, sep);
            }
            append_slice(&mut test, &t);
            assert(test@ == (if cur@.len() == 0 { t@ } else { cur@ + sep@ + t@ }));
            let tn = test.len();
            assert(test@.take(tn as int) =~= test@);
            match utf8_len_upto(&test, tn, max) {
                Some(_) => {
                    cur = test;
                },
                None => {
                    if cur.len() > 0 {
                        let ghost c0 = views(chunks@);
                        chunks.push(cur);
                        assert(views(chunks@) =~= c0.push(before.1));
                    }
                    let m = t.len();
                    assert(t@.take(m as int) =~= t@);
                    match utf8_len_upto(&t, m, max) {
                        Some(_) => {
                            cur = t;
                        },
                        None => {
                            proof {
                                lemma_trim_utf8_le(parts@[i as int]@);
                            }
                            match split_long_chars(&t, max) {
                                Some(sub) => {
                                    let ghost c0 = views(chunks@);
                                    let mut sub = sub;
                                    let ghost sv = views(sub@);
                                    chunks.append(&mut sub);
                                    assert(views(chunks@) =~= c0 + sv);
                                    cur = Vec::new();
                                    assert(cur@ =~= Seq::<char>::empty());
                                },
                                None => {
                                    proof {
                                        lemma_pack_none_stays(all, sep@, max as int, i + 1);
                                    }
                                    return None;
                                },
                            }
                        },
                    }
                },
            }
        }
        i += 1;
    }
    assert(all.take(parts@.len() as int) =~= all);
    if cur.len() > 0 {
        let ghost c0 = views(chunks@);
        let ghost cv = cur@;
        chunks.push(cur);
        assert(views(chunks@) =~= c0.push(cv));
    }
    Some(chunks)
}

/// The strings made of character vectors.
fn strings_of(v: &Vec<Vec<char>>) -> (r: Vec<String>)
    ensures
        string_views(r@) == views(v@),
{
    let mut r: Vec<String> = Vec::new();
    let mut i: usize = 0;
    while i < v.len()
        invariant
            i <= v@.len(),
            string_views(r@) == views(v@).take(i as int),
        decreases v.len() - i,
    {
        let ghost r0 = string_views(r@);
        let s = string_of(&v[i]);
        r.push(s);
        assert(string_views(r@) =~= r0.push(v@[i as int]@));
        assert(views(v@).take(i + 1) =~= views(v@).take(i as int).push(v@[i as int]@));
        i += 1;
    }
    assert(views(v@).take(v@.len() as int) =~= views(v@));
    r
}

/// Cuts a section of more than `max_length` bytes into trimmed, non-empty
/// pieces, preferring cuts after sentence ends, then after spaces; the
/// pieces are `long_pieces`, or `None` where slicing by bytes would
/// split a character or never end.
pub fn try_split_long_section(text: &str, max_length: usize) -> (r: Option<Vec<String>>)
    requires
        utf8_len(text@) <= usize::MAX,
    ensures
        match r {
            Some(v) => long_pieces(text@, 0, max_length as int) == Some(string_views(v@)),
            None => long_pieces(text@, 0, max_length as int) is None,
        },
{
    let s = chars_of(text);
    match split_long_chars(&s, max_length) {
        Some(v) => Some(strings_of(&v)),
        None => None,
    }
}

/// `try_split_long_section` where it succeeds.
pub fn split_long_section(text: &str, max_length: usize) -> (r: Vec<String>)
    requires
        utf8_len(text@) <= usize::MAX,
        long_pieces(text@, 0, max_length as int) is Some,
    ensures
        long_pieces(text@, 0, max_length as int) == Some(string_views(r@)),
{
    match try_split_long_section(text, max_length) {
        Some(v) => v,
        None => Vec::new(),
    }
}

/// The chunks `text` is translated in (`chunks_spec`): `None` exactly where
/// cutting a long section would slice through a character or never end.
/// The paragraph limit is accepted and not used.
pub fn try_split_text_into_chunks(text: &str, max_length: usize, max_paragraphs: usize) -> (r: Option<Vec<String>>)
    requires
        utf8_len(text@) <= usize::MAX,
    ensures
        match r {
            Some(v) => chunks_spec(text@, max_length as int) == Some(string_views(v@)),
            None => chunks_spec(text@, max_length as int) is None,
        },
{
    let s = chars_of(text);
    let n = s.len();
    assert(s@.take(n as int) =~= s@);
    if utf8_len_upto(&s, n, max_length).is_some() {
        let mut v: Vec<String> = Vec::new();
        v.push(string_of(&s));
        assert(string_views(v@) =~= seq![text@]);
        return Some(v);
    }
    let blank = vec!['\n', '\n'];
    assert(blank@ =~= blank_line());
    let sections = split_pat_vec(&s, &blank);
    let r = if sections.len() > 1 {
        proof { lemma_split_pat_utf8_le(s@, blank_line()); }
        assert forall|k: int| 0 <= k < sections@.len() implies utf8_len(#[trigger] sections@[k]@) <= usize::MAX by {
            assert(views(sections@)[k] == sections@[k]@);
        }
        pack_sections(&sections, &blank, max_length)
    } else {
        let lines = split_on_vec(&s, '\n');
        if lines.len() > 1 {
            let nl = vec!['\n'];
            assert(nl@ =~= seq!['\n']);
            proof { lemma_split_on_utf8_le(s@, '\n'); }
            assert forall|k: int| 0 <= k < lines@.len() implies utf8_len(#[trigger] lines@[k]@) <= usize::MAX by {
                assert(views(lines@)[k] == lines@[k]@);
            }
            pack_sections(&lines, &nl, max_length)
        } else {
            split_long_chars(&s, max_length)
        }
    };
    match r {
        Some(c) => {
            if c.len() == 0 {
                let mut v: Vec<String> = Vec::new();
                v.push(string_of(&s));
                assert(string_views(v@) =~= seq![text@]);
                Some(v)
            } else {
                Some(strings_of(&c))
            }
        },
        None => None,
    }
}

/// `try_split_text_into_chunks` where it succeeds.
pub fn split_text_into_chunks(text: &str, max_length: usize, max_paragraphs: usize) -> (r: Vec<String>)
    requires
        utf8_len(text@) <= usize::MAX,
        chunks_spec(text@, max_length as int) is Some,
    ensures
        chunks_spec(text@, max_length as int) == Some(string_views(r@)),
{
    match try_split_text_into_chunks(text, max_length, max_paragraphs) {
        Some(v) => v,
        None => Vec::new(),
    }
}

/// How a text is sent to be translated.
#[derive(Debug, Clone)]
pub enum TranslationPlan {
    /// In one request.
    Whole,
    /// In one request per chunk, in order.
    Chunks(Vec<String>),
}

/// How `text` is sent, with requests of at most `max_length` bytes: whole
/// where it fits, else in the chunks of `chunks_spec`; `None` where those
/// cannot be made.
pub fn plan_translation(text: &str, max_length: usize, max_paragraphs: usize) -> (r: Option<TranslationPlan>)
    requires
        utf8_len(text@) <= usize::MAX,
    ensures
        utf8_len(text@) <= max_length ==> r matches Some(TranslationPlan::Whole),
        utf8_len(text@) > max_length ==> match r {
            Some(TranslationPlan::Chunks(v)) => chunks_spec(text@, max_length as int) == Some(string_views(v@)),
            Some(TranslationPlan::Whole) => false,
            None => chunks_spec(text@, max_length as int) is None,
        },
{
    let s = chars_of(text);
    let n = s.len();
    assert(s@.take(n as int) =~= s@);
    if utf8_len_upto(&s, n, max_length).is_some() {
        return Some(TranslationPlan::Whole);
    }
    match try_split_text_into_chunks(text, max_length, max_paragraphs) {
        Some(v) => Some(TranslationPlan::Chunks(v)),
        None => None,
    }
}

/// The `Accept` header of a translation request: `dptrans` endpoints also
/// answer in plain text.
pub open spec fn accept_for(api_url: Seq<char>) -> Seq<char> {
    if has_match(api_url, "dptrans"@) {
        "application/json, text/plain, */*"@
    } else {
        "application/json"@
    }
}

/// The `Accept` header for the endpoint at `api_url` (`accept_for`).
pub fn accept_header(api_url: &str) -> (r: &'static str)
    ensures
        r@ == accept_for(api_url@),
{
    if contains(&chars_of(api_url), &chars_of("dptrans")) {
        "application/json, text/plain, */*"
    } else {
        "application/json"
    }
}

/// The translations of the chunks put back together, a blank line between
/// neighbours.
pub fn join_translations(parts: &Vec<String>) -> (r: String)
    ensures
        r@ == join(string_views(parts@), blank_line()),
{
    let sep = "\n\n";
    proof {
        reveal_strlit("\n\n");
    }
    assert(sep@ =~= blank_line());
    join_strings(parts, sep)
}

// ---------------------------------------------------------------------------
// The size limit.
// ---------------------------------------------------------------------------

/// The bytes of `s[a..b]` are those of the first `b` characters less those
/// of the first `a`.
proof fn lemma_utf8_between(s: Seq<char>, a: int, b: int)
    requires
        0 <= a <= b <= s.len(),
    ensures
        utf8_len(s.subrange(a, b)) == utf8_len(s.take(b)) - utf8_len(s.take(a)),
{
    assert(s.take(b) =~= s.take(a) + s.subrange(a, b));
    lemma_utf8_len_concat(s.take(a), s.subrange(a, b));
}

/// Every piece cut from a long section has at most `max` bytes.
proof fn lemma_long_pieces_within(s: Seq<char>, start: int, max: int)
    requires
        long_pieces(s, start, max) is Some,
    ensures
        forall|k: int| 0 <= k < long_pieces(s, start, max).unwrap().len()
            ==> utf8_len(#[trigger] long_pieces(s, start, max).unwrap()[k]) <= max,
    decreases utf8_len(s) - start,
{
    if start < 0 || start >= utf8_len(s) {
    } else {
        let e = cut_end(s, start, max);
        lemma_cut_end_advances(s, start, max);
        let total = utf8_len(s) as int;
        let end = if start + max < total { start + max } else { total };
        lemma_scan_back_range(s, start, end, cut_pred(true));
        lemma_scan_back_range(s, start, end, cut_pred(false));
        assert(e <= start + max);
        let a = char_index_at(s, start).unwrap();
        let b = char_index_at(s, e).unwrap();
        assert(0 <= a <= s.len() && utf8_len(s.take(a)) == start);
        assert(0 <= b <= s.len() && utf8_len(s.take(b)) == e);
        if b < a {
            lemma_utf8_prefix_strict(s, b, a);
        }
        lemma_utf8_between(s, a, b);
        lemma_trim_utf8_le(s.subrange(a, b));
        lemma_long_pieces_within(s, e, max);
        let rest = long_pieces(s, e, max).unwrap();
        let piece = trim(s.subrange(a, b));
        let all = long_pieces(s, start, max).unwrap();
        assert forall|k: int| 0 <= k < all.len() implies utf8_len(#[trigger] all[k]) <= max by {
            if piece.len() > 0 {
                assert(all == seq![piece] + rest);
                if k > 0 {
                    assert(all[k] == rest[k - 1]);
                }
            } else {
                assert(all == rest);
            }
        }
    }
}

/// While sections are packed, every closed chunk and the current one stay
/// within `max` bytes.
proof fn lemma_pack_state_within(parts: Seq<Seq<char>>, sep: Seq<char>, max: int)
    requires
        pack_state(parts, sep, max) is Some,
    ensures
        utf8_len(pack_state(parts, sep, max).unwrap().1) <= max || pack_state(parts, sep, max).unwrap().1.len() == 0,
        forall|k: int| 0 <= k < pack_state(parts, sep, max).unwrap().0.len()
            ==> utf8_len(#[trigger] pack_state(parts, sep, max).unwrap().0[k]) <= max,
    decreases parts.len(),
{
    if parts.len() > 0 {
        let prev = parts.drop_last();
        lemma_pack_state_within(prev, sep, max);
        let (chunks, cur) = pack_state(prev, sep, max).unwrap();
        let t = trim(parts.last());
        let (nc, ncur) = pack_state(parts, sep, max).unwrap();
        if t.len() > 0 {
            let test = if cur.len() == 0 { t } else { cur + sep + t };
            if utf8_len(test) > max {
                let closed = if cur.len() > 0 { chunks.push(cur) } else { chunks };
                assert forall|k: int| 0 <= k < closed.len() implies utf8_len(#[trigger] closed[k]) <= max by {
                    if k < chunks.len() {
                        assert(closed[k] == chunks[k]);
                    }
                }
                if utf8_len(t) > max {
                    lemma_long_pieces_within(t, 0, max);
                    let sub = long_pieces(t, 0, max).unwrap();
                    assert(nc == closed + sub);
                    assert forall|k: int| 0 <= k < nc.len() implies utf8_len(#[trigger] nc[k]) <= max by {
                        if k < closed.len() {
                            assert(nc[k] == closed[k]);
                        } else {
                            assert(nc[k] == sub[k - closed.len()]);
                        }
                    }
                }
            }
        }
    }
}

/// Every chunk has at most `max` bytes, save the whole text itself where
/// it is returned as the one chunk (it fits, or it holds nothing but
/// whitespace between its separators).
pub proof fn lemma_chunks_within_limit(s: Seq<char>, max: int)
    requires
        chunks_spec(s, max) is Some,
    ensures
        forall|k: int| 0 <= k < chunks_spec(s, max).unwrap().len() ==> {
            let c = #[trigger] chunks_spec(s, max).unwrap()[k];
            utf8_len(c) <= max || c == s
        },
{
    if utf8_len(s) > max {
        let sections = split_pat(s, blank_line());
        let lines = split_on(s, '\n');
        let (parts, sep) = if sections.len() > 1 { (sections, blank_line()) } else { (lines, seq!['\n']) };
        if sections.len() > 1 || lines.len() > 1 {
            lemma_pack_state_within(parts, sep, max);
            let (chunks, cur) = pack_state(parts, sep, max).unwrap();
            let c = pack(parts, sep, max).unwrap();
            assert forall|k: int| 0 <= k < c.len() implies utf8_len(#[trigger] c[k]) <= max by {
                if cur.len() > 0 && k == chunks.len() {
                    assert(c[k] == cur);
                } else {
                    assert(c[k] == chunks[k]);
                }
            }
        } else {
            lemma_long_pieces_within(s, 0, max);
        }
    }
}

// ---------------------------------------------------------------------------
// Reading the service's reply.
// ---------------------------------------------------------------------------

/// What `serde_json::from_str::<serde_json::Value>` makes of `text`, read at
/// the member `key`: `None` where the text is not JSON; else whether the
/// value has that member (`Value::get`, which finds members of objects
/// only) and the member's text where it is a string (`Value::as_str`).
pub uninterp spec fn json_member(text: Seq<char>, key: Seq<char>) -> Option<(bool, Option<Seq<char>>)>;

/// Parses `text` with `serde_json::from_str::<serde_json::Value>` and reads
/// the member `key` with `Value::get` and `Value::as_str`; the outcome is
/// named `json_member`.
#[verifier::external_body]
fn read_json_member(text: &str, key: &str) -> (r: Option<(bool, Option<String>)>)
    ensures
        match r {
            Some((present, value)) => json_member(text@, key@) == Some((present, crate::urls::opt_view(value))),
            None => json_member(text@, key@) is None,
        },
{
    match serde_json::from_str::<serde_json::Value>(text) {
        Ok(v) => match v.get(key) {
            Some(m) => Some((true, m.as_str().map(|x| x.to_string()))),
            None => Some((false, None)),
        },
        Err(_) => None,
    }
}

/// Whether the JSON `text` has the member `key`.
pub open spec fn member_present(text: Seq<char>, key: Seq<char>) -> bool {
    json_member(text, key) matches Some(m) && m.0
}

/// The text of the member `key` of the JSON `text`, where it is a string.
pub open spec fn member_text(text: Seq<char>, key: Seq<char>) -> Option<Seq<char>> {
    match json_member(text, key) {
        Some(m) => m.1,
        None => None,
    }
}

/// The translation in a JSON reply of another form: the first member
/// present among `translated_text`, `result`, `translation` and `data`,
/// where it is a string.
pub open spec fn json_reply_translation(text: Seq<char>) -> Result<Seq<char>, Seq<char>> {
    if json_member(text, "translated_text"@) is None {
        Err("无法解析JSON响应: "@ + text)
    } else {
        let pick = if member_present(text, "translated_text"@) {
            member_text(text, "translated_text"@)
        } else if member_present(text, "result"@) {
            member_text(text, "result"@)
        } else if member_present(text, "translation"@) {
            member_text(text, "translation"@)
        } else if member_present(text, "data"@) {
            member_text(text, "data"@)
        } else {
            None
        };
        match pick {
            Some(t) => Ok(t),
            None => Err("无法从JSON响应中提取翻译结果: "@ + text),
        }
    }
}

/// The outcome of one request to DeepLX.
///
/// `status_ok` says whether the HTTP status was a success and `status` is
/// its text; `body` is the reply's text, or the error met reading it;
/// `standard` is that text read as a standard DeepLX reply, where it is one.
/// A standard reply with code 200 gives its translation, refused when
/// empty; another code is refused. Otherwise blank text is refused, text
/// that starts with `{` is read as JSON of another form, and other text is
/// the translation itself.
pub open spec fn deeplx_outcome(
    status_ok: bool,
    status: Seq<char>,
    body: Result<Seq<char>, Seq<char>>,
    standard: Option<(i32, Seq<char>)>,
) -> Result<Seq<char>, Seq<char>> {
    if !status_ok {
        let text = match body {
            Ok(t) => t,
            Err(_) => "无法读取错误信息"@,
        };
        Err("DeepLX API请求失败: "@ + status + " - "@ + text + "，请检查API地址是否正确"@)
    } else {
        match body {
            Err(e) => Err("读取响应文本失败: "@ + e),
            Ok(t) => match standard {
                Some((code, data)) => if code == 200 {
                    if data.len() == 0 {
                        Err("DeepLX返回了空的翻译结果"@)
                    } else {
                        Ok(data)
                    }
                } else {
                    Err("DeepLX翻译失败，返回代码: "@ + crate::num::signed_decimal(code as int) + "，可能是语言不支持或文本格式问题"@)
                },
                None => if trim(t).len() == 0 {
                    Err("API返回了空的翻译结果"@)
                } else if t.len() > 0 && t[0] == '{' {
                    json_reply_translation(t)
                } else {
                    Ok(t)
                },
            },
        }
    }
}

/// The views of a text result.
pub open spec fn result_view(r: Result<String, String>) -> Result<Seq<char>, Seq<char>> {
    match r {
        Ok(s) => Ok(s@),
        Err(e) => Err(e@),
    }
}

fn concat2(a: &str, b: &str) -> (r: String)
    ensures
        r@ == a@ + b@,
{
    let mut s = a.to_owned();
    crate::text::push_str(&mut s, b);
    s
}

fn json_translation(text: &str) -> (r: Result<String, String>)
    ensures
        result_view(r) == json_reply_translation(text@),
{
    let first = read_json_member(text, "translated_text");
    match first {
        None => Err(concat2("无法解析JSON响应: ", text)),
        Some((p1, v1)) => {
            let pick: Option<String> = if p1 {
                v1
            } else {
                match read_json_member(text, "result") {
                    Some((true, v)) => v,
                    _ => match read_json_member(text, "translation") {
                        Some((true, v)) => v,
                        _ => match read_json_member(text, "data") {
                            Some((true, v)) => v,
                            _ => None,
                        },
                    },
                }
            };
            match pick {
                Some(t) => Ok(t),
                None => Err(concat2("无法从JSON响应中提取翻译结果: ", text)),
            }
        },
    }
}

/// The view of an optional standard reply: its code and translation.
pub open spec fn standard_view(r: Option<DeepLXResponse>) -> Option<(i32, Seq<char>)> {
    match r {
        Some(x) => Some((x.code, x.data@)),
        None => None,
    }
}

/// The outcome of one request to DeepLX, as `deeplx_outcome` states it.
pub fn deeplx_reply(status_ok: bool, status: &str, body: Result<String, String>, standard: Option<DeepLXResponse>) -> (r: Result<String, String>)
    ensures
        result_view(r) == deeplx_outcome(status_ok, status@, result_view(body), standard_view(standard)),
{
    if !status_ok {
        let mut m = concat2("DeepLX API请求失败: ", status);
        crate::text::push_str(&mut m, " - ");
        match &body {
            Ok(t) => crate::text::push_str(&mut m, t.as_str()),
            Err(_) => crate::text::push_str(&mut m, "无法读取错误信息"),
        }
        crate::text::push_str(&mut m, "，请检查API地址是否正确");
        return Err(m);
    }
    match body {
        Err(e) => Err(concat2("读取响应文本失败: ", e.as_str())),
        Ok(t) => match standard {
            Some(reply) => {
                if reply.code == 200 {
                    if reply.data.as_str().is_empty() {
                        Err("DeepLX返回了空的翻译结果".to_owned())
                    } else {
                        Ok(reply.data)
                    }
                } else {
                    let mut m = "DeepLX翻译失败，返回代码: ".to_owned();
                    crate::text::push_str(&mut m, string_of(&crate::num::signed_decimal_vec(reply.code as i64)).as_str());
                    crate::text::push_str(&mut m, "，可能是语言不支持或文本格式问题");
                    Err(m)
                }
            },
            None => {
                let c = chars_of(t.as_str());
                if trim_vec(&c).len() == 0 {
                    Err("API返回了空的翻译结果".to_owned())
                } else if c.len() > 0 && c[0] == '{' {
                    json_translation(t.as_str())
                } else {
                    Ok(t)
                }
            },
        },
    }
}

/// A text whose first character is not whitespace keeps a character when
/// trimmed.
proof fn lemma_strip_end_keeps_first(s: Seq<char>, p: spec_fn(char) -> bool)
    requires
        s.len() > 0,
        !p(s[0]),
    ensures
        strip_end(s, p).len() > 0,
    decreases s.len(),
{
    if p(s.last()) {
        assert(s.len() > 1);
        assert(s.drop_last()[0] == s[0]);
        lemma_strip_end_keeps_first(s.drop_last(), p);
    }
}

/// A reply that is a JSON object (its text starts with `{`, outside the
/// standard form) with no `translated_text`, `result` or `translation`
/// member but a `data` member holding a string gives that string.
pub proof fn law_reply_data_member(status: Seq<char>, t: Seq<char>, d: Seq<char>)
    requires
        t.len() > 0,
        t[0] == '{',
        json_member(t, "translated_text"@) matches Some(m) && !m.0,
        json_member(t, "result"@) matches Some(m) && !m.0,
        json_member(t, "translation"@) matches Some(m) && !m.0,
        json_member(t, "data"@) == Some((true, Some(d))),
    ensures
        deeplx_outcome(true, status, Ok(t), None) == Ok::<Seq<char>, Seq<char>>(d),
{
    assert(!unicode_whitespace(t[0])) by {
        reveal(unicode_whitespace);
    }
    assert(strip_start(t, ws_pred()) == t);
    lemma_strip_end_keeps_first(t, ws_pred());
}

/// A reply that is a JSON object (outside the standard form) gives the
/// first present member among `translated_text`, `result`, `translation`
/// and `data` that holds a string: `translated_text` when present.
pub proof fn law_reply_member_order(status: Seq<char>, t: Seq<char>, d: Seq<char>)
    requires
        t.len() > 0,
        t[0] == '{',
    ensures
        json_member(t, "translated_text"@) == Some((true, Some(d)))
            ==> deeplx_outcome(true, status, Ok(t), None) == Ok::<Seq<char>, Seq<char>>(d),
        (json_member(t, "translated_text"@) matches Some(m) && !m.0) && json_member(t, "result"@) == Some((true, Some(d)))
            ==> deeplx_outcome(true, status, Ok(t), None) == Ok::<Seq<char>, Seq<char>>(d),
        (json_member(t, "translated_text"@) matches Some(m) && !m.0) && (json_member(t, "result"@) matches Some(m) && !m.0)
            && json_member(t, "translation"@) == Some((true, Some(d)))
            ==> deeplx_outcome(true, status, Ok(t), None) == Ok::<Seq<char>, Seq<char>>(d),
        json_member(t, "translated_text"@) is None
            ==> deeplx_outcome(true, status, Ok(t), None) == Err::<Seq<char>, Seq<char>>("无法解析JSON响应: "@ + t),
{
    assert(!unicode_whitespace(t[0])) by {
        reveal(unicode_whitespace);
    }
    assert(strip_start(t, ws_pred()) == t);
    lemma_strip_end_keeps_first(t, ws_pred());
}

/// The trimmed parts that hold more than whitespace, in order.
pub open spec fn trimmed_nonblank(parts: Seq<Seq<char>>) -> Seq<Seq<char>>
    decreases parts.len(),
{
    if parts.len() == 0 {
        seq![]
    } else {
        let r = trimmed_nonblank(parts.drop_last());
        if trim(parts.last()).len() > 0 {
            r.push(trim(parts.last()))
        } else {
            r
        }
    }
}

/// Joining one more item.
proof fn lemma_join_push(x: Seq<Seq<char>>, a: Seq<char>, sep: Seq<char>)
    ensures
        join(x.push(a), sep) == if x.len() == 0 { a } else { join(x, sep) + sep + a },
{
    assert(x.push(a).drop_last() =~= x);
    if x.len() == 0 {
        assert(x.push(a)[0] == a);
    }
}

/// The closed chunks and the open one, as a list.
pub open spec fn flushed(st: (Seq<Seq<char>>, Seq<char>)) -> Seq<Seq<char>> {
    if st.1.len() > 0 { st.0.push(st.1) } else { st.0 }
}

/// Packing parts that each fit: the chunks, joined by the separator, give
/// back the non-blank trimmed parts joined by the separator.
proof fn lemma_pack_join(parts: Seq<Seq<char>>, sep: Seq<char>, max: int)
    requires
        forall|k: int| 0 <= k < parts.len() ==> utf8_len(trim(#[trigger] parts[k])) <= max,
    ensures
        pack_state(parts, sep, max) is Some,
        ({
            let st = pack_state(parts, sep, max).unwrap();
            &&& (st.1.len() == 0) == (trimmed_nonblank(parts).len() == 0)
            &&& st.1.len() == 0 ==> st.0.len() == 0
            &&& join(flushed(st), sep) == join(trimmed_nonblank(parts), sep)
        }),
    decreases parts.len(),
{
    if parts.len() > 0 {
        let d = parts.drop_last();
        assert forall|k: int| 0 <= k < d.len() implies utf8_len(trim(#[trigger] d[k])) <= max by {
            assert(d[k] == parts[k]);
        }
        lemma_pack_join(d, sep, max);
        let st = pack_state(d, sep, max).unwrap();
        let (chunks, cur) = st;
        let t = trim(parts.last());
        let nb = trimmed_nonblank(d);
        assert(utf8_len(trim(parts[parts.len() - 1])) <= max);
        if t.len() > 0 {
            lemma_join_push(nb, t, sep);
            if cur.len() == 0 {
                assert(pack_state(parts, sep, max) == Some((chunks, t)));
                assert(flushed((chunks, t)) =~= seq![t]);
                assert(nb.push(t) =~= seq![t]);
            } else {
                let test = cur + sep + t;
                lemma_join_push(chunks, cur, sep);
                if utf8_len(test) <= max {
                    assert(pack_state(parts, sep, max) == Some((chunks, test)));
                    lemma_join_push(chunks, test, sep);
                    if chunks.len() > 0 {
                        assert(join(chunks, sep) + sep + test =~= join(chunks, sep) + sep + cur + sep + t);
                    }
                } else {
                    let closed = chunks.push(cur);
                    assert(pack_state(parts, sep, max) == Some((closed, t)));
                    lemma_join_push(closed, t, sep);
                }
            }
        } else {
            assert(pack_state(parts, sep, max) == Some(st));
        }
    }
}

/// A long text without a blank line, of several lines each of which fits
/// the limit, is sent in chunks of whole lines: the chunks joined by line
/// breaks are the text's non-blank lines, trimmed, joined by line breaks.
/// (So each chunk is consecutive trimmed lines joined by one line break.)
pub proof fn law_line_chunks_keep_the_lines(s: Seq<char>, max: int)
    requires
        utf8_len(s) > max,
        !has_match(s, seq!['\n', '\n']),
        split_on(s, '\n').len() > 1,
        forall|k: int| 0 <= k < split_on(s, '\n').len() ==> utf8_len(trim(#[trigger] split_on(s, '\n')[k])) <= max,
        trimmed_nonblank(split_on(s, '\n')).len() > 0,
    ensures
        chunks_spec(s, max) matches Some(c) && join(c, seq!['\n']) == join(trimmed_nonblank(split_on(s, '\n')), seq!['\n']),
{
    reveal(crate::text::first_match);
    reveal(split_pat);
    assert(blank_line() =~= seq!['\n', '\n']);
    assert(split_pat(s, blank_line()) == seq![s]);
    let lines = split_on(s, '\n');
    lemma_pack_join(lines, seq!['\n'], max);
    let st = pack_state(lines, seq!['\n'], max).unwrap();
    assert(pack(lines, seq!['\n'], max) == Some(flushed(st)));
    assert(flushed(st).len() > 0);
}

/// The first place where `pat` occurs, given one.
proof fn lemma_least_match(s: Seq<char>, pat: Seq<char>, i: int) -> (k: int)
    requires
        is_match_at(s, pat, i),
    ensures
        is_match_at(s, pat, k),
        forall|j: int| j < k ==> !#[trigger] is_match_at(s, pat, j),
    decreases i,
{
    if exists|j: int| j < i && #[trigger] is_match_at(s, pat, j) {
        let j = choose|j: int| j < i && #[trigger] is_match_at(s, pat, j);
        lemma_least_match(s, pat, j)
    } else {
        i
    }
}

/// `split_pat` gives at least one piece.
proof fn lemma_split_pat_nonempty(s: Seq<char>, pat: Seq<char>)
    ensures
        split_pat(s, pat).len() >= 1,
    decreases s.len(),
{
    reveal(split_pat);
    match crate::text::first_match(s, pat) {
        Some(i) => if pat.len() > 0 && 0 <= i && i + pat.len() <= s.len() {
            lemma_split_pat_nonempty(s.skip(i + pat.len()), pat);
        },
        None => {},
    }
}

/// A long text with blank lines, whose blank-line sections each fit the
/// limit, is sent in chunks of whole sections: the chunks joined by blank
/// lines are the text's non-blank sections, trimmed, joined by blank lines.
pub proof fn law_section_chunks_keep_the_sections(s: Seq<char>, max: int)
    requires
        utf8_len(s) > max,
        has_match(s, "\n\n"@),
        forall|k: int| 0 <= k < split_pat(s, "\n\n"@).len()
            ==> utf8_len(trim(#[trigger] split_pat(s, "\n\n"@)[k])) <= max,
        trimmed_nonblank(split_pat(s, "\n\n"@)).len() > 0,
    ensures
        chunks_spec(s, max) matches Some(c) && join(c, "\n\n"@) == join(
            trimmed_nonblank(split_pat(s, "\n\n"@)),
            "\n\n"@,
        ),
{
    reveal_strlit("\n\n");
    let pat = "\n\n"@;
    assert(blank_line() =~= pat);
    let m = choose|m: int| is_match_at(s, pat, m);
    let i = lemma_least_match(s, pat, m);
    crate::text::lemma_first_match(s, pat, i);
    crate::text::lemma_split_pat_step(s, pat, i);
    lemma_split_pat_nonempty(s.skip(i + 2), pat);
    assert(split_pat(s, pat).len() > 1);
    let sections = split_pat(s, pat);
    lemma_pack_join(sections, pat, max);
    let st = pack_state(sections, pat, max).unwrap();
    assert(pack(sections, pat, max) == Some(flushed(st)));
    assert(flushed(st).len() > 0);
}

/// Outside the standard form, a reply that is not blank and does not start
/// with `{` is the translation itself, and a blank one is refused; in the
/// standard form, code 200 with non-empty data gives the data.
pub proof fn law_plain_and_standard_replies(status: Seq<char>, t: Seq<char>, data: Seq<char>)
    ensures
        t.len() > 0 && t[0] != '{' && trim(t).len() > 0
            ==> deeplx_outcome(true, status, Ok(t), None) == Ok::<Seq<char>, Seq<char>>(t),
        trim(t).len() == 0 ==> deeplx_outcome(true, status, Ok(t), None) == Err::<Seq<char>, Seq<char>>(
            "API返回了空的翻译结果"@,
        ),
        data.len() > 0 ==> deeplx_outcome(true, status, Ok(t), Some((200, data))) == Ok::<Seq<char>, Seq<char>>(
            data,
        ),
{
}

} // verus!
