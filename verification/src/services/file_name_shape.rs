//! The shape of a cleaned title: no doubled separator, no separator at
//! either end, and no whitespace.

use vstd::prelude::*;
use crate::services::file_naming_service::{clean_title_spec, title_char};
use crate::text::{
    collapse, eq_pred, has_match, is_collapse_steps, is_match_at, join, lemma_collapse_unique, lemma_replace_len,
    lemma_split_ws_last, replace, replace_iter, split_ws, strip_end, strip_start, trim_char, unicode_whitespace,
    ascii_lower, is_ascii_text, unicode_alphanumeric, unicode_lowercase,
};

verus! {

/// Every character of `s` satisfies `p`.
pub open spec fn all_chars(s: Seq<char>, p: spec_fn(char) -> bool) -> bool {
    forall|i: int| 0 <= i < s.len() ==> p(#[trigger] s[i])
}

/// The predicate "is not whitespace".
pub open spec fn not_ws() -> spec_fn(char) -> bool {
    |c: char| !unicode_whitespace(c)
}

/// No character of `s` is whitespace.
pub open spec fn no_whitespace(s: Seq<char>) -> bool {
    all_chars(s, not_ws())
}

/// An ASCII lowercase letter, an ASCII digit or `_`.
pub open spec fn is_slug_char(c: char) -> bool {
    let n = c as int;
    ||| 0x61 <= n <= 0x7a
    ||| 0x30 <= n <= 0x39
    ||| c == '_'
}

/// The predicate `is_slug_char`.
pub open spec fn slug_pred() -> spec_fn(char) -> bool {
    |c: char| is_slug_char(c)
}

/// Where every character of `s` satisfies `p` or is whitespace, the words of
/// `split_ws` satisfy `p` throughout.
proof fn lemma_split_ws_words(s: Seq<char>, p: spec_fn(char) -> bool)
    requires
        forall|i: int| 0 <= i < s.len() ==> p(#[trigger] s[i]) || unicode_whitespace(s[i]),
    ensures
        forall|k: int| 0 <= k < split_ws(s).len() ==> all_chars(#[trigger] split_ws(s)[k], p),
    decreases s.len(),
{
    if s.len() > 0 {
        let d = s.drop_last();
        assert forall|i: int| 0 <= i < d.len() implies p(#[trigger] d[i]) || unicode_whitespace(d[i]) by {
            assert(d[i] == s[i]);
        }
        lemma_split_ws_words(d, p);
        let w = split_ws(d);
        let r = split_ws(s);
        assert(p(s[s.len() - 1]) || unicode_whitespace(s[s.len() - 1]));
        if unicode_whitespace(s.last()) {
        } else if s.len() > 1 && !unicode_whitespace(s[s.len() - 2]) {
            assert(d.last() == s[s.len() - 2]);
            lemma_split_ws_last(d);
            assert forall|k: int| 0 <= k < r.len() implies all_chars(#[trigger] r[k], p) by {
                if k == w.len() - 1 {
                    let q = w.last().push(s.last());
                    assert(r[k] == q);
                    assert(all_chars(w[k], p));
                    assert forall|i: int| 0 <= i < q.len() implies p(#[trigger] q[i]) by {
                        if i < w.last().len() {
                            assert(q[i] == w[k][i]);
                        }
                    }
                } else {
                    assert(r[k] == w[k]);
                }
            }
        } else {
            assert forall|k: int| 0 <= k < r.len() implies all_chars(#[trigger] r[k], p) by {
                if k < w.len() {
                    assert(r[k] == w[k]);
                } else {
                    let q = seq![s.last()];
                    assert(r[k] == q);
                    assert(q[0] == s[s.len() - 1]);
                }
            }
        }
    }
}

/// Joining words that satisfy `p` by a separator that satisfies `p` gives
/// a text that satisfies `p`.
proof fn lemma_join_chars(parts: Seq<Seq<char>>, sep: Seq<char>, p: spec_fn(char) -> bool)
    requires
        forall|k: int| 0 <= k < parts.len() ==> all_chars(#[trigger] parts[k], p),
        all_chars(sep, p),
    ensures
        all_chars(join(parts, sep), p),
    decreases parts.len(),
{
    if parts.len() > 1 {
        lemma_join_chars(parts.drop_last(), sep, p);
        let a = join(parts.drop_last(), sep);
        let l = parts.last();
        assert(all_chars(parts[parts.len() - 1], p));
        let j = a + sep + l;
        assert forall|i: int| 0 <= i < j.len() implies p(#[trigger] j[i]) by {
            if i < a.len() {
                assert(j[i] == a[i]);
            } else if i < a.len() + sep.len() {
                assert(j[i] == sep[i - a.len()]);
            } else {
                assert(j[i] == l[i - a.len() - sep.len()]);
            }
        }
    } else if parts.len() == 1 {
        assert(all_chars(parts[0], p));
    }
}

/// Replacing by text that satisfies `p` keeps a text that satisfies `p`.
proof fn lemma_replace_chars(s: Seq<char>, from: Seq<char>, to: Seq<char>, p: spec_fn(char) -> bool)
    requires
        all_chars(s, p),
        all_chars(to, p),
    ensures
        all_chars(replace(s, from, to), p),
    decreases s.len(),
{
    if from.len() == 0 || s.len() < from.len() {
    } else if s.subrange(0, from.len() as int) == from {
        let rest = s.subrange(from.len() as int, s.len() as int);
        assert forall|i: int| 0 <= i < rest.len() implies p(#[trigger] rest[i]) by {
            assert(rest[i] == s[i + from.len()]);
        }
        lemma_replace_chars(rest, from, to, p);
        let r = to + replace(rest, from, to);
        assert forall|i: int| 0 <= i < r.len() implies p(#[trigger] r[i]) by {
            if i >= to.len() {
                assert(r[i] == replace(rest, from, to)[i - to.len()]);
            } else {
                assert(r[i] == to[i]);
            }
        }
    } else {
        let rest = s.drop_first();
        assert forall|i: int| 0 <= i < rest.len() implies p(#[trigger] rest[i]) by {
            assert(rest[i] == s[i + 1]);
        }
        lemma_replace_chars(rest, from, to, p);
        let r = seq![s[0]] + replace(rest, from, to);
        assert forall|i: int| 0 <= i < r.len() implies p(#[trigger] r[i]) by {
            if i >= 1 {
                assert(r[i] == replace(rest, from, to)[i - 1]);
            } else {
                assert(r[i] == s[0]);
            }
        }
    }
}

/// Rounds of replacement keep a text that satisfies `p`.
proof fn lemma_replace_iter_chars(s: Seq<char>, from: Seq<char>, to: Seq<char>, k: nat, p: spec_fn(char) -> bool)
    requires
        all_chars(s, p),
        all_chars(to, p),
    ensures
        all_chars(replace_iter(s, from, to, k), p),
    decreases k,
{
    if k > 0 {
        lemma_replace_iter_chars(s, from, to, (k - 1) as nat, p);
        lemma_replace_chars(replace_iter(s, from, to, (k - 1) as nat), from, to, p);
    }
}

/// Replacing a pattern by something shorter ends after some rounds: from
/// round `k` on, where every earlier round still found the pattern.
proof fn lemma_collapse_steps_from(s: Seq<char>, from: Seq<char>, to: Seq<char>, k: nat)
    requires
        to.len() < from.len(),
        forall|j: nat| j < k ==> has_match(#[trigger] replace_iter(s, from, to, j), from),
    ensures
        exists|n: nat| is_collapse_steps(s, from, to, n),
    decreases replace_iter(s, from, to, k).len(),
{
    let r = replace_iter(s, from, to, k);
    if !has_match(r, from) {
        assert(is_collapse_steps(s, from, to, k));
    } else {
        lemma_replace_len(r, from, to);
        assert(replace_iter(s, from, to, k + 1) == replace(r, from, to));
        assert forall|j: nat| j < k + 1 implies has_match(#[trigger] replace_iter(s, from, to, j), from) by {
            if j == k {
            }
        }
        lemma_collapse_steps_from(s, from, to, k + 1);
    }
}

/// What `collapse` leaves holds no occurrence of the pattern and, where the
/// text and the replacement satisfy `p`, satisfies `p`.
proof fn lemma_collapse_shape(s: Seq<char>, from: Seq<char>, to: Seq<char>, p: spec_fn(char) -> bool)
    requires
        to.len() < from.len(),
    ensures
        !has_match(collapse(s, from, to), from),
        all_chars(s, p) && all_chars(to, p) ==> all_chars(collapse(s, from, to), p),
{
    lemma_collapse_steps_from(s, from, to, 0);
    let n = choose|n: nat| is_collapse_steps(s, from, to, n);
    lemma_collapse_unique(s, from, to, n);
    if all_chars(s, p) && all_chars(to, p) {
        lemma_replace_iter_chars(s, from, to, n, p);
    }
}

/// `strip_start` leaves a suffix whose first character does not satisfy
/// the predicate.
proof fn lemma_strip_start_suffix(s: Seq<char>, p: spec_fn(char) -> bool)
    ensures
        exists|k: int| 0 <= k <= s.len() && #[trigger] s.subrange(k, s.len() as int) == strip_start(s, p),
        strip_start(s, p).len() > 0 ==> !p(strip_start(s, p)[0]),
    decreases s.len(),
{
    if s.len() > 0 && p(s[0]) {
        lemma_strip_start_suffix(s.drop_first(), p);
        let k = choose|k: int| 0 <= k <= s.drop_first().len()
            && #[trigger] s.drop_first().subrange(k, s.drop_first().len() as int) == strip_start(s.drop_first(), p);
        assert(s.subrange(k + 1, s.len() as int) =~= s.drop_first().subrange(k, s.drop_first().len() as int));
    } else {
        assert(s.subrange(0, s.len() as int) =~= s);
    }
}

/// `strip_end` leaves a prefix whose last character does not satisfy the
/// predicate.
proof fn lemma_strip_end_prefix(s: Seq<char>, p: spec_fn(char) -> bool)
    ensures
        exists|k: int| 0 <= k <= s.len() && #[trigger] s.subrange(0, k) == strip_end(s, p),
        strip_end(s, p).len() > 0 ==> !p(strip_end(s, p).last()),
    decreases s.len(),
{
    if s.len() > 0 && p(s.last()) {
        lemma_strip_end_prefix(s.drop_last(), p);
        let k = choose|k: int| 0 <= k <= s.drop_last().len()
            && #[trigger] s.drop_last().subrange(0, k) == strip_end(s.drop_last(), p);
        assert(s.subrange(0, k) =~= s.drop_last().subrange(0, k));
    } else {
        assert(s.subrange(0, s.len() as int) =~= s);
    }
}

/// A piece of a text that satisfies `p`, or that lacks a pattern, does too.
proof fn lemma_subrange_shape(s: Seq<char>, a: int, b: int, pat: Seq<char>, p: spec_fn(char) -> bool)
    requires
        0 <= a <= b <= s.len(),
    ensures
        all_chars(s, p) ==> all_chars(s.subrange(a, b), p),
        !has_match(s, pat) ==> !has_match(s.subrange(a, b), pat),
{
    let t = s.subrange(a, b);
    if all_chars(s, p) {
        assert forall|i: int| 0 <= i < t.len() implies p(#[trigger] t[i]) by {
            assert(t[i] == s[i + a]);
        }
    }
    if has_match(t, pat) {
        let i = choose|i: int| is_match_at(t, pat, i);
        assert(s.subrange(i + a, i + a + pat.len()) =~= t.subrange(i, i + pat.len()));
        assert(is_match_at(s, pat, i + a));
    }
}

/// The steps of `clean_title_spec` with `_` as the separator, for a text
/// `b` (the title after the character and case rules): a text whose
/// characters satisfy `p`, where those of `b` satisfy `p` or are whitespace
/// and `_` satisfies `p`; with no `__`, and no `_` at either end.
proof fn lemma_clean_steps(b: Seq<char>, p: spec_fn(char) -> bool)
    requires
        forall|i: int| 0 <= i < b.len() ==> p(#[trigger] b[i]) || unicode_whitespace(b[i]),
        p('_'),
    ensures
        ({
            let sep = "_"@;
            let f = trim_char(collapse(join(split_ws(b), sep), sep + sep, sep), '_');
            &&& all_chars(f, p)
            &&& !has_match(f, "__"@)
            &&& f.len() > 0 ==> f[0] != '_' && f.last() != '_'
        }),
{
    reveal_strlit("_");
    reveal_strlit("__");
    let sep = "_"@;
    assert(sep =~= seq!['_']);
    assert("__"@ =~= sep + sep);
    assert(all_chars(sep, p)) by {
        assert forall|i: int| 0 <= i < sep.len() implies p(#[trigger] sep[i]) by {
            assert(sep[i] == '_');
        }
    }
    lemma_split_ws_words(b, p);
    lemma_join_chars(split_ws(b), sep, p);
    let c = join(split_ws(b), sep);
    let d = collapse(c, sep + sep, sep);
    lemma_collapse_shape(c, sep + sep, sep, p);
    let e = strip_start(d, eq_pred('_'));
    lemma_strip_start_suffix(d, eq_pred('_'));
    let k1 = choose|k: int| 0 <= k <= d.len() && #[trigger] d.subrange(k, d.len() as int) == e;
    lemma_subrange_shape(d, k1, d.len() as int, sep + sep, p);
    let f = strip_end(e, eq_pred('_'));
    lemma_strip_end_prefix(e, eq_pred('_'));
    let k2 = choose|k: int| 0 <= k <= e.len() && #[trigger] e.subrange(0, k) == f;
    lemma_subrange_shape(e, 0, k2, sep + sep, p);
    assert(f == trim_char(d, '_'));
    if f.len() > 0 {
        assert(f[0] == e[0]);
    }
}

/// A cleaned title, with `_` as the separator, holds no `__`, neither
/// starts nor ends with `_`, and holds no whitespace.
pub proof fn law_clean_title_shape(title: Seq<char>, remove_special: bool, lowercase: bool)
    ensures
        !has_match(clean_title_spec(title, remove_special, lowercase, "_"@), "__"@),
        no_whitespace(clean_title_spec(title, remove_special, lowercase, "_"@)),
        clean_title_spec(title, remove_special, lowercase, "_"@).len() > 0 ==> {
            &&& clean_title_spec(title, remove_special, lowercase, "_"@)[0] != '_'
            &&& clean_title_spec(title, remove_special, lowercase, "_"@).last() != '_'
        },
{
    reveal_strlit("_");
    let a = if remove_special {
        title.map_values(|c: char| title_char(c))
    } else {
        title
    };
    let b = if lowercase { unicode_lowercase(a) } else { a };
    assert(not_ws()('_')) by {
        reveal(unicode_whitespace);
    }
    lemma_clean_steps(b, not_ws());
    assert("_"@[0] == '_');
}

/// Text without whitespace is one word, or none.
proof fn lemma_split_ws_single(s: Seq<char>)
    requires
        no_whitespace(s),
    ensures
        s.len() == 0 ==> split_ws(s).len() == 0,
        s.len() > 0 ==> split_ws(s) =~= seq![s],
    decreases s.len(),
{
    if s.len() > 0 {
        let d = s.drop_last();
        assert forall|i: int| 0 <= i < d.len() implies not_ws()(#[trigger] d[i]) by {
            assert(d[i] == s[i]);
        }
        lemma_split_ws_single(d);
        assert(not_ws()(s[s.len() - 1]));
        if s.len() > 1 {
            assert(not_ws()(s[s.len() - 2]));
            assert(d.push(s.last()) =~= s);
        } else {
            assert(seq![s.last()] =~= s);
        }
    }
}

/// A text of ASCII lowercase letters, digits and `_`, with no `__` and no
/// `_` at either end, is its own cleaned title under the default options.
proof fn lemma_clean_title_fixed(r: Seq<char>)
    requires
        all_chars(r, slug_pred()),
        !has_match(r, "__"@),
        r.len() > 0 ==> r[0] != '_' && r.last() != '_',
    ensures
        clean_title_spec(r, true, true, "_"@) == r,
{
    reveal_strlit("_");
    reveal_strlit("__");
    reveal(unicode_alphanumeric);
    reveal(unicode_whitespace);
    reveal(unicode_lowercase);
    let sep = "_"@;
    assert(sep =~= seq!['_']);
    assert("__"@ =~= sep + sep);
    let a = r.map_values(|c: char| title_char(c));
    assert forall|i: int| 0 <= i < r.len() implies #[trigger] a[i] == r[i] by {
        assert(slug_pred()(r[i]));
    }
    assert(a =~= r);
    assert(is_ascii_text(r)) by {
        assert forall|i: int| 0 <= i < r.len() implies (#[trigger] r[i] as int) < 128 by {
            assert(slug_pred()(r[i]));
        }
    }
    let b = unicode_lowercase(a);
    assert(b =~= r) by {
        assert forall|i: int| 0 <= i < r.len() implies #[trigger] ascii_lower(r[i]) == r[i] by {
            assert(slug_pred()(r[i]));
        }
    }
    assert(no_whitespace(r)) by {
        assert forall|i: int| 0 <= i < r.len() implies not_ws()(#[trigger] r[i]) by {
            assert(slug_pred()(r[i]));
        }
    }
    lemma_split_ws_single(r);
    let c = join(split_ws(r), sep);
    assert(c =~= r);
    assert(is_collapse_steps(r, sep + sep, sep, 0));
    lemma_collapse_unique(r, sep + sep, sep, 0);
    assert(collapse(c, sep + sep, sep) == r);
    assert(strip_start(r, eq_pred('_')) == r);
    assert(strip_end(r, eq_pred('_')) == r);
    assert(sep[0] == '_');
}

/// On ASCII text, under the default options (special characters to `_`,
/// lowercase, `_` between words), a cleaned title holds only ASCII
/// lowercase letters, digits and `_`, and cleaning it again changes
/// nothing.
pub proof fn law_clean_title_idempotent(title: Seq<char>)
    requires
        is_ascii_text(title),
    ensures
        all_chars(clean_title_spec(title, true, true, "_"@), slug_pred()),
        clean_title_spec(clean_title_spec(title, true, true, "_"@), true, true, "_"@)
            == clean_title_spec(title, true, true, "_"@),
{
    reveal_strlit("_");
    reveal(unicode_alphanumeric);
    reveal(unicode_whitespace);
    reveal(unicode_lowercase);
    let a = title.map_values(|c: char| title_char(c));
    assert(is_ascii_text(a)) by {
        assert forall|i: int| 0 <= i < a.len() implies (#[trigger] a[i] as int) < 128 by {
            assert(a[i] == title_char(title[i]));
            assert((title[i] as int) < 128);
        }
    }
    let b = unicode_lowercase(a);
    assert(b == a.map_values(|c: char| ascii_lower(c)));
    assert(b.len() == title.len());
    assert forall|i: int| 0 <= i < b.len() implies slug_pred()(#[trigger] b[i]) || unicode_whitespace(b[i]) by {
        assert(b[i] == ascii_lower(a[i]));
        assert(a[i] == title_char(title[i]));
        assert((title[i] as int) < 128);
    }
    assert(slug_pred()('_'));
    lemma_clean_steps(b, slug_pred());
    assert("_"@[0] == '_');
    let r = clean_title_spec(title, true, true, "_"@);
    lemma_clean_title_fixed(r);
}

} // verus!
