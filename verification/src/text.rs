use vstd::prelude::*;

verus! {

// ---------------------------------------------------------------------------
// Unicode character classes. Their tables belong to std; the library names
// them and reaches them through one wrapper each.
// ---------------------------------------------------------------------------

/// Whether `c` has the Unicode `White_Space` property (`char::is_whitespace`):
/// the 25 code points U+0009 to U+000D, U+0020, U+0085, U+00A0, U+1680,
/// U+2000 to U+200A, U+2028, U+2029, U+202F, U+205F and U+3000.
#[verifier::opaque]
pub open spec fn unicode_whitespace(c: char) -> bool {
    let n = c as int;
    ||| 0x09 <= n <= 0x0d
    ||| n == 0x20
    ||| n == 0x85
    ||| n == 0xa0
    ||| n == 0x1680
    ||| 0x2000 <= n <= 0x200a
    ||| n == 0x2028
    ||| n == 0x2029
    ||| n == 0x202f
    ||| n == 0x205f
    ||| n == 0x3000
}

/// Whether `c` is alphabetic or numeric in Unicode (`char::is_alphanumeric`):
/// among ASCII characters, exactly the digits and the letters.
#[verifier::opaque]
pub open spec fn unicode_alphanumeric(c: char) -> bool {
    if (c as int) < 128 {
        is_ascii_alphanumeric(c)
    } else {
        unicode_alphanumeric_beyond_ascii(c)
    }
}

/// Whether `c` is an ASCII digit or an ASCII letter.
pub open spec fn is_ascii_alphanumeric(c: char) -> bool {
    let n = c as int;
    ||| 0x30 <= n <= 0x39
    ||| 0x41 <= n <= 0x5a
    ||| 0x61 <= n <= 0x7a
}

/// `char::is_alphanumeric` beyond ASCII, whose tables belong to std.
pub uninterp spec fn unicode_alphanumeric_beyond_ascii(c: char) -> bool;

/// Whether `c` has the Unicode `Alphabetic` property (`char::is_alphabetic`):
/// among ASCII characters, exactly the letters.
#[verifier::opaque]
pub open spec fn unicode_alphabetic(c: char) -> bool {
    if (c as int) < 128 {
        is_ascii_letter(c)
    } else {
        unicode_alphabetic_beyond_ascii(c)
    }
}

/// Whether `c` is in one of the Unicode numeric categories (`char::is_numeric`):
/// among ASCII characters, exactly the digits.
#[verifier::opaque]
pub open spec fn unicode_numeric(c: char) -> bool {
    if (c as int) < 128 {
        0x30 <= (c as int) <= 0x39
    } else {
        unicode_numeric_beyond_ascii(c)
    }
}

/// Whether `c` has the Unicode `Uppercase` property (`char::is_uppercase`):
/// among ASCII characters, exactly `A` to `Z`.
#[verifier::opaque]
pub open spec fn unicode_uppercase(c: char) -> bool {
    if (c as int) < 128 {
        0x41 <= (c as int) <= 0x5a
    } else {
        unicode_uppercase_beyond_ascii(c)
    }
}

/// Whether `c` is an ASCII letter.
pub open spec fn is_ascii_letter(c: char) -> bool {
    let n = c as int;
    ||| 0x41 <= n <= 0x5a
    ||| 0x61 <= n <= 0x7a
}

/// `char::is_alphabetic` beyond ASCII, whose tables belong to std.
pub uninterp spec fn unicode_alphabetic_beyond_ascii(c: char) -> bool;

/// `char::is_numeric` beyond ASCII, whose tables belong to std.
pub uninterp spec fn unicode_numeric_beyond_ascii(c: char) -> bool;

/// `char::is_uppercase` beyond ASCII, whose tables belong to std.
pub uninterp spec fn unicode_uppercase_beyond_ascii(c: char) -> bool;

/// Whether every character of `s` is ASCII.
pub open spec fn is_ascii_text(s: Seq<char>) -> bool {
    forall|i: int| 0 <= i < s.len() ==> (#[trigger] s[i] as int) < 128
}

/// The ASCII lowercase of a character: `A` to `Z` become `a` to `z`.
pub open spec fn ascii_lower(c: char) -> char {
    if 0x41 <= (c as int) <= 0x5a {
        ((c as int) + 32) as char
    } else {
        c
    }
}

/// The Unicode lowercase mapping of a string that holds a character beyond
/// ASCII (`str::to_lowercase`).
pub uninterp spec fn unicode_lowercase_beyond_ascii(s: Seq<char>) -> Seq<char>;

/// The Unicode lowercase mapping of a whole string (`str::to_lowercase`):
/// on ASCII text, each character's ASCII lowercase.
#[verifier::opaque]
pub open spec fn unicode_lowercase(s: Seq<char>) -> Seq<char> {
    if is_ascii_text(s) {
        s.map_values(|c: char| ascii_lower(c))
    } else {
        unicode_lowercase_beyond_ascii(s)
    }
}

/// Calls `char::is_whitespace`: whether `c` has the `White_Space` property
/// (`unicode_whitespace`).
#[verifier::external_body]
pub(crate) fn is_whitespace(c: char) -> (b: bool)
    ensures
        b == unicode_whitespace(c),
{
    c.is_whitespace()
}

/// Calls `char::is_alphanumeric`: whether `c` is alphabetic or numeric
/// (`unicode_alphanumeric`; on ASCII, a digit or a letter).
#[verifier::external_body]
pub(crate) fn is_alphanumeric(c: char) -> (b: bool)
    ensures
        b == unicode_alphanumeric(c),
        (c as int) < 128 ==> b == is_ascii_alphanumeric(c),
        (c as int) >= 128 ==> b == unicode_alphanumeric_beyond_ascii(c),
{
    c.is_alphanumeric()
}

/// Calls `char::is_alphabetic`: whether `c` is alphabetic
/// (`unicode_alphabetic`; on ASCII, a letter).
#[verifier::external_body]
pub(crate) fn is_alphabetic(c: char) -> (b: bool)
    ensures
        b == unicode_alphabetic(c),
        (c as int) < 128 ==> b == is_ascii_letter(c),
        (c as int) >= 128 ==> b == unicode_alphabetic_beyond_ascii(c),
{
    c.is_alphabetic()
}

/// Calls `char::is_numeric`: whether `c` is numeric (`unicode_numeric`;
/// on ASCII, a digit).
#[verifier::external_body]
pub(crate) fn is_numeric(c: char) -> (b: bool)
    ensures
        b == unicode_numeric(c),
        (c as int) < 128 ==> b == (0x30 <= (c as int) <= 0x39),
        (c as int) >= 128 ==> b == unicode_numeric_beyond_ascii(c),
{
    c.is_numeric()
}

/// Calls `char::is_uppercase`: whether `c` is uppercase
/// (`unicode_uppercase`; on ASCII, `A` to `Z`).
#[verifier::external_body]
pub(crate) fn is_uppercase(c: char) -> (b: bool)
    ensures
        b == unicode_uppercase(c),
        (c as int) < 128 ==> b == (0x41 <= (c as int) <= 0x5a),
        (c as int) >= 128 ==> b == unicode_uppercase_beyond_ascii(c),
{
    c.is_uppercase()
}

/// Calls `str::to_lowercase`: the Unicode lowercase mapping
/// (`unicode_lowercase`; on ASCII text, ASCII lowercase).
#[verifier::external_body]
pub(crate) fn to_lowercase(s: &str) -> (r: String)
    ensures
        r@ == unicode_lowercase(s@),
        is_ascii_text(s@) ==> r@ == s@.map_values(|c: char| ascii_lower(c)),
        !is_ascii_text(s@) ==> r@ == unicode_lowercase_beyond_ascii(s@),
{
    s.to_lowercase()
}

/// Calls `String::push`: the character is appended.
#[verifier::external_body]
pub(crate) fn push_char(s: &mut String, c: char)
    ensures
        final(s)@ == old(s)@.push(c),
{
    s.push(c)
}

// ---------------------------------------------------------------------------
// Conversions between strings and character vectors.
// ---------------------------------------------------------------------------

/// The characters of `s`, one per element.
pub fn chars_of(s: &str) -> (v: Vec<char>)
    ensures
        v@ == s@,
{
    let mut v: Vec<char> = Vec::new();
    for c in it: s.chars()
        invariant
            v@ == it.seq().take(it.index() as int),
    {
        v.push(c);
    }
    v
}

/// The string made of the characters `v`.
pub fn string_of(v: &[char]) -> (s: String)
    ensures
        s@ == v@,
{
    let mut s = String::new();
    let mut i: usize = 0;
    while i < v.len()
        invariant
            i <= v.len(),
            s@ == v@.take(i as int),
        decreases v.len() - i,
    {
        push_char(&mut s, v[i]);
        i += 1;
        assert(v@.take(i as int) == v@.take(i - 1 as int).push(v@[i - 1 as int]));
    }
    assert(v@.take(v.len() as int) == v@);
    s
}

/// Appends `t` to the end of `s`.
pub fn push_str(s: &mut String, t: &str)
    ensures
        final(s)@ == old(s)@ + t@,
{
    s.append(t);
}

// ---------------------------------------------------------------------------
// Trimming.
// ---------------------------------------------------------------------------

/// `s` without its leading characters that satisfy `p`.
pub open spec fn strip_start(s: Seq<char>, p: spec_fn(char) -> bool) -> Seq<char>
    decreases s.len(),
{
    if s.len() > 0 && p(s[0]) {
        strip_start(s.drop_first(), p)
    } else {
        s
    }
}

/// `s` without its trailing characters that satisfy `p`.
pub open spec fn strip_end(s: Seq<char>, p: spec_fn(char) -> bool) -> Seq<char>
    decreases s.len(),
{
    if s.len() > 0 && p(s.last()) {
        strip_end(s.drop_last(), p)
    } else {
        s
    }
}

/// The whitespace predicate of `str::trim`.
pub open spec fn ws_pred() -> spec_fn(char) -> bool {
    |c: char| unicode_whitespace(c)
}

/// The predicate "is the character `x`", for `str::trim_matches(x)`.
pub open spec fn eq_pred(x: char) -> spec_fn(char) -> bool {
    |c: char| c == x
}

/// `str::trim_start`.
pub open spec fn trim_start(s: Seq<char>) -> Seq<char> {
    strip_start(s, ws_pred())
}

/// `str::trim_end`.
pub open spec fn trim_end(s: Seq<char>) -> Seq<char> {
    strip_end(s, ws_pred())
}

/// `str::trim`.
pub open spec fn trim(s: Seq<char>) -> Seq<char> {
    strip_end(strip_start(s, ws_pred()), ws_pred())
}

/// `str::trim_matches(x)` for a single character `x`.
pub open spec fn trim_char(s: Seq<char>, x: char) -> Seq<char> {
    strip_end(strip_start(s, eq_pred(x)), eq_pred(x))
}

pub(crate) proof fn lemma_strip_start_step(s: Seq<char>, p: spec_fn(char) -> bool, i: int)
    requires
        0 <= i < s.len(),
        p(s[i]),
    ensures
        strip_start(s.subrange(i, s.len() as int), p) == strip_start(
            s.subrange(i + 1, s.len() as int),
            p,
        ),
{
    assert(s.subrange(i, s.len() as int).drop_first() =~= s.subrange(i + 1, s.len() as int));
}

proof fn lemma_strip_end_step(s: Seq<char>, p: spec_fn(char) -> bool, j: int)
    requires
        0 < j <= s.len(),
        p(s[j - 1]),
    ensures
        strip_end(s.subrange(0, j), p) == strip_end(s.subrange(0, j - 1), p),
{
    assert(s.subrange(0, j).drop_last() =~= s.subrange(0, j - 1));
}

/// The index of the first character of `s` that is not whitespace, or `s.len()`.
pub(crate) fn skip_ws_start(s: &[char]) -> (k: usize)
    ensures
        k <= s@.len(),
        k < s@.len() ==> !unicode_whitespace(s@[k as int]),
        strip_start(s@, ws_pred()) == s@.subrange(k as int, s@.len() as int),
{
    let mut i: usize = 0;
    assert(s@.subrange(0, s@.len() as int) =~= s@);
    while i < s.len() && is_whitespace(s[i])
        invariant
            i <= s@.len(),
            strip_start(s@, ws_pred()) == strip_start(s@.subrange(i as int, s@.len() as int), ws_pred()),
        decreases s.len() - i,
    {
        proof { lemma_strip_start_step(s@, ws_pred(), i as int); }
        i += 1;
    }
    assert(s@.subrange(i as int, s@.len() as int).len() > 0 ==> s@.subrange(i as int, s@.len() as int)[0] == s@[i as int]);
    i
}

/// Bounds `(a, b)` such that `trim(s) == s[a..b]`.
fn trim_bounds(s: &[char]) -> (r: (usize, usize))
    ensures
        r.0 <= r.1 <= s@.len(),
        trim(s@) == s@.subrange(r.0 as int, r.1 as int),
        strip_start(s@, ws_pred()) == s@.subrange(r.0 as int, s@.len() as int),
{
    let a = skip_ws_start(s);
    let ghost t = s@.subrange(a as int, s@.len() as int);
    let mut j: usize = s.len();
    assert(t.subrange(0, t.len() as int) =~= t);
    while j > a && is_whitespace(s[j - 1])
        invariant
            a <= j <= s@.len(),
            t == s@.subrange(a as int, s@.len() as int),
            a < s@.len() ==> !unicode_whitespace(s@[a as int]),
            strip_end(t, ws_pred()) == strip_end(t.subrange(0, j - a), ws_pred()),
        decreases j,
    {
        proof {
            lemma_strip_end_step(t, ws_pred(), j - a);
        }
        j -= 1;
    }
    assert(t.subrange(0, j - a) =~= s@.subrange(a as int, j as int));
    (a, j)
}

/// `str::trim` on a character vector.
pub fn trim_vec(s: &[char]) -> (r: Vec<char>)
    ensures
        r@ == trim(s@),
{
    let (a, b) = trim_bounds(s);
    slice_vec(s, a, b)
}

/// The characters `s[a..b]`.
pub fn slice_vec(s: &[char], a: usize, b: usize) -> (r: Vec<char>)
    requires
        a <= b <= s@.len(),
    ensures
        r@ == s@.subrange(a as int, b as int),
{
    let mut r: Vec<char> = Vec::new();
    let mut i = a;
    while i < b
        invariant
            a <= i <= b,
            b <= s@.len(),
            r@ == s@.subrange(a as int, i as int),
        decreases b - i,
    {
        r.push(s[i]);
        i += 1;
        assert(r@ =~= s@.subrange(a as int, i as int));
    }
    r
}

// ---------------------------------------------------------------------------
// Searching.
// ---------------------------------------------------------------------------

/// `pat` occurs in `s` starting at index `i`.
pub open spec fn is_match_at(s: Seq<char>, pat: Seq<char>, i: int) -> bool {
    0 <= i && i + pat.len() <= s.len() && s.subrange(i, i + pat.len()) == pat
}

/// `pat` occurs somewhere in `s` (`str::contains`).
pub open spec fn has_match(s: Seq<char>, pat: Seq<char>) -> bool {
    exists|i: int| #[trigger] is_match_at(s, pat, i)
}

/// `s` begins with `pat` (`str::starts_with`).
pub open spec fn starts_with(s: Seq<char>, pat: Seq<char>) -> bool {
    is_match_at(s, pat, 0)
}

/// `s` ends with `pat` (`str::ends_with`).
pub open spec fn ends_with(s: Seq<char>, pat: Seq<char>) -> bool {
    is_match_at(s, pat, s.len() - pat.len())
}

/// Whether `pat` occurs in `s` at index `i`.
pub fn matches_at(s: &[char], pat: &[char], i: usize) -> (b: bool)
    ensures
        b == is_match_at(s@, pat@, i as int),
{
    if i > s.len() || pat.len() > s.len() - i {
        return false;
    }
    let n = s.len();
    let mut k: usize = 0;
    while k < pat.len()
        invariant
            n == s@.len(),
            k <= pat@.len(),
            i <= s@.len(),
            pat@.len() <= s@.len() - i,
            forall|m: int| 0 <= m < k ==> s@[i + m] == pat@[m],
        decreases pat.len() - k,
    {
        assert(i + k < n);
        if s[i + k] != pat[k] {
            assert(s@.subrange(i as int, i + pat@.len())[k as int] != pat@[k as int]);
            return false;
        }
        k += 1;
    }
    assert(s@.subrange(i as int, i + pat@.len()) =~= pat@);
    true
}

/// The first index at or after `from` where `pat` occurs in `s`.
pub fn find_from(s: &[char], pat: &[char], from: usize) -> (r: Option<usize>)
    ensures
        match r {
            Some(i) => from <= i && is_match_at(s@, pat@, i as int) && forall|j: int|
                from <= j < i ==> !#[trigger] is_match_at(s@, pat@, j),
            None => forall|j: int| from <= j ==> !#[trigger] is_match_at(s@, pat@, j),
        },
{
    let mut i = from;
    if i > s.len() {
        return None;
    }
    while i < s.len()
        invariant
            from <= i <= s@.len(),
            forall|j: int| from <= j < i ==> !#[trigger] is_match_at(s@, pat@, j),
        decreases s.len() - i,
    {
        if matches_at(s, pat, i) {
            return Some(i);
        }
        i += 1;
    }
    if matches_at(s, pat, i) {
        return Some(i);
    }
    None
}

/// The last index where `pat` occurs in `s` (`str::rfind`).
pub fn rfind(s: &[char], pat: &[char]) -> (r: Option<usize>)
    ensures
        match r {
            Some(i) => is_match_at(s@, pat@, i as int) && forall|j: int|
                i < j ==> !#[trigger] is_match_at(s@, pat@, j),
            None => forall|j: int| !#[trigger] is_match_at(s@, pat@, j),
        },
{
    if matches_at(s, pat, s.len()) {
        return Some(s.len());
    }
    let mut i = s.len();
    while i > 0
        invariant
            i <= s@.len(),
            forall|j: int| i <= j ==> !#[trigger] is_match_at(s@, pat@, j),
        decreases i,
    {
        if matches_at(s, pat, i - 1) {
            return Some(i - 1);
        }
        i -= 1;
    }
    None
}

/// Whether `pat` occurs in `s`.
pub fn contains(s: &[char], pat: &[char]) -> (b: bool)
    ensures
        b == has_match(s@, pat@),
{
    match find_from(s, pat, 0) {
        Some(i) => {
            assert(is_match_at(s@, pat@, i as int));
            true
        },
        None => {
            assert forall|j: int| !#[trigger] is_match_at(s@, pat@, j) by {
                if j < 0 {
                    assert(!is_match_at(s@, pat@, j));
                }
            }
            false
        },
    }
}

/// Whether `s` begins with `pat`.
pub fn starts_with_vec(s: &[char], pat: &[char]) -> (b: bool)
    ensures
        b == starts_with(s@, pat@),
{
    matches_at(s, pat, 0)
}

/// Whether `s` ends with `pat`.
pub fn ends_with_vec(s: &[char], pat: &[char]) -> (b: bool)
    ensures
        b == ends_with(s@, pat@),
{
    if pat.len() > s.len() {
        false
    } else {
        matches_at(s, pat, s.len() - pat.len())
    }
}

// ---------------------------------------------------------------------------
// Replacing.
// ---------------------------------------------------------------------------

/// `str::replace(from, to)`: every non-overlapping occurrence of `from`,
/// taken from left to right, replaced by `to`.
pub open spec fn replace(s: Seq<char>, from: Seq<char>, to: Seq<char>) -> Seq<char>
    decreases s.len(),
{
    if from.len() == 0 || s.len() < from.len() {
        s
    } else if s.subrange(0, from.len() as int) == from {
        to + replace(s.subrange(from.len() as int, s.len() as int), from, to)
    } else {
        seq![s[0]] + replace(s.drop_first(), from, to)
    }
}

/// `str::replace` on character vectors, for a non-empty pattern.
pub fn replace_vec(s: &[char], from: &[char], to: &[char]) -> (r: Vec<char>)
    requires
        from@.len() > 0,
    ensures
        r@ == replace(s@, from@, to@),
{
    let mut r: Vec<char> = Vec::new();
    let mut i: usize = 0;
    assert(s@.subrange(0, s@.len() as int) =~= s@);
    while i < s.len()
        invariant
            i <= s@.len(),
            from@.len() > 0,
            replace(s@, from@, to@) == r@ + replace(s@.subrange(i as int, s@.len() as int), from@, to@),
        decreases s.len() - i,
    {
        let ghost rest = s@.subrange(i as int, s@.len() as int);
        if matches_at(s, from, i) {
            assert(rest.subrange(0, from@.len() as int) =~= from@);
            assert(rest.subrange(from@.len() as int, rest.len() as int) =~= s@.subrange(i + from@.len(), s@.len() as int));
            let mut k: usize = 0;
            let ghost r0 = r@;
            while k < to.len()
                invariant
                    k <= to@.len(),
                    r@ == r0 + to@.subrange(0, k as int),
                decreases to.len() - k,
            {
                r.push(to[k]);
                k += 1;
                assert(r@ =~= r0 + to@.subrange(0, k as int));
            }
            assert(to@.subrange(0, to@.len() as int) =~= to@);
            assert(r@ == r0 + to@);
            assert((r0 + to@) + replace(s@.subrange(i + from@.len(), s@.len() as int), from@, to@)
                =~= r0 + (to@ + replace(s@.subrange(i + from@.len(), s@.len() as int), from@, to@)));
            i += from.len();
        } else {
            proof {
                assert(rest.drop_first() =~= s@.subrange(i + 1, s@.len() as int));
                if rest.len() < from@.len() {
                    assert(replace(rest.drop_first(), from@, to@) == rest.drop_first());
                    assert(rest =~= seq![rest[0]] + rest.drop_first());
                } else {
                    assert(rest.subrange(0, from@.len() as int) =~= s@.subrange(i as int, i + from@.len()));
                    assert(rest.subrange(0, from@.len() as int) != from@);
                }
            }
            let ghost r0 = r@;
            r.push(s[i]);
            assert((r0 + seq![s@[i as int]]) + replace(rest.drop_first(), from@, to@)
                =~= r0 + (seq![s@[i as int]] + replace(rest.drop_first(), from@, to@)));
            i += 1;
        }
    }
    assert(s@.subrange(i as int, s@.len() as int) =~= Seq::<char>::empty());
    assert(r@ + Seq::<char>::empty() =~= r@);
    r
}

// ---------------------------------------------------------------------------
// Splitting and joining.
// ---------------------------------------------------------------------------

/// The views of a vector of character vectors.
pub open spec fn views(v: Seq<Vec<char>>) -> Seq<Seq<char>> {
    v.map_values(|w: Vec<char>| w@)
}

/// The maximal runs of non-whitespace characters of `s`, in order
/// (`str::split_whitespace`).
pub open spec fn split_ws(s: Seq<char>) -> Seq<Seq<char>>
    decreases s.len(),
{
    if s.len() == 0 {
        seq![]
    } else {
        let w = split_ws(s.drop_last());
        if unicode_whitespace(s.last()) {
            w
        } else if s.len() > 1 && !unicode_whitespace(s[s.len() - 2]) {
            w.update(w.len() - 1, w.last().push(s.last()))
        } else {
            w.push(seq![s.last()])
        }
    }
}

/// The pieces of `s` between occurrences of `c` (`str::split(c)`).
pub open spec fn split_on(s: Seq<char>, c: char) -> Seq<Seq<char>>
    decreases s.len(),
{
    if s.len() == 0 {
        seq![seq![]]
    } else {
        let w = split_on(s.drop_last(), c);
        if s.last() == c {
            w.push(seq![])
        } else {
            w.update(w.len() - 1, w.last().push(s.last()))
        }
    }
}

/// A line without the `'\r'` of a `"\r\n"` ending.
pub open spec fn strip_cr(l: Seq<char>) -> Seq<char> {
    if l.len() > 0 && l.last() == '\r' {
        l.drop_last()
    } else {
        l
    }
}

/// The lines of `s` (`str::lines`): pieces between `'\n'`, each ended line
/// without a trailing `'\r'`, and no empty piece after a final `'\n'`.
pub open spec fn lines(s: Seq<char>) -> Seq<Seq<char>> {
    let p = split_on(s, '\n');
    let body = p.drop_last().map_values(|l: Seq<char>| strip_cr(l));
    if p.last().len() == 0 {
        body
    } else {
        body.push(p.last())
    }
}

/// The parts joined with `sep` between neighbours (`slice::join`).
pub open spec fn join(parts: Seq<Seq<char>>, sep: Seq<char>) -> Seq<char>
    decreases parts.len(),
{
    if parts.len() == 0 {
        seq![]
    } else if parts.len() == 1 {
        parts[0]
    } else {
        join(parts.drop_last(), sep) + sep + parts.last()
    }
}

/// How many times `c` occurs in `s`.
pub open spec fn count_char(s: Seq<char>, c: char) -> nat
    decreases s.len(),
{
    if s.len() == 0 {
        0
    } else {
        count_char(s.drop_last(), c) + if s.last() == c { 1nat } else { 0nat }
    }
}

pub proof fn lemma_split_on_nonempty(s: Seq<char>, c: char)
    ensures
        split_on(s, c).len() >= 1,
    decreases s.len(),
{
    if s.len() > 0 {
        lemma_split_on_nonempty(s.drop_last(), c);
    }
}

pub proof fn lemma_split_ws_last(s: Seq<char>)
    requires
        s.len() > 0,
        !unicode_whitespace(s.last()),
    ensures
        split_ws(s).len() >= 1,
    decreases s.len(),
{
    if s.len() > 1 && !unicode_whitespace(s[s.len() - 2]) {
        lemma_split_ws_last(s.drop_last());
    }
}

/// `str::split_whitespace` on a character vector.
pub fn split_ws_vec(s: &[char]) -> (r: Vec<Vec<char>>)
    ensures
        views(r@) == split_ws(s@),
{
    let mut words: Vec<Vec<char>> = Vec::new();
    let mut cur: Vec<char> = Vec::new();
    let mut i: usize = 0;
    let n = s.len();
    while i < n
        invariant
            n == s@.len(),
            i <= n,
            cur@.len() > 0 ==> split_ws(s@.take(i as int)) == views(words@).push(cur@),
            cur@.len() == 0 ==> split_ws(s@.take(i as int)) == views(words@),
            cur@.len() > 0 <==> (i > 0 && !unicode_whitespace(s@[i - 1])),
        decreases n - i,
    {
        let c = s[i];
        let ghost t = s@.take(i + 1);
        assert(t.drop_last() =~= s@.take(i as int));
        assert(t.last() == c);
        if is_whitespace(c) {
            if cur.len() > 0 {
                let w = cur;
                cur = Vec::new();
                let ghost w0 = views(words@);
                words.push(w);
                assert(views(words@) =~= w0.push(w@));
            }
            assert(split_ws(t) == split_ws(s@.take(i as int)));
        } else {
            if cur.len() > 0 {
                let ghost before = views(words@).push(cur@);
                cur.push(c);
                assert(t.len() > 1 && t[t.len() - 2] == s@[i - 1]);
                assert(split_ws(t) == before.update(before.len() - 1, before.last().push(c)));
                assert(before.update(before.len() - 1, before.last().push(c)) =~= views(words@).push(cur@));
            } else {
                cur.push(c);
                assert(cur@ =~= seq![c]);
                assert(split_ws(t) == split_ws(s@.take(i as int)).push(seq![c]));
            }
        }
        i += 1;
    }
    assert(s@.take(n as int) =~= s@);
    if cur.len() > 0 {
        let ghost w0 = views(words@);
        words.push(cur);
        assert(views(words@) =~= w0.push(views(words@).last()));
    }
    words
}

/// `str::split(c)` on a character vector.
pub fn split_on_vec(s: &[char], c: char) -> (r: Vec<Vec<char>>)
    ensures
        views(r@) == split_on(s@, c),
        r@.len() >= 1,
{
    let mut parts: Vec<Vec<char>> = Vec::new();
    let mut cur: Vec<char> = Vec::new();
    let mut i: usize = 0;
    let n = s.len();
    assert(s@.take(0) =~= Seq::<char>::empty());
    while i < n
        invariant
            n == s@.len(),
            i <= n,
            split_on(s@.take(i as int), c) == views(parts@).push(cur@),
        decreases n - i,
    {
        let d = s[i];
        let ghost t = s@.take(i + 1);
        assert(t.drop_last() =~= s@.take(i as int));
        if d == c {
            let w = cur;
            cur = Vec::new();
            let ghost w0 = views(parts@);
            parts.push(w);
            assert(views(parts@) =~= w0.push(w@));
            assert(cur@ =~= Seq::<char>::empty());
        } else {
            let ghost before = views(parts@).push(cur@);
            cur.push(d);
            assert(before.update(before.len() - 1, before.last().push(d)) =~= views(parts@).push(cur@));
        }
        i += 1;
    }
    assert(s@.take(n as int) =~= s@);
    let ghost w0 = views(parts@);
    parts.push(cur);
    assert(views(parts@) =~= w0.push(views(parts@).last()));
    parts
}

/// `str::lines` on a character vector.
pub fn lines_vec(s: &[char]) -> (r: Vec<Vec<char>>)
    ensures
        views(r@) == lines(s@),
{
    let p = split_on_vec(s, '\n');
    let ghost pv = split_on(s@, '\n');
    let ghost body = pv.drop_last().map_values(|l: Seq<char>| strip_cr(l));
    let mut r: Vec<Vec<char>> = Vec::new();
    let mut i: usize = 0;
    let last = p.len() - 1;
    while i < last
        invariant
            views(p@) == pv,
            pv.len() == p@.len(),
            body == pv.drop_last().map_values(|l: Seq<char>| strip_cr(l)),
            last == p@.len() - 1,
            i <= last,
            views(r@) == body.take(i as int),
        decreases last - i,
    {
        let l = &p[i];
        assert(l@ == pv[i as int]);
        let m = l.len();
        let piece = if m > 0 && l[m - 1] == '\r' {
            slice_vec(l, 0, m - 1)
        } else {
            slice_vec(l, 0, m)
        };
        proof {
            assert(l@.subrange(0, m as int) =~= l@);
            if m > 0 && l@[m - 1] == '\r' {
                assert(l@.drop_last() =~= l@.subrange(0, m - 1));
            }
            assert(piece@ == strip_cr(pv[i as int]));
        }
        let ghost r0 = views(r@);
        r.push(piece);
        assert(views(r@) =~= r0.push(piece@));
        assert(pv.drop_last()[i as int] == pv[i as int]);
        assert(body[i as int] == strip_cr(pv[i as int]));
        assert(views(r@) =~= body.take(i + 1));
        i += 1;
    }
    assert(body.take(last as int) =~= body);
    if p[last].len() > 0 {
        let q = slice_vec(&p[last], 0, p[last].len());
        assert(q@ =~= pv.last());
        let ghost r0 = views(r@);
        r.push(q);
        assert(views(r@) =~= r0.push(pv.last()));
    }
    r
}

/// `slice::join(sep)` on character vectors.
pub fn join_vec(parts: &Vec<Vec<char>>, sep: &[char]) -> (r: Vec<char>)
    ensures
        r@ == join(views(parts@), sep@),
{
    let mut r: Vec<char> = Vec::new();
    let mut i: usize = 0;
    while i < parts.len()
        invariant
            i <= parts@.len(),
            r@ == join(views(parts@).take(i as int), sep@),
        decreases parts.len() - i,
    {
        let ghost t = views(parts@).take(i + 1);
        assert(t.drop_last() =~= views(parts@).take(i as int));
        if i > 0 {
            append_slice(&mut r, sep);
        }
        append_slice(&mut r, &parts[i]);
        proof {
            if i == 0 {
                assert(r@ =~= t[0]);
            }
        }
        i += 1;
    }
    assert(views(parts@).take(parts@.len() as int) =~= views(parts@));
    r
}

/// `slice::join` on strings.
pub fn join_strings(parts: &Vec<String>, sep: &str) -> (r: String)
    ensures
        r@ == join(string_views(parts@), sep@),
{
    let mut r = String::new();
    let mut i: usize = 0;
    while i < parts.len()
        invariant
            i <= parts@.len(),
            r@ == join(string_views(parts@).take(i as int), sep@),
        decreases parts.len() - i,
    {
        let ghost t = string_views(parts@).take(i + 1);
        assert(t.drop_last() =~= string_views(parts@).take(i as int));
        assert(t.last() == parts@[i as int]@);
        if i > 0 {
            push_str(&mut r, sep);
        }
        push_str(&mut r, parts[i].as_str());
        proof {
            if i == 0 {
                assert(r@ =~= t[0]);
            }
        }
        i += 1;
    }
    assert(string_views(parts@).take(parts@.len() as int) =~= string_views(parts@));
    r
}

/// Appends the characters of the string `t` to `r`.
pub fn append_str(r: &mut Vec<char>, t: &str)
    ensures
        final(r)@ == old(r)@ + t@,
{
    let v = chars_of(t);
    append_slice(r, &v);
}

/// Appends the characters of `t` to `r`.
pub fn append_slice(r: &mut Vec<char>, t: &[char])
    ensures
        final(r)@ == old(r)@ + t@,
{
    let mut k: usize = 0;
    let ghost r0 = r@;
    while k < t.len()
        invariant
            k <= t@.len(),
            r@ == r0 + t@.take(k as int),
        decreases t.len() - k,
    {
        r.push(t[k]);
        k += 1;
        assert(r@ =~= r0 + t@.take(k as int));
    }
    assert(t@.take(t@.len() as int) =~= t@);
}

/// How many times `c` occurs in `s`.
pub fn count_char_vec(s: &[char], c: char) -> (n: usize)
    ensures
        n == count_char(s@, c),
{
    let mut n: usize = 0;
    let mut i: usize = 0;
    while i < s.len()
        invariant
            i <= s@.len(),
            n == count_char(s@.take(i as int), c),
            n <= i,
        decreases s.len() - i,
    {
        assert(s@.take(i + 1).drop_last() =~= s@.take(i as int));
        if s[i] == c {
            n += 1;
        }
        i += 1;
    }
    assert(s@.take(s@.len() as int) =~= s@);
    n
}

/// The Unicode lowercase of a character vector.
pub fn lowercase_vec(s: &[char]) -> (r: Vec<char>)
    ensures
        r@ == unicode_lowercase(s@),
{
    let st = string_of(s);
    let low = to_lowercase(st.as_str());
    chars_of(low.as_str())
}

/// `str::trim_matches(x)` for one character, on a character vector.
pub fn trim_char_vec(s: &[char], x: char) -> (r: Vec<char>)
    ensures
        r@ == trim_char(s@, x),
{
    let n = s.len();
    let mut a: usize = 0;
    assert(s@.subrange(0, n as int) =~= s@);
    while a < n && s[a] == x
        invariant
            n == s@.len(),
            a <= n,
            strip_start(s@, eq_pred(x)) == strip_start(s@.subrange(a as int, n as int), eq_pred(x)),
        decreases n - a,
    {
        proof { lemma_strip_start_step(s@, eq_pred(x), a as int); }
        a += 1;
    }
    let ghost t = s@.subrange(a as int, n as int);
    assert(t.len() > 0 ==> t[0] == s@[a as int]);
    let mut j: usize = n;
    assert(t.subrange(0, t.len() as int) =~= t);
    while j > a && s[j - 1] == x
        invariant
            n == s@.len(),
            a <= j <= n,
            t == s@.subrange(a as int, n as int),
            a < n ==> s@[a as int] != x,
            strip_end(t, eq_pred(x)) == strip_end(t.subrange(0, j - a), eq_pred(x)),
        decreases j,
    {
        proof { lemma_strip_end_step(t, eq_pred(x), j - a); }
        j -= 1;
    }
    assert(t.subrange(0, j - a) =~= s@.subrange(a as int, j as int));
    slice_vec(s, a, j)
}

// ---------------------------------------------------------------------------
// UTF-8 lengths (`str::len` counts bytes).
// ---------------------------------------------------------------------------

/// The number of bytes of the UTF-8 encoding of `c`.
pub open spec fn char_width(c: char) -> nat {
    let v = c as u32;
    if v <= 0x7F {
        1
    } else if v <= 0x7FF {
        2
    } else if v <= 0xFFFF {
        3
    } else {
        4
    }
}

/// The number of bytes of the UTF-8 encoding of `s`.
pub open spec fn utf8_len(s: Seq<char>) -> nat
    decreases s.len(),
{
    if s.len() == 0 {
        0
    } else {
        utf8_len(s.drop_last()) + char_width(s.last())
    }
}

pub proof fn lemma_utf8_len_front(s: Seq<char>)
    requires
        s.len() > 0,
    ensures
        utf8_len(s) == char_width(s[0]) + utf8_len(s.drop_first()),
    decreases s.len(),
{
    if s.len() > 1 {
        lemma_utf8_len_front(s.drop_last());
        assert(s.drop_last().drop_first() =~= s.drop_first().drop_last());
    } else {
        assert(s.drop_first() =~= Seq::<char>::empty());
        assert(s.drop_last() =~= Seq::<char>::empty());
    }
}

pub proof fn lemma_utf8_len_concat(a: Seq<char>, b: Seq<char>)
    ensures
        utf8_len(a + b) == utf8_len(a) + utf8_len(b),
    decreases b.len(),
{
    if b.len() == 0 {
        assert(a + b =~= a);
    } else {
        lemma_utf8_len_concat(a, b.drop_last());
        assert((a + b).drop_last() =~= a + b.drop_last());
    }
}

/// `str::len` of a string is `utf8_len` of its characters.
pub proof fn lemma_str_len(s: Seq<char>)
    ensures
        vstd::utf8::encode_utf8(s).len() == utf8_len(s),
    decreases s.len(),
{
    if s.len() > 0 {
        lemma_str_len(s.drop_first());
        lemma_utf8_len_front(s);
        vstd::utf8::char_is_scalar(s[0]);
    }
}

/// The number of bytes of the UTF-8 encoding of `c` (`char::len_utf8`).
pub fn char_width_exec(c: char) -> (w: usize)
    ensures
        w == char_width(c),
{
    let v = c as u32;
    if v <= 0x7F {
        1
    } else if v <= 0x7FF {
        2
    } else if v <= 0xFFFF {
        3
    } else {
        4
    }
}

/// The byte length of the first `k` characters of `s`, if it does not exceed
/// `bound`; otherwise `None`.
pub fn utf8_len_upto(s: &[char], k: usize, bound: usize) -> (r: Option<usize>)
    requires
        k <= s@.len(),
    ensures
        match r {
            Some(n) => n == utf8_len(s@.take(k as int)) && n <= bound,
            None => utf8_len(s@.take(k as int)) > bound,
        },
{
    let mut n: usize = 0;
    let mut i: usize = 0;
    while i < k
        invariant
            k <= s@.len(),
            i <= k,
            n == utf8_len(s@.take(i as int)),
            n <= bound,
        decreases k - i,
    {
        assert(s@.take(i + 1).drop_last() =~= s@.take(i as int));
        let w = char_width_exec(s[i]);
        if w > bound - n {
            proof { lemma_utf8_len_prefix_mono(s@, i + 1, k as int); }
            return None;
        }
        n = n + w;
        i += 1;
    }
    Some(n)
}

pub proof fn lemma_utf8_len_prefix_mono(s: Seq<char>, i: int, j: int)
    requires
        0 <= i <= j <= s.len(),
    ensures
        utf8_len(s.take(i)) <= utf8_len(s.take(j)),
    decreases j - i,
{
    if i < j {
        lemma_utf8_len_prefix_mono(s, i, j - 1);
        assert(s.take(j).drop_last() =~= s.take(j - 1));
    }
}

// ---------------------------------------------------------------------------
// Replacing until no occurrence is left.
// ---------------------------------------------------------------------------

/// `replace` applied `k` times.
pub open spec fn replace_iter(s: Seq<char>, from: Seq<char>, to: Seq<char>, k: nat) -> Seq<char>
    decreases k,
{
    if k == 0 {
        s
    } else {
        replace(replace_iter(s, from, to, (k - 1) as nat), from, to)
    }
}

/// `k` is the least number of rounds of `replace` after which `from` no
/// longer occurs.
pub open spec fn is_collapse_steps(s: Seq<char>, from: Seq<char>, to: Seq<char>, k: nat) -> bool {
    &&& !has_match(replace_iter(s, from, to, k), from)
    &&& forall|j: nat| j < k ==> has_match(#[trigger] replace_iter(s, from, to, j), from)
}

/// The result of `while s.contains(from) { s = s.replace(from, to) }`.
pub open spec fn collapse(s: Seq<char>, from: Seq<char>, to: Seq<char>) -> Seq<char> {
    replace_iter(s, from, to, choose|k: nat| is_collapse_steps(s, from, to, k))
}

pub proof fn lemma_collapse_unique(s: Seq<char>, from: Seq<char>, to: Seq<char>, k: nat)
    requires
        is_collapse_steps(s, from, to, k),
    ensures
        collapse(s, from, to) == replace_iter(s, from, to, k),
{
    let c = choose|k: nat| is_collapse_steps(s, from, to, k);
    assert(is_collapse_steps(s, from, to, c));
    if c < k {
        assert(has_match(replace_iter(s, from, to, c), from));
    } else if k < c {
        assert(has_match(replace_iter(s, from, to, k), from));
    }
}

proof fn lemma_match_shift(s: Seq<char>, pat: Seq<char>, i: int)
    requires
        s.len() > 0,
        i >= 1,
        is_match_at(s, pat, i),
    ensures
        is_match_at(s.drop_first(), pat, i - 1),
{
    assert(s.drop_first().subrange(i - 1, i - 1 + pat.len()) =~= s.subrange(i, i + pat.len()));
}

/// Replacing with something no longer never lengthens; it shortens when
/// there is an occurrence and the replacement is shorter.
pub proof fn lemma_replace_len(s: Seq<char>, from: Seq<char>, to: Seq<char>)
    requires
        from.len() > 0,
        to.len() <= from.len(),
    ensures
        replace(s, from, to).len() <= s.len(),
        has_match(s, from) && to.len() < from.len() ==> replace(s, from, to).len() < s.len(),
    decreases s.len(),
{
    if s.len() < from.len() {
        if has_match(s, from) {
            let i = choose|i: int| is_match_at(s, from, i);
        }
    } else if s.subrange(0, from.len() as int) == from {
        lemma_replace_len(s.subrange(from.len() as int, s.len() as int), from, to);
    } else {
        lemma_replace_len(s.drop_first(), from, to);
        if has_match(s, from) {
            let i = choose|i: int| is_match_at(s, from, i);
            if i == 0 {
                assert(false);
            }
            lemma_match_shift(s, from, i);
            assert(is_match_at(s.drop_first(), from, i - 1));
        }
    }
}

/// Replaces `from` by `to` until `from` no longer occurs.
pub fn collapse_vec(s: &[char], from: &[char], to: &[char]) -> (r: Vec<char>)
    requires
        to@.len() < from@.len(),
    ensures
        r@ == collapse(s@, from@, to@),
{
    let mut r = slice_vec(s, 0, s.len());
    assert(s@.subrange(0, s@.len() as int) =~= s@);
    let ghost mut k: nat = 0;
    while contains(&r, from)
        invariant
            to@.len() < from@.len(),
            r@ == replace_iter(s@, from@, to@, k),
            forall|j: nat| j < k ==> has_match(#[trigger] replace_iter(s@, from@, to@, j), from@),
        decreases r@.len(),
    {
        proof { lemma_replace_len(r@, from@, to@); }
        let ghost old_k = k;
        r = replace_vec(&r, from, to);
        proof {
            k = k + 1;
            assert forall|j: nat| j < k implies has_match(#[trigger] replace_iter(s@, from@, to@, j), from@) by {
                if j == old_k {
                } 
            }
        }
    }
    proof { lemma_collapse_unique(s@, from@, to@, k); }
    r
}

// ---------------------------------------------------------------------------
// Last occurrence, filtering, character maps.
// ---------------------------------------------------------------------------

/// The index of the last occurrence of `pat` in `s` (`str::rfind`).
pub open spec fn last_match(s: Seq<char>, pat: Seq<char>) -> Option<int> {
    if has_match(s, pat) {
        Some(choose|i: int| is_match_at(s, pat, i) && forall|j: int| i < j ==> !#[trigger] is_match_at(s, pat, j))
    } else {
        None
    }
}

/// The index of the first occurrence of `pat` in `s` (`str::find`).
#[verifier::opaque]
pub open spec fn first_match(s: Seq<char>, pat: Seq<char>) -> Option<int> {
    if has_match(s, pat) {
        Some(choose|i: int| is_match_at(s, pat, i) && forall|j: int| j < i ==> !#[trigger] is_match_at(s, pat, j))
    } else {
        None
    }
}

pub proof fn lemma_last_match(s: Seq<char>, pat: Seq<char>, i: int)
    requires
        is_match_at(s, pat, i),
        forall|j: int| i < j ==> !#[trigger] is_match_at(s, pat, j),
    ensures
        last_match(s, pat) == Some(i),
{
    assert(has_match(s, pat));
    let c = choose|c: int| is_match_at(s, pat, c) && forall|j: int| c < j ==> !#[trigger] is_match_at(s, pat, j);
    assert(is_match_at(s, pat, c) && forall|j: int| c < j ==> !#[trigger] is_match_at(s, pat, j));
    if c < i {
        assert(!is_match_at(s, pat, i));
    } else if i < c {
        assert(!is_match_at(s, pat, c));
    }
}

pub proof fn lemma_first_match(s: Seq<char>, pat: Seq<char>, i: int)
    requires
        is_match_at(s, pat, i),
        forall|j: int| j < i ==> !#[trigger] is_match_at(s, pat, j),
    ensures
        first_match(s, pat) == Some(i),
{
    reveal(first_match);
    assert(has_match(s, pat));
    let c = choose|c: int| is_match_at(s, pat, c) && forall|j: int| j < c ==> !#[trigger] is_match_at(s, pat, j);
    assert(is_match_at(s, pat, c) && forall|j: int| j < c ==> !#[trigger] is_match_at(s, pat, j));
    if c < i {
        assert(!is_match_at(s, pat, c));
    } else if i < c {
        assert(!is_match_at(s, pat, i));
    }
}

/// The first occurrence of `pat` in `s`, as `first_match` states it.
pub fn find_first(s: &[char], pat: &[char]) -> (r: Option<usize>)
    ensures
        match r {
            Some(i) => first_match(s@, pat@) == Some(i as int) && is_match_at(s@, pat@, i as int),
            None => first_match(s@, pat@) is None,
        },
{
    let r = find_from(s, pat, 0);
    match r {
        Some(i) => {
            proof {
                assert forall|j: int| j < i implies !#[trigger] is_match_at(s@, pat@, j) by {
                    if j < 0 {
                    }
                }
                lemma_first_match(s@, pat@, i as int);
            }
        },
        None => {
            assert forall|j: int| !#[trigger] is_match_at(s@, pat@, j) by {
                if j < 0 {
                }
            }
            reveal(first_match);
        },
    }
    r
}

/// The last occurrence of `pat` in `s`, as `last_match` states it.
pub fn find_last(s: &[char], pat: &[char]) -> (r: Option<usize>)
    ensures
        match r {
            Some(i) => last_match(s@, pat@) == Some(i as int) && is_match_at(s@, pat@, i as int),
            None => last_match(s@, pat@) is None,
        },
{
    let r = rfind(s, pat);
    match r {
        Some(i) => {
            proof { lemma_last_match(s@, pat@, i as int); }
        },
        None => {},
    }
    r
}

/// The elements of `ps` that satisfy `p`, in order.
pub open spec fn filter_seqs(ps: Seq<Seq<char>>, p: spec_fn(Seq<char>) -> bool) -> Seq<Seq<char>>
    decreases ps.len(),
{
    if ps.len() == 0 {
        seq![]
    } else {
        let r = filter_seqs(ps.drop_last(), p);
        if p(ps.last()) {
            r.push(ps.last())
        } else {
            r
        }
    }
}

/// The characters of `s` that satisfy `p`, in order.
pub open spec fn filter_chars(s: Seq<char>, p: spec_fn(char) -> bool) -> Seq<char>
    decreases s.len(),
{
    if s.len() == 0 {
        seq![]
    } else {
        let r = filter_chars(s.drop_last(), p);
        if p(s.last()) {
            r.push(s.last())
        } else {
            r
        }
    }
}

// ---------------------------------------------------------------------------
// Equality and membership.
// ---------------------------------------------------------------------------

/// Whether two character sequences are equal.
pub fn eq_chars(a: &[char], b: &[char]) -> (r: bool)
    ensures
        r == (a@ == b@),
{
    if a.len() != b.len() {
        return false;
    }
    let r = matches_at(a, b, 0);
    proof {
        if r {
            assert(a@.subrange(0, b@.len() as int) =~= a@);
        } else {
            assert(a@.subrange(0, b@.len() as int) =~= a@);
        }
    }
    r
}

/// The views of a vector of strings.
pub open spec fn string_views(v: Seq<String>) -> Seq<Seq<char>> {
    v.map_values(|s: String| s@)
}

/// Whether `s` is one of the strings in `v`.
pub fn contains_string(v: &Vec<String>, s: &String) -> (r: bool)
    ensures
        r == string_views(v@).contains(s@),
{
    let mut i: usize = 0;
    while i < v.len()
        invariant
            i <= v@.len(),
            forall|j: int| 0 <= j < i ==> v@[j]@ != s@,
        decreases v.len() - i,
    {
        if v[i] == *s {
            assert(string_views(v@)[i as int] == s@);
            return true;
        }
        i += 1;
    }
    assert forall|j: int| 0 <= j < string_views(v@).len() implies string_views(v@)[j] != s@ by {
        assert(string_views(v@)[j] == v@[j]@);
    }
    false
}

/// The characters of `s` for which `keep` holds, where `keep` decides
/// `p` exactly.
pub(crate) fn keep_views(v: &Vec<Vec<char>>, p: Ghost<spec_fn(Seq<char>) -> bool>, keep: Vec<bool>) -> (r: Vec<Vec<char>>)
    requires
        keep@.len() == v@.len(),
        forall|i: int| 0 <= i < v@.len() ==> keep@[i] == p@(#[trigger] v@[i]@),
    ensures
        views(r@) == filter_seqs(views(v@), p@),
{
    let mut r: Vec<Vec<char>> = Vec::new();
    let mut i: usize = 0;
    while i < v.len()
        invariant
            i <= v@.len(),
            keep@.len() == v@.len(),
            forall|k: int| 0 <= k < v@.len() ==> keep@[k] == p@(#[trigger] v@[k]@),
            views(r@) == filter_seqs(views(v@).take(i as int), p@),
        decreases v.len() - i,
    {
        let ghost t = views(v@).take(i + 1);
        assert(t.drop_last() =~= views(v@).take(i as int));
        assert(t.last() == v@[i as int]@);
        if keep[i] {
            let w = slice_vec(&v[i], 0, v[i].len());
            assert(v@[i as int]@.subrange(0, v@[i as int]@.len() as int) =~= v@[i as int]@);
            let ghost r0 = views(r@);
            r.push(w);
            assert(views(r@) =~= r0.push(w@));
        }
        i += 1;
    }
    assert(views(v@).take(v@.len() as int) =~= views(v@));
    r
}

/// `str::split(pat)` for a non-empty pattern: the pieces between the
/// occurrences of `pat` found from left to right.
#[verifier::opaque]
pub open spec fn split_pat(s: Seq<char>, pat: Seq<char>) -> Seq<Seq<char>>
    decreases s.len(),
{
    match first_match(s, pat) {
        Some(i) => if pat.len() > 0 && 0 <= i && i + pat.len() <= s.len() {
            seq![s.take(i)] + split_pat(s.skip(i + pat.len()), pat)
        } else {
            seq![s]
        },
        None => seq![s],
    }
}

/// One step of `split_pat`: the piece before the first match, then the rest.
pub(crate) proof fn lemma_split_pat_step(s: Seq<char>, pat: Seq<char>, k: int)
    requires
        pat.len() > 0,
        first_match(s, pat) == Some(k),
        is_match_at(s, pat, k),
    ensures
        split_pat(s, pat) == seq![s.take(k)] + split_pat(s.skip(k + pat.len()), pat),
{
    reveal(split_pat);
    reveal(first_match);
}

/// The last step of `split_pat`: without a match the rest is one piece.
proof fn lemma_split_pat_last(s: Seq<char>, pat: Seq<char>)
    requires
        first_match(s, pat) is None,
    ensures
        split_pat(s, pat) == seq![s],
{
    reveal(split_pat);
    reveal(first_match);
}

/// `str::split(pat)` on characters, for a non-empty pattern.
pub fn split_pat_vec(s: &[char], pat: &[char]) -> (r: Vec<Vec<char>>)
    requires
        pat@.len() > 0,
    ensures
        views(r@) == split_pat(s@, pat@),
{
    let mut r: Vec<Vec<char>> = Vec::new();
    let mut rest = slice_vec(s, 0, s.len());
    assert(rest@ =~= s@);
    loop
        invariant
            pat@.len() > 0,
            split_pat(s@, pat@) == views(r@) + split_pat(rest@, pat@),
        decreases rest@.len(),
    {
        match find_first(&rest, pat) {
            Some(k) => {
                let piece = slice_vec(&rest, 0, k);
                assert(is_match_at(rest@, pat@, k as int));
                let m = pat.len();
                let n = rest.len();
                assert(k + m <= n);
                let next = slice_vec(&rest, k + m, n);
                proof {
                    lemma_split_pat_step(rest@, pat@, k as int);
                    assert(piece@ =~= rest@.take(k as int));
                    assert(next@ =~= rest@.skip(k + pat@.len()));
                }
                let ghost r0 = views(r@);
                let ghost tail = split_pat(next@, pat@);
                r.push(piece);
                assert(views(r@) =~= r0.push(piece@));
                assert(views(r@) + tail =~= r0 + (seq![piece@] + tail));
                rest = next;
            },
            None => {
                let ghost r0 = views(r@);
                proof {
                    lemma_split_pat_last(rest@, pat@);
                }
                r.push(rest);
                assert(views(r@) =~= r0 + seq![r@.last()@]);
                return r;
            },
        }
    }
}

/// A contiguous piece of `s` has no more bytes than `s`.
pub proof fn lemma_utf8_subrange_le(s: Seq<char>, i: int, j: int)
    requires
        0 <= i <= j <= s.len(),
    ensures
        utf8_len(s.subrange(i, j)) <= utf8_len(s),
{
    let a = s.take(i);
    let m = s.subrange(i, j);
    let z = s.skip(j);
    assert(s =~= a + m + z);
    lemma_utf8_len_concat(a + m, z);
    lemma_utf8_len_concat(a, m);
}

/// Stripping never adds bytes.
pub proof fn lemma_strip_utf8_le(s: Seq<char>, p: spec_fn(char) -> bool)
    ensures
        utf8_len(strip_start(s, p)) <= utf8_len(s),
        utf8_len(strip_end(s, p)) <= utf8_len(s),
    decreases s.len(),
{
    if s.len() > 0 {
        lemma_strip_utf8_le(s.drop_first(), p);
        lemma_strip_utf8_le(s.drop_last(), p);
        lemma_utf8_len_front(s);
    }
}

/// Trimming never adds bytes.
pub proof fn lemma_trim_utf8_le(s: Seq<char>)
    ensures
        utf8_len(trim(s)) <= utf8_len(s),
{
    lemma_strip_utf8_le(s, ws_pred());
    lemma_strip_utf8_le(strip_start(s, ws_pred()), ws_pred());
}

/// Every piece of `split_pat` has no more bytes than `s`.
pub proof fn lemma_split_pat_utf8_le(s: Seq<char>, pat: Seq<char>)
    requires
        pat.len() > 0,
    ensures
        forall|k: int| 0 <= k < split_pat(s, pat).len() ==> utf8_len(#[trigger] split_pat(s, pat)[k]) <= utf8_len(s),
    decreases s.len(),
{
    reveal(split_pat);
    reveal(first_match);
    match first_match(s, pat) {
        Some(i) => {
            if pat.len() > 0 && 0 <= i && i + pat.len() <= s.len() {
                let rest = s.skip(i + pat.len());
                lemma_split_pat_utf8_le(rest, pat);
                lemma_utf8_subrange_le(s, 0, i);
                lemma_utf8_subrange_le(s, i + pat.len(), s.len() as int);
                assert(s.take(i) =~= s.subrange(0, i));
                assert(rest =~= s.subrange(i + pat.len(), s.len() as int));
                let ps = split_pat(s, pat);
                assert(ps == seq![s.take(i)] + split_pat(rest, pat));
                assert forall|k: int| 0 <= k < ps.len() implies utf8_len(#[trigger] ps[k]) <= utf8_len(s) by {
                    if k > 0 {
                        assert(ps[k] == split_pat(rest, pat)[k - 1]);
                    }
                }
            }
        },
        None => {},
    }
}

/// Every piece of `split_on` has no more bytes than `s`, and the last one
/// ends `s`.
pub proof fn lemma_split_on_utf8_le(s: Seq<char>, c: char)
    ensures
        split_on(s, c).len() >= 1,
        split_on(s, c).last().len() <= s.len(),
        split_on(s, c).last() == s.subrange(s.len() - split_on(s, c).last().len(), s.len() as int),
        forall|k: int| 0 <= k < split_on(s, c).len() ==> utf8_len(#[trigger] split_on(s, c)[k]) <= utf8_len(s),
    decreases s.len(),
{
    if s.len() == 0 {
        assert(s.subrange(0, 0) =~= Seq::<char>::empty());
    } else {
        let d = s.drop_last();
        lemma_split_on_utf8_le(d, c);
        assert(s.take(s.len() - 1) =~= d);
        lemma_utf8_len_prefix_mono(s, s.len() - 1, s.len() as int);
        assert(s.take(s.len() as int) =~= s);
        let w = split_on(d, c);
        let ps = split_on(s, c);
        if s.last() == c {
            assert(s.subrange(s.len() as int, s.len() as int) =~= Seq::<char>::empty());
            assert forall|k: int| 0 <= k < ps.len() implies utf8_len(#[trigger] ps[k]) <= utf8_len(s) by {
                if k < w.len() {
                    assert(ps[k] == w[k]);
                }
            }
        } else {
            let m = w.last().len();
            assert(ps.last() =~= s.subrange(s.len() - 1 - m, s.len() as int));
            lemma_utf8_subrange_le(s, s.len() - 1 - m, s.len() as int);
            assert forall|k: int| 0 <= k < ps.len() implies utf8_len(#[trigger] ps[k]) <= utf8_len(s) by {
                if k < w.len() - 1 {
                    assert(ps[k] == w[k]);
                }
            }
        }
    }
}

// ---------------------------------------------------------------------------
// Byte offsets and character indices.
// ---------------------------------------------------------------------------

/// The index of the character that begins at byte `b` of `s` (or `s.len()`
/// for the end of `s`); `None` where `b` is not on a character boundary.
pub open spec fn char_index_at(s: Seq<char>, b: int) -> Option<int> {
    if exists|k: int| 0 <= k <= s.len() && #[trigger] utf8_len(s.take(k)) == b {
        Some(choose|k: int| 0 <= k <= s.len() && #[trigger] utf8_len(s.take(k)) == b)
    } else {
        None
    }
}

/// Longer prefixes have strictly more bytes.
pub proof fn lemma_utf8_prefix_strict(s: Seq<char>, i: int, j: int)
    requires
        0 <= i < j <= s.len(),
    ensures
        utf8_len(s.take(i)) < utf8_len(s.take(j)),
    decreases j - i,
{
    assert(s.take(j).drop_last() =~= s.take(j - 1));
    if i < j - 1 {
        lemma_utf8_prefix_strict(s, i, j - 1);
    }
}

/// A prefix length that hits `b` exactly names the character at `b`.
pub proof fn lemma_char_index_hit(s: Seq<char>, b: int, k: int)
    requires
        0 <= k <= s.len(),
        utf8_len(s.take(k)) == b,
    ensures
        char_index_at(s, b) == Some(k),
{
    assert(exists|x: int| 0 <= x <= s.len() && #[trigger] utf8_len(s.take(x)) == b);
    let c = choose|x: int| 0 <= x <= s.len() && #[trigger] utf8_len(s.take(x)) == b;
    if c < k {
        lemma_utf8_prefix_strict(s, c, k);
    } else if k < c {
        lemma_utf8_prefix_strict(s, k, c);
    }
}

/// A byte offset strictly inside the encoding of character `k - 1` is no
/// boundary.
pub proof fn lemma_char_index_miss(s: Seq<char>, b: int, k: int)
    requires
        0 < k <= s.len(),
        utf8_len(s.take(k - 1)) < b < utf8_len(s.take(k)),
    ensures
        char_index_at(s, b) is None,
{
    assert forall|x: int| 0 <= x <= s.len() implies #[trigger] utf8_len(s.take(x)) != b by {
        if x < k - 1 {
            lemma_utf8_prefix_strict(s, x, k - 1);
        } else if x > k {
            lemma_utf8_prefix_strict(s, k, x);
        }
    }
}

/// The character index at byte offset `b` of `s` (`char_index_at`).
pub fn byte_to_char_index(s: &[char], b: usize) -> (r: Option<usize>)
    ensures
        match r {
            Some(k) => char_index_at(s@, b as int) == Some(k as int),
            None => char_index_at(s@, b as int) is None,
        },
{
    let n = s.len();
    let mut k: usize = 0;
    let mut pos: usize = 0;
    assert(s@.take(0) =~= Seq::<char>::empty());
    while pos < b && k < n
        invariant
            n == s@.len(),
            k <= n,
            pos <= b,
            utf8_len(s@.take(k as int)) == pos,
            k > 0 ==> utf8_len(s@.take(k - 1)) < b,
        decreases n - k,
    {
        assert(s@.take(k + 1).drop_last() =~= s@.take(k as int));
        assert(s@.take(k + 1).last() == s@[k as int]);
        let w = char_width_exec(s[k]);
        if w > b - pos {
            proof {
                lemma_char_index_miss(s@, b as int, k + 1);
            }
            return None;
        }
        pos = pos + w;
        k = k + 1;
    }
    if pos == b {
        proof {
            lemma_char_index_hit(s@, b as int, k as int);
        }
        Some(k)
    } else {
        proof {
            assert(s@.take(n as int) =~= s@);
            assert forall|x: int| 0 <= x <= s@.len() implies #[trigger] utf8_len(s@.take(x)) != b by {
                if x < k {
                    lemma_utf8_prefix_strict(s@, x, k as int);
                }
            }
        }
        None
    }
}

// ---------------------------------------------------------------------------
// The next occurrence at or after a position.
// ---------------------------------------------------------------------------

/// The first index at or after `from` where `pat` occurs in `s`
/// (`s[from..].find(pat)`, counted from the start of `s`).
#[verifier::opaque]
pub open spec fn next_match(s: Seq<char>, pat: Seq<char>, from: int) -> Option<int> {
    if exists|i: int| from <= i && #[trigger] is_match_at(s, pat, i) {
        Some(choose|i: int| from <= i && is_match_at(s, pat, i) && forall|j: int| from <= j < i ==> !#[trigger] is_match_at(s, pat, j))
    } else {
        None
    }
}

pub proof fn lemma_next_match_hit(s: Seq<char>, pat: Seq<char>, from: int, i: int)
    requires
        from <= i,
        is_match_at(s, pat, i),
        forall|j: int| from <= j < i ==> !#[trigger] is_match_at(s, pat, j),
    ensures
        next_match(s, pat, from) == Some(i),
{
    reveal(next_match);
    let c = choose|c: int| from <= c && is_match_at(s, pat, c) && forall|j: int| from <= j < c ==> !#[trigger] is_match_at(s, pat, j);
    assert(from <= c && is_match_at(s, pat, c) && forall|j: int| from <= j < c ==> !#[trigger] is_match_at(s, pat, j));
    if c < i {
        assert(!is_match_at(s, pat, c));
    } else if i < c {
        assert(!is_match_at(s, pat, i));
    }
}

proof fn lemma_least_match_exists(s: Seq<char>, pat: Seq<char>, from: int, i: int)
    requires
        from <= i,
        is_match_at(s, pat, i),
    ensures
        exists|m: int| from <= m && is_match_at(s, pat, m) && forall|j: int| from <= j < m ==> !#[trigger] is_match_at(s, pat, j),
    decreases i - from,
{
    if exists|j: int| from <= j < i && #[trigger] is_match_at(s, pat, j) {
        let j = choose|j: int| from <= j < i && #[trigger] is_match_at(s, pat, j);
        lemma_least_match_exists(s, pat, from, j);
    } else {
        assert(forall|j: int| from <= j < i ==> !#[trigger] is_match_at(s, pat, j));
    }
}

pub proof fn lemma_next_match_facts(s: Seq<char>, pat: Seq<char>, from: int)
    ensures
        match next_match(s, pat, from) {
            Some(i) => from <= i && is_match_at(s, pat, i) && forall|j: int| from <= j < i ==> !#[trigger] is_match_at(s, pat, j),
            None => forall|j: int| from <= j ==> !#[trigger] is_match_at(s, pat, j),
        },
{
    reveal(next_match);
    if exists|i: int| from <= i && #[trigger] is_match_at(s, pat, i) {
        let i = choose|i: int| from <= i && #[trigger] is_match_at(s, pat, i);
        lemma_least_match_exists(s, pat, from, i);
    }
}

/// `next_match` on character vectors.
pub fn find_next(s: &[char], pat: &[char], from: usize) -> (r: Option<usize>)
    ensures
        match r {
            Some(i) => next_match(s@, pat@, from as int) == Some(i as int) && from <= i
                && is_match_at(s@, pat@, i as int),
            None => next_match(s@, pat@, from as int) is None,
        },
{
    let r = find_from(s, pat, from);
    match r {
        Some(i) => {
            proof { lemma_next_match_hit(s@, pat@, from as int, i as int); }
        },
        None => {
            proof { reveal(next_match); }
        },
    }
    r
}

// ---------------------------------------------------------------------------
// Counting characters through a replacement.
// ---------------------------------------------------------------------------

pub proof fn lemma_count_char_concat(a: Seq<char>, b: Seq<char>, c: char)
    ensures
        count_char(a + b, c) == count_char(a, c) + count_char(b, c),
    decreases b.len(),
{
    if b.len() == 0 {
        assert(a + b =~= a);
    } else {
        lemma_count_char_concat(a, b.drop_last(), c);
        assert((a + b).drop_last() =~= a + b.drop_last());
    }
}

pub proof fn lemma_count_char_absent(s: Seq<char>, c: char)
    requires
        forall|i: int| 0 <= i < s.len() ==> s[i] != c,
    ensures
        count_char(s, c) == 0,
    decreases s.len(),
{
    if s.len() > 0 {
        lemma_count_char_absent(s.drop_last(), c);
    }
}

/// Replacing by text with fewer `c`s never adds a `c`, and removes one where
/// there is a match.
pub proof fn lemma_replace_count(s: Seq<char>, from: Seq<char>, to: Seq<char>, c: char)
    requires
        from.len() > 0,
        count_char(to, c) < count_char(from, c),
    ensures
        count_char(replace(s, from, to), c) <= count_char(s, c),
        has_match(s, from) ==> count_char(replace(s, from, to), c) < count_char(s, c),
    decreases s.len(),
{
    if s.len() < from.len() {
        if has_match(s, from) {
            let i = choose|i: int| is_match_at(s, from, i);
        }
    } else if s.subrange(0, from.len() as int) == from {
        let rest = s.subrange(from.len() as int, s.len() as int);
        lemma_replace_count(rest, from, to, c);
        assert(s =~= from + rest);
        lemma_count_char_concat(from, rest, c);
        lemma_count_char_concat(to, replace(rest, from, to), c);
    } else {
        let rest = s.drop_first();
        lemma_replace_count(rest, from, to, c);
        assert(s =~= seq![s[0]] + rest);
        lemma_count_char_concat(seq![s[0]], rest, c);
        lemma_count_char_concat(seq![s[0]], replace(rest, from, to), c);
        if has_match(s, from) {
            let i = choose|i: int| is_match_at(s, from, i);
            if i == 0 {
                assert(s.subrange(0, from.len() as int) == from);
            }
            assert(rest.subrange(i - 1, i - 1 + from.len()) =~= s.subrange(i, i + from.len()));
            assert(is_match_at(rest, from, i - 1));
        }
    }
}

/// Each character has at most 4 bytes.
pub proof fn lemma_utf8_len_bound(s: Seq<char>)
    ensures
        utf8_len(s) <= 4 * s.len(),
    decreases s.len(),
{
    if s.len() > 0 {
        lemma_utf8_len_bound(s.drop_last());
    }
}

/// The byte length of the first `k` characters of `s`.
pub fn utf8_prefix_len(s: &[char], k: usize) -> (r: u128)
    requires
        k <= s@.len(),
    ensures
        r == utf8_len(s@.take(k as int)),
{
    let mut n: u128 = 0;
    let mut i: usize = 0;
    assert(s@.take(0) =~= Seq::<char>::empty());
    while i < k
        invariant
            k <= s@.len(),
            i <= k,
            n == utf8_len(s@.take(i as int)),
        decreases k - i,
    {
        assert(s@.take(i + 1).drop_last() =~= s@.take(i as int));
        assert(s@.take(i + 1).last() == s@[i as int]);
        proof { lemma_utf8_len_bound(s@.take(i + 1)); }
        let w = char_width_exec(s[i]);
        n = n + w as u128;
        i += 1;
    }
    n
}

/// The character index at byte offset `b` (`char_index_at`), for a byte
/// offset of any size.
pub fn char_index_at_wide(s: &[char], b: u128) -> (r: Option<usize>)
    ensures
        match r {
            Some(k) => char_index_at(s@, b as int) == Some(k as int),
            None => char_index_at(s@, b as int) is None,
        },
{
    let n = s.len();
    let mut k: usize = 0;
    let mut pos: u128 = 0;
    assert(s@.take(0) =~= Seq::<char>::empty());
    while pos < b && k < n
        invariant
            n == s@.len(),
            k <= n,
            pos <= b,
            utf8_len(s@.take(k as int)) == pos,
            k > 0 ==> utf8_len(s@.take(k - 1)) < b,
        decreases n - k,
    {
        assert(s@.take(k + 1).drop_last() =~= s@.take(k as int));
        assert(s@.take(k + 1).last() == s@[k as int]);
        let w = char_width_exec(s[k]) as u128;
        if w > b - pos {
            proof {
                lemma_char_index_miss(s@, b as int, k + 1);
            }
            return None;
        }
        pos = pos + w;
        k = k + 1;
    }
    if pos == b {
        proof {
            lemma_char_index_hit(s@, b as int, k as int);
        }
        Some(k)
    } else {
        proof {
            assert(s@.take(n as int) =~= s@);
            assert forall|x: int| 0 <= x <= s@.len() implies #[trigger] utf8_len(s@.take(x)) != b by {
                if x < k {
                    lemma_utf8_prefix_strict(s@, x, k as int);
                }
            }
        }
        None
    }
}

/// Text without `c` is one piece when split at `c`.
pub proof fn lemma_split_on_absent(x: Seq<char>, c: char)
    requires
        !x.contains(c),
    ensures
        split_on(x, c) == seq![x],
    decreases x.len(),
{
    if x.len() > 0 {
        assert(!x.drop_last().contains(c)) by {
            if x.drop_last().contains(c) {
                let i = choose|i: int| 0 <= i < x.drop_last().len() && x.drop_last()[i] == c;
                assert(x[i] == c);
            }
        }
        lemma_split_on_absent(x.drop_last(), c);
        assert(x.last() != c) by {
            assert(x[x.len() - 1] == x.last());
        }
        assert(x.drop_last().push(x.last()) =~= x);
        let w = seq![x.drop_last()];
        assert(w.len() == 1 && w.last() == x.drop_last());
        assert(w.update(0, x) =~= seq![x]);
    } else {
        assert(x =~= Seq::<char>::empty());
    }
}

/// Splitting at `c` a text with `c` in the middle splits each side.
pub proof fn lemma_split_on_concat(a: Seq<char>, b: Seq<char>, c: char)
    ensures
        split_on(a + seq![c] + b, c) == split_on(a, c) + split_on(b, c),
    decreases b.len(),
{
    let x = a + seq![c] + b;
    if b.len() == 0 {
        assert(x.drop_last() =~= a);
        assert(split_on(b, c) == seq![Seq::<char>::empty()]);
        assert(split_on(a, c).push(seq![]) =~= split_on(a, c) + seq![Seq::<char>::empty()]);
    } else {
        assert(x.drop_last() =~= a + seq![c] + b.drop_last());
        lemma_split_on_concat(a, b.drop_last(), c);
        lemma_split_on_nonempty(b.drop_last(), c);
        let sa = split_on(a, c);
        let sb = split_on(b.drop_last(), c);
        if b.last() == c {
            assert((sa + sb).push(seq![]) =~= sa + sb.push(seq![]));
        } else {
            let w = sa + sb;
            assert(w.last() == sb.last());
            assert(w.update(w.len() - 1, w.last().push(b.last())) =~= sa + sb.update(sb.len() - 1, sb.last().push(b.last())));
        }
    }
}

/// Splitting at `c` the parts joined with `c` gives the parts back, where
/// no part holds `c`.
pub proof fn lemma_split_join(parts: Seq<Seq<char>>, c: char)
    requires
        parts.len() >= 1,
        forall|i: int| 0 <= i < parts.len() ==> !(#[trigger] parts[i]).contains(c),
    ensures
        split_on(join(parts, seq![c]), c) == parts,
    decreases parts.len(),
{
    if parts.len() == 1 {
        lemma_split_on_absent(parts[0], c);
        assert(seq![parts[0]] =~= parts);
    } else {
        let init = parts.drop_last();
        lemma_split_join(init, c);
        lemma_split_on_absent(parts.last(), c);
        lemma_split_on_concat(join(init, seq![c]), parts.last(), c);
        assert(init + seq![parts.last()] =~= parts);
    }
}

} // verus!
