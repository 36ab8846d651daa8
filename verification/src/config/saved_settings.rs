//! What `RuntimeConfig::from_json` reads back of the text that
//! `RuntimeConfig::to_json` writes.

use vstd::prelude::*;
use crate::config::runtime::{
    after_key, bool_text, json_bool_value, json_number_text, json_settings, json_settings_validation,
    json_string_value, key_pattern, number_char, number_prefix, runtime_json, runtime_validation,
    RuntimeConfig,
};
use crate::num::{decimal, digits_value, is_digit, lemma_decimal_value};
use crate::text::{
    is_match_at, lemma_first_match, starts_with, strip_start, trim_start,
    unicode_whitespace, ws_pred,
};

verus! {

/// The line break and indent between fields.
pub open spec fn field_break() -> Seq<char> {
    "\n                "@
}

/// A string field `"k": "v",` and the break after it.
pub open spec fn string_field(k: Seq<char>, v: Seq<char>) -> Seq<char> {
    key_pattern(k) + seq![' ', '"'] + v + seq!['"', ','] + field_break()
}

/// A field `"k": v,` written without quotes, and the break after it.
pub open spec fn bare_field(k: Seq<char>, v: Seq<char>) -> Seq<char> {
    key_pattern(k) + seq![' '] + v + seq![','] + field_break()
}

/// Moving the end of one field and the start of the next into place.
proof fn lemma_field_step(x: Seq<char>, o: Seq<char>, v: Seq<char>, cl: Seq<char>, br: Seq<char>, nx: Seq<char>)
    ensures
        (x + o) + v + (cl + br + nx) == (x + (o + v + cl + br)) + nx,
{
    assert((x + o) + v + (cl + br + nx) =~= (x + (o + v + cl + br)) + nx);
}

/// The literals of `runtime_json`, cut at the field boundaries.
proof fn lemma_json_literals()
    ensures
        "{\n                \"current_theme\": \""@
            == seq!['{'] + field_break() + (key_pattern("current_theme"@) + seq![' ', '"']),
        "\",\n                \"api_base_url\": \""@
            == seq!['"', ','] + field_break() + (key_pattern("api_base_url"@) + seq![' ', '"']),
        "\",\n                \"api_timeout_seconds\": "@
            == seq!['"', ','] + field_break() + (key_pattern("api_timeout_seconds"@) + seq![' ']),
        ",\n                \"auto_save_enabled\": "@
            == seq![','] + field_break() + (key_pattern("auto_save_enabled"@) + seq![' ']),
        ",\n                \"auto_save_interval\": "@
            == seq![','] + field_break() + (key_pattern("auto_save_interval"@) + seq![' ']),
        ",\n                \"max_file_size_mb\": "@
            == seq![','] + field_break() + "\"max_file_size_mb\": "@,
{
    reveal_strlit("\n                ");
    reveal_strlit("current_theme");
    reveal_strlit("api_base_url");
    reveal_strlit("api_timeout_seconds");
    reveal_strlit("auto_save_enabled");
    reveal_strlit("auto_save_interval");
    reveal_strlit("\"max_file_size_mb\": ");
    reveal_strlit("{\n                \"current_theme\": \"");
    reveal_strlit("\",\n                \"api_base_url\": \"");
    reveal_strlit("\",\n                \"api_timeout_seconds\": ");
    reveal_strlit(",\n                \"auto_save_enabled\": ");
    reveal_strlit(",\n                \"auto_save_interval\": ");
    reveal_strlit(",\n                \"max_file_size_mb\": ");
    assert("{\n                \"current_theme\": \""@
        =~= seq!['{'] + field_break() + (key_pattern("current_theme"@) + seq![' ', '"']));
    assert("\",\n                \"api_base_url\": \""@
        =~= seq!['"', ','] + field_break() + (key_pattern("api_base_url"@) + seq![' ', '"']));
    assert("\",\n                \"api_timeout_seconds\": "@
        =~= seq!['"', ','] + field_break() + (key_pattern("api_timeout_seconds"@) + seq![' ']));
    assert(",\n                \"auto_save_enabled\": "@
        =~= seq![','] + field_break() + (key_pattern("auto_save_enabled"@) + seq![' ']));
    assert(",\n                \"auto_save_interval\": "@
        =~= seq![','] + field_break() + (key_pattern("auto_save_interval"@) + seq![' ']));
    assert(",\n                \"max_file_size_mb\": "@
        =~= seq![','] + field_break() + "\"max_file_size_mb\": "@);
}

/// A prefix of `a` is the same prefix of `a + b`.
proof fn lemma_prefix_of_concat(a: Seq<char>, b: Seq<char>, n: int)
    requires
        0 <= n <= a.len(),
    ensures
        (a + b).subrange(0, n) == a.subrange(0, n),
{
    assert((a + b).subrange(0, n) =~= a.subrange(0, n));
}

/// The fields that `runtime_json` begins with.
pub open spec fn runtime_json_fields(c: RuntimeConfig) -> Seq<char> {
    seq!['{'] + field_break()
        + string_field("current_theme"@, c.current_theme@)
        + string_field("api_base_url"@, c.api_base_url@)
        + bare_field("api_timeout_seconds"@, decimal(c.api_timeout_seconds as nat))
        + bare_field("auto_save_enabled"@, bool_text(c.auto_save_enabled))
        + bare_field("auto_save_interval"@, decimal(c.auto_save_interval as nat))
}

/// `runtime_json` begins with its first five fields.
proof fn lemma_runtime_json_layout(c: RuntimeConfig)
    ensures
        runtime_json(c).len() >= runtime_json_fields(c).len(),
        runtime_json(c).subrange(0, runtime_json_fields(c).len() as int) == runtime_json_fields(c),
{
    lemma_json_literals();
    let br = field_break();
    let t = c.current_theme@;
    let u = c.api_base_url@;
    let d1 = decimal(c.api_timeout_seconds as nat);
    let b = bool_text(c.auto_save_enabled);
    let d2 = decimal(c.auto_save_interval as nat);
    let h = seq!['{'] + br;
    let o1 = key_pattern("current_theme"@) + seq![' ', '"'];
    let o2 = key_pattern("api_base_url"@) + seq![' ', '"'];
    let o3 = key_pattern("api_timeout_seconds"@) + seq![' '];
    let o4 = key_pattern("auto_save_enabled"@) + seq![' '];
    let o5 = key_pattern("auto_save_interval"@) + seq![' '];
    let o6 = "\"max_file_size_mb\": "@;
    let q = seq!['"', ','];
    let k = seq![','];
    let l1 = "{\n                \"current_theme\": \""@;
    let l2 = "\",\n                \"api_base_url\": \""@;
    let l3 = "\",\n                \"api_timeout_seconds\": "@;
    let l4 = ",\n                \"auto_save_enabled\": "@;
    let l5 = ",\n                \"auto_save_interval\": "@;
    let l6 = ",\n                \"max_file_size_mb\": "@;
    let x1 = h + (o1 + t + q + br);
    let x2 = x1 + (o2 + u + q + br);
    let x3 = x2 + (o3 + d1 + k + br);
    let x4 = x3 + (o4 + b + k + br);
    let x5 = x4 + (o5 + d2 + k + br);
    let r1 = l1 + t + l2;
    assert(r1 == x1 + o2) by {
        lemma_field_step(h, o1, t, q, br, o2);
    }
    let r2 = r1 + u + l3;
    assert(r2 == x2 + o3) by {
        lemma_field_step(x1, o2, u, q, br, o3);
    }
    let r3 = r2 + d1 + l4;
    assert(r3 == x3 + o4) by {
        lemma_field_step(x2, o3, d1, k, br, o4);
    }
    let r4 = r3 + b + l5;
    assert(r4 == x4 + o5) by {
        lemma_field_step(x3, o4, b, k, br, o5);
    }
    let r5 = r4 + d2 + l6;
    assert(r5 == x5 + o6) by {
        lemma_field_step(x4, o5, d2, k, br, o6);
    }
    assert(x5 == runtime_json_fields(c));
    let n = x5.len() as int;
    assert(r5.subrange(0, n) == x5) by {
        lemma_prefix_of_concat(x5, o6, n);
        assert(x5.subrange(0, n) =~= x5);
    }
    let j = runtime_json(c);
    let m = decimal(c.max_file_size_mb as nat);
    let s6 = r5 + m;
    let s7 = s6 + ",\n                \"keyboard_shortcuts_enabled\": "@;
    let s8 = s7 + bool_text(c.keyboard_shortcuts_enabled);
    let s9 = s8 + ",\n                \"notifications_enabled\": "@;
    let s10 = s9 + bool_text(c.notifications_enabled);
    let s11 = s10 + ",\n                \"language\": \""@;
    let s12 = s11 + c.language@;
    let s13 = s12 + "\",\n                \"timezone\": \""@;
    let s14 = s13 + c.timezone@;
    assert(j == s14 + "\"\n            }"@);
    lemma_prefix_of_concat(r5, m, n);
    lemma_prefix_of_concat(s6, ",\n                \"keyboard_shortcuts_enabled\": "@, n);
    lemma_prefix_of_concat(s7, bool_text(c.keyboard_shortcuts_enabled), n);
    lemma_prefix_of_concat(s8, ",\n                \"notifications_enabled\": "@, n);
    lemma_prefix_of_concat(s9, bool_text(c.notifications_enabled), n);
    lemma_prefix_of_concat(s10, ",\n                \"language\": \""@, n);
    lemma_prefix_of_concat(s11, c.language@, n);
    lemma_prefix_of_concat(s12, "\",\n                \"timezone\": \""@, n);
    lemma_prefix_of_concat(s13, c.timezone@, n);
    lemma_prefix_of_concat(s14, "\"\n            }"@, n);
}

/// No character of `s` is a double quote.
pub open spec fn quote_free(s: Seq<char>) -> bool {
    forall|i: int| 0 <= i < s.len() ==> s[i] != '"'
}

/// A key that `"key":` can be looked up by: not empty, without quotes, and
/// not starting with `:` or `,`.
pub open spec fn plain_key(k: Seq<char>) -> bool {
    &&& k.len() > 0
    &&& quote_free(k)
    &&& k[0] != ':'
    &&& k[0] != ','
}

/// `"key":` starts at no index of `[a, b)` in `s`.
pub open spec fn no_key_in(s: Seq<char>, key: Seq<char>, a: int, b: int) -> bool {
    forall|j: int| a <= j < b ==> !#[trigger] is_match_at(s, key_pattern(key), j)
}

/// `"key":` starts only at a double quote.
proof fn lemma_not_at_other(s: Seq<char>, key: Seq<char>, j: int)
    requires
        0 <= j < s.len(),
        s[j] != '"',
    ensures
        !is_match_at(s, key_pattern(key), j),
{
    let p = key_pattern(key);
    if is_match_at(s, p, j) {
        assert(s.subrange(j, j + p.len())[0] == p[0]);
    }
}

/// A quote followed by `:` or `,` does not start `"key":`.
proof fn lemma_not_at_closing(s: Seq<char>, key: Seq<char>, j: int)
    requires
        plain_key(key),
        0 <= j,
        j + 1 < s.len(),
        s[j + 1] == ':' || s[j + 1] == ',',
    ensures
        !is_match_at(s, key_pattern(key), j),
{
    let p = key_pattern(key);
    if is_match_at(s, p, j) {
        assert(s.subrange(j, j + p.len())[1] == p[1]);
    }
}

/// A quote, `w` characters without quotes, and a quote start `"key":` only
/// where those characters are the key and a `:` follows.
proof fn lemma_not_at_run(s: Seq<char>, key: Seq<char>, j: int, w: int)
    requires
        plain_key(key),
        0 <= j,
        0 <= w,
        j + w + 2 < s.len(),
        s[j] == '"',
        quote_free(s.subrange(j + 1, j + 1 + w)),
        s[j + 1 + w] == '"',
        !(w == key.len() && s.subrange(j + 1, j + 1 + w) == key && s[j + 2 + w] == ':'),
    ensures
        !is_match_at(s, key_pattern(key), j),
{
    let p = key_pattern(key);
    let run = s.subrange(j + 1, j + 1 + w);
    if is_match_at(s, p, j) {
        let m = s.subrange(j, j + p.len());
        assert(m == p);
        if w < key.len() {
            assert(s[j + 1 + w] == m[1 + w]);
            assert(p[1 + w] == key[w]);
        } else if w > key.len() {
            assert(m[1 + key.len() as int] == '"');
            assert(run[key.len() as int] == s[j + 1 + key.len()]);
        } else {
            assert(run =~= key) by {
                assert forall|i: int| 0 <= i < w implies run[i] == key[i] by {
                    assert(m[1 + i] == p[1 + i]);
                }
            }
            assert(m[key.len() as int + 2] == ':');
        }
    }
}

/// A string field of another key does not hold `"key":`.
proof fn lemma_string_field_clear(k: Seq<char>, v: Seq<char>, r: Seq<char>, key: Seq<char>)
    requires
        plain_key(key),
        quote_free(k),
        k != key,
        quote_free(v),
    ensures
        no_key_in(string_field(k, v) + r, key, 0, string_field(k, v).len() as int),
{
    reveal_strlit("\n                ");
    let f = string_field(k, v);
    let s = f + r;
    let kl = k.len() as int;
    let vl = v.len() as int;
    assert(f =~= seq!['"'] + k + seq!['"', ':', ' ', '"'] + v + seq!['"', ','] + field_break());
    assert forall|j: int| 0 <= j < f.len() implies !#[trigger] is_match_at(s, key_pattern(key), j) by {
        if j == 0 {
            assert(s.subrange(1, 1 + kl) =~= k);
            lemma_not_at_run(s, key, 0, kl);
        } else if j == kl + 1 {
            lemma_not_at_closing(s, key, j);
        } else if j == kl + 4 {
            assert(s.subrange(kl + 5, kl + 5 + vl) =~= v);
            lemma_not_at_run(s, key, j, vl);
        } else if j == kl + 5 + vl {
            lemma_not_at_closing(s, key, j);
        } else {
            if 1 <= j <= kl {
                assert(s[j] == k[j - 1]);
            } else if kl + 5 <= j < kl + 5 + vl {
                assert(s[j] == v[j - kl - 5]);
            }
            lemma_not_at_other(s, key, j);
        }
    }
}

/// A bare field of another key, with a value without quotes, does not hold
/// `"key":`.
proof fn lemma_bare_field_clear(k: Seq<char>, v: Seq<char>, r: Seq<char>, key: Seq<char>)
    requires
        plain_key(key),
        quote_free(k),
        k != key,
        quote_free(v),
    ensures
        no_key_in(bare_field(k, v) + r, key, 0, bare_field(k, v).len() as int),
{
    reveal_strlit("\n                ");
    let f = bare_field(k, v);
    let s = f + r;
    let kl = k.len() as int;
    let vl = v.len() as int;
    assert(f =~= seq!['"'] + k + seq!['"', ':', ' '] + v + seq![','] + field_break());
    assert forall|j: int| 0 <= j < f.len() implies !#[trigger] is_match_at(s, key_pattern(key), j) by {
        if j == 0 {
            assert(s.subrange(1, 1 + kl) =~= k);
            lemma_not_at_run(s, key, 0, kl);
        } else if j == kl + 1 {
            lemma_not_at_closing(s, key, j);
        } else {
            if 1 <= j <= kl {
                assert(s[j] == k[j - 1]);
            } else if kl + 4 <= j < kl + 4 + vl {
                assert(s[j] == v[j - kl - 4]);
            }
            lemma_not_at_other(s, key, j);
        }
    }
}

/// Clearing a range of `z` clears the same range, shifted, of `x + z`.
proof fn lemma_clear_shift(x: Seq<char>, z: Seq<char>, key: Seq<char>, a: int, b: int)
    requires
        0 <= a,
        no_key_in(z, key, a, b),
    ensures
        no_key_in(x + z, key, x.len() + a, x.len() + b),
{
    let p = key_pattern(key);
    assert forall|j: int| x.len() + a <= j < x.len() + b implies !#[trigger] is_match_at(x + z, p, j) by {
        if is_match_at(x + z, p, j) {
            assert((x + z).subrange(j, j + p.len()) =~= z.subrange(j - x.len(), j - x.len() + p.len()));
            assert(is_match_at(z, p, j - x.len()));
        }
    }
}

/// `s` split after the prefix `a + g`.
proof fn lemma_split_after(s: Seq<char>, a: Seq<char>, g: Seq<char>)
    requires
        s.len() >= a.len() + g.len(),
        s.subrange(0, a.len() + g.len() as int) == a + g,
    ensures
        s == a + (g + s.subrange(a.len() + g.len() as int, s.len() as int)),
{
    let n = a.len() + g.len() as int;
    assert forall|i: int| 0 <= i < n implies s[i] == (a + g)[i] by {
        assert(s.subrange(0, n)[i] == s[i]);
    }
    assert(s =~= a + (g + s.subrange(n, s.len() as int)));
}

/// Where no `"key":` comes before a field that starts with it, that field
/// is found, and what follows the key is the rest of the field and the text
/// after it.
proof fn lemma_key_found(x: Seq<char>, f: Seq<char>, r: Seq<char>, key: Seq<char>)
    requires
        no_key_in(x + (f + r), key, 0, x.len() as int),
        f.len() >= key_pattern(key).len(),
        f.subrange(0, key_pattern(key).len() as int) == key_pattern(key),
    ensures
        after_key(x + (f + r), key) == Some(f.subrange(key_pattern(key).len() as int, f.len() as int) + r),
{
    let s = x + (f + r);
    let p = key_pattern(key);
    assert(s.subrange(x.len() as int, x.len() + p.len() as int) =~= p) by {
        assert forall|i: int| 0 <= i < p.len() implies s.subrange(x.len() as int, x.len() + p.len() as int)[i] == p[i] by {
            assert(f.subrange(0, p.len() as int)[i] == f[i]);
        }
    }
    assert(is_match_at(s, p, x.len() as int));
    assert forall|j: int| j < x.len() implies !#[trigger] is_match_at(s, p, j) by {
        if j < 0 {
        } else {
            assert(no_key_in(s, key, 0, x.len() as int));
        }
    }
    lemma_first_match(s, p, x.len() as int);
    assert(s.subrange(x.len() + p.len() as int, s.len() as int) =~= f.subrange(p.len() as int, f.len() as int) + r);
}

/// What `json_string_value` reads after a string field's key.
proof fn lemma_read_string(json: Seq<char>, key: Seq<char>, v: Seq<char>, r: Seq<char>)
    requires
        quote_free(v),
        after_key(json, key) == Some(seq![' ', '"'] + v + seq!['"', ','] + r),
    ensures
        json_string_value(json, key) == Some(v),
{
    let rest = seq![' ', '"'] + v + seq!['"', ','] + r;
    let qt = seq!['"'];
    assert(rest.subrange(1, 2) =~= qt);
    assert(is_match_at(rest, qt, 1));
    assert forall|j: int| j < 1 implies !#[trigger] is_match_at(rest, qt, j) by {
        if j == 0 {
            assert(rest.subrange(0, 1)[0] == ' ');
        }
    }
    lemma_first_match(rest, qt, 1);
    let tail = rest.subrange(2, rest.len() as int);
    assert(tail =~= v + seq!['"', ','] + r);
    let vl = v.len() as int;
    assert(tail.subrange(vl, vl + 1) =~= qt);
    assert(is_match_at(tail, qt, vl));
    assert forall|j: int| j < vl implies !#[trigger] is_match_at(tail, qt, j) by {
        if 0 <= j {
            assert(tail.subrange(j, j + 1)[0] == v[j]);
        }
    }
    lemma_first_match(tail, qt, vl);
    assert(tail.subrange(0, vl) =~= v);
}

/// `trim_start` of a space and then a non-whitespace character.
proof fn lemma_trim_one_space(t: Seq<char>)
    requires
        unicode_whitespace(' '),
        t.len() > 0,
        !unicode_whitespace(t[0]),
    ensures
        trim_start(seq![' '] + t) == t,
{
    let s = seq![' '] + t;
    assert(s.drop_first() =~= t);
    assert(strip_start(s, ws_pred()) == strip_start(s.drop_first(), ws_pred()));
    assert(strip_start(t, ws_pred()) == t);
}

/// `number_prefix` stops at the first character that is not a digit or a
/// point.
proof fn lemma_number_prefix_stop(d: Seq<char>, x: Seq<char>)
    requires
        forall|i: int| 0 <= i < d.len() ==> number_char(#[trigger] d[i]),
        x.len() > 0,
        !number_char(x[0]),
    ensures
        number_prefix(d + x) == d,
    decreases d.len(),
{
    let s = d + x;
    if d.len() == 0 {
        assert(s =~= x);
    } else {
        let d1 = d.subrange(1, d.len() as int);
        assert(s.subrange(1, s.len() as int) =~= d1 + x);
        lemma_number_prefix_stop(d1, x);
        assert(seq![s[0]] + d1 =~= d);
    }
}

/// What `json_number_text` reads after a bare field's key holding a
/// decimal number.
proof fn lemma_read_number(json: Seq<char>, key: Seq<char>, n: nat, r: Seq<char>)
    requires
        unicode_whitespace(' '),
        forall|c: char| is_digit(c) ==> !unicode_whitespace(c),
        after_key(json, key) == Some(seq![' '] + decimal(n) + seq![','] + r),
    ensures
        json_number_text(json, key) == Some(decimal(n)),
        digits_value(decimal(n)) == n,
{
    lemma_decimal_value(n);
    let d = decimal(n);
    assert(is_digit(d[0]));
    let t = d + seq![','] + r;
    assert(seq![' '] + d + seq![','] + r =~= seq![' '] + t);
    lemma_trim_one_space(t);
    assert(t =~= d + (seq![','] + r));
    assert forall|i: int| 0 <= i < d.len() implies number_char(#[trigger] d[i]) by {
        assert(is_digit(d[i]));
    }
    lemma_number_prefix_stop(d, seq![','] + r);
}

/// What `json_bool_value` reads after a bare field's key holding `true` or
/// `false`.
proof fn lemma_read_bool(json: Seq<char>, key: Seq<char>, b: bool, r: Seq<char>)
    requires
        unicode_whitespace(' '),
        !unicode_whitespace('t'),
        !unicode_whitespace('f'),
        after_key(json, key) == Some(seq![' '] + bool_text(b) + seq![','] + r),
    ensures
        json_bool_value(json, key) == Some(b),
{
    reveal_strlit("true");
    reveal_strlit("false");
    let v = bool_text(b);
    let t = v + seq![','] + r;
    assert(seq![' '] + v + seq![','] + r =~= seq![' '] + t);
    lemma_trim_one_space(t);
    if b {
        assert(t.subrange(0, 4) =~= "true"@);
    } else {
        assert(t[0] == 'f');
        assert(!starts_with(t, "true"@)) by {
            if starts_with(t, "true"@) {
                assert(t.subrange(0, 4)[0] == 't');
            }
        }
        assert(t.subrange(0, 5) =~= "false"@);
    }
}

/// The `i`-th of the first five fields of `runtime_json`, from 1.
pub open spec fn json_field(c: RuntimeConfig, i: int) -> Seq<char> {
    if i == 1 {
        string_field("current_theme"@, c.current_theme@)
    } else if i == 2 {
        string_field("api_base_url"@, c.api_base_url@)
    } else if i == 3 {
        bare_field("api_timeout_seconds"@, decimal(c.api_timeout_seconds as nat))
    } else if i == 4 {
        bare_field("auto_save_enabled"@, bool_text(c.auto_save_enabled))
    } else {
        bare_field("auto_save_interval"@, decimal(c.auto_save_interval as nat))
    }
}

/// The key of the `i`-th field, from 1.
pub open spec fn json_field_key(i: int) -> Seq<char> {
    if i == 1 {
        "current_theme"@
    } else if i == 2 {
        "api_base_url"@
    } else if i == 3 {
        "api_timeout_seconds"@
    } else if i == 4 {
        "auto_save_enabled"@
    } else {
        "auto_save_interval"@
    }
}

/// The opening brace, its break and the first `m` fields.
pub open spec fn json_fields_upto(c: RuntimeConfig, m: int) -> Seq<char>
    decreases m,
{
    if m <= 0 {
        seq!['{'] + field_break()
    } else {
        json_fields_upto(c, m - 1) + json_field(c, m)
    }
}

/// The keys are plain and differ from one another.
proof fn lemma_field_keys()
    ensures
        forall|i: int| 1 <= i <= 5 ==> plain_key(#[trigger] json_field_key(i)),
        forall|i: int, k: int| 1 <= i <= 5 && 1 <= k <= 5 && i != k ==> #[trigger] json_field_key(i) != #[trigger] json_field_key(k),
{
    reveal_strlit("current_theme");
    reveal_strlit("api_base_url");
    reveal_strlit("api_timeout_seconds");
    reveal_strlit("auto_save_enabled");
    reveal_strlit("auto_save_interval");
    assert(json_field_key(1).len() == 13);
    assert(json_field_key(2).len() == 12);
    assert(json_field_key(3).len() == 19);
    assert(json_field_key(4).len() == 17);
    assert(json_field_key(5).len() == 18);
    assert forall|i: int, k: int| 1 <= i <= 5 && 1 <= k <= 5 && i != k implies #[trigger] json_field_key(i) != #[trigger] json_field_key(k) by {
        assert(json_field_key(i).len() != json_field_key(k).len());
    }
}

/// A prefix of a prefix.
proof fn lemma_prefix_prefix(s: Seq<char>, a: Seq<char>, b: Seq<char>)
    requires
        s.len() >= a.len() + b.len(),
        s.subrange(0, a.len() + b.len() as int) == a + b,
    ensures
        s.len() >= a.len(),
        s.subrange(0, a.len() as int) == a,
{
    assert forall|i: int| 0 <= i < a.len() implies s[i] == a[i] by {
        assert(s.subrange(0, a.len() + b.len() as int)[i] == s[i]);
        assert((a + b)[i] == a[i]);
    }
    assert(s.subrange(0, a.len() as int) =~= a);
}

/// `runtime_json` begins with each of the prefixes `json_fields_upto`.
proof fn lemma_json_prefixes(c: RuntimeConfig, m: int)
    requires
        0 <= m <= 5,
    ensures
        runtime_json(c).len() >= json_fields_upto(c, m).len(),
        runtime_json(c).subrange(0, json_fields_upto(c, m).len() as int) == json_fields_upto(c, m),
    decreases 5 - m,
{
    if m == 5 {
        lemma_runtime_json_layout(c);
        reveal_with_fuel(json_fields_upto, 6);
        assert(json_fields_upto(c, 5) =~= runtime_json_fields(c));
    } else {
        lemma_json_prefixes(c, m + 1);
        lemma_prefix_prefix(runtime_json(c), json_fields_upto(c, m), json_field(c, m + 1));
    }
}

/// The values of the fields hold no quotes.
proof fn lemma_field_values(c: RuntimeConfig, i: int)
    requires
        1 <= i <= 5,
        quote_free(c.current_theme@),
        quote_free(c.api_base_url@),
    ensures
        quote_free(json_field_key(i)),
        i <= 2 ==> json_field(c, i) == string_field(json_field_key(i), if i == 1 { c.current_theme@ } else { c.api_base_url@ }),
        i >= 3 ==> exists|v: Seq<char>| quote_free(v) && json_field(c, i) == bare_field(json_field_key(i), v),
{
    lemma_field_keys();
    reveal_strlit("true");
    reveal_strlit("false");
    if i == 3 {
        let v = decimal(c.api_timeout_seconds as nat);
        lemma_decimal_value(c.api_timeout_seconds as nat);
        assert forall|k: int| 0 <= k < v.len() implies v[k] != '"' by {
            assert(is_digit(v[k]));
        }
        assert(quote_free(v));
    } else if i == 4 {
        let v = bool_text(c.auto_save_enabled);
        assert(quote_free(v));
    } else if i == 5 {
        let v = decimal(c.auto_save_interval as nat);
        lemma_decimal_value(c.auto_save_interval as nat);
        assert forall|k: int| 0 <= k < v.len() implies v[k] != '"' by {
            assert(is_digit(v[k]));
        }
        assert(quote_free(v));
    }
}

/// No `"key":` occurs in the first `m` fields, for a key other than theirs.
proof fn lemma_fields_clear(c: RuntimeConfig, key: Seq<char>, m: int)
    requires
        0 <= m <= 4,
        plain_key(key),
        forall|i: int| 1 <= i <= m ==> #[trigger] json_field_key(i) != key,
        quote_free(c.current_theme@),
        quote_free(c.api_base_url@),
    ensures
        no_key_in(runtime_json(c), key, 0, json_fields_upto(c, m).len() as int),
    decreases m,
{
    let j = runtime_json(c);
    let p = key_pattern(key);
    if m == 0 {
        reveal_strlit("\n                ");
        lemma_json_prefixes(c, 0);
        let h = json_fields_upto(c, 0);
        assert(h =~= seq!['{'] + field_break());
        assert forall|i: int| 0 <= i < h.len() implies !#[trigger] is_match_at(j, p, i) by {
            assert(j.subrange(0, h.len() as int)[i] == j[i]);
            lemma_not_at_other(j, key, i);
        }
    } else {
        lemma_fields_clear(c, key, m - 1);
        lemma_json_prefixes(c, m);
        let x = json_fields_upto(c, m - 1);
        let f = json_field(c, m);
        lemma_split_after(j, x, f);
        let r = j.subrange(x.len() + f.len() as int, j.len() as int);
        lemma_field_values(c, m);
        if m <= 2 {
            let v = if m == 1 { c.current_theme@ } else { c.api_base_url@ };
            lemma_string_field_clear(json_field_key(m), v, r, key);
        } else {
            let v = choose|v: Seq<char>| quote_free(v) && json_field(c, m) == bare_field(json_field_key(m), v);
            lemma_bare_field_clear(json_field_key(m), v, r, key);
        }
        lemma_clear_shift(x, f + r, key, 0, f.len() as int);
        assert(json_fields_upto(c, m) == x + f);
    }
}

/// `runtime_json` as the first `m - 1` fields, field `m`, and the rest.
proof fn lemma_field_found(c: RuntimeConfig, m: int)
    requires
        1 <= m <= 5,
        quote_free(c.current_theme@),
        quote_free(c.api_base_url@),
    ensures
        after_key(runtime_json(c), json_field_key(m)) == Some(
            json_field(c, m).subrange(key_pattern(json_field_key(m)).len() as int, json_field(c, m).len() as int)
                + runtime_json(c).subrange(json_fields_upto(c, m).len() as int, runtime_json(c).len() as int),
        ),
{
    let key = json_field_key(m);
    lemma_field_keys();
    assert forall|i: int| 1 <= i <= m - 1 implies #[trigger] json_field_key(i) != key by {
        assert(json_field_key(i) != json_field_key(m));
    }
    lemma_fields_clear(c, key, m - 1);
    lemma_json_prefixes(c, m);
    let j = runtime_json(c);
    let x = json_fields_upto(c, m - 1);
    let f = json_field(c, m);
    lemma_split_after(j, x, f);
    assert(json_fields_upto(c, m) == x + f);
    let r = j.subrange(x.len() + f.len() as int, j.len() as int);
    let p = key_pattern(key);
    lemma_field_values(c, m);
    assert(f.subrange(0, p.len() as int) =~= p);
    lemma_key_found(x, f, r, key);
}

/// A space is whitespace; `t`, `f` and the decimal digits are not.
proof fn lemma_whitespace_facts()
    ensures
        unicode_whitespace(' '),
        !unicode_whitespace('t'),
        !unicode_whitespace('f'),
        forall|d: char| is_digit(d) ==> !unicode_whitespace(d),
{
    reveal(unicode_whitespace);
}

/// Settings written by `to_json` come back from `from_json`: the theme, API
/// address and auto-save switch found are those written, and the number
/// texts found for the timeout and auto-save interval are the decimal
/// numbers written, whose values are those numbers. Read with those numbers,
/// the settings are those written in these five fields, and settings that
/// were valid are accepted. It needs the theme and address to hold no `"`.
pub proof fn law_runtime_json_read_back(c: RuntimeConfig)
    requires
        quote_free(c.current_theme@),
        quote_free(c.api_base_url@),
    ensures
        json_string_value(runtime_json(c), "current_theme"@) == Some(c.current_theme@),
        json_string_value(runtime_json(c), "api_base_url"@) == Some(c.api_base_url@),
        json_number_text(runtime_json(c), "api_timeout_seconds"@) == Some(decimal(c.api_timeout_seconds as nat)),
        json_bool_value(runtime_json(c), "auto_save_enabled"@) == Some(c.auto_save_enabled),
        json_number_text(runtime_json(c), "auto_save_interval"@) == Some(decimal(c.auto_save_interval as nat)),
        digits_value(decimal(c.api_timeout_seconds as nat)) == c.api_timeout_seconds,
        digits_value(decimal(c.auto_save_interval as nat)) == c.auto_save_interval,
        runtime_validation(c) is None ==> json_settings_validation(
            runtime_json(c),
            Some(c.api_timeout_seconds),
            Some(c.auto_save_interval),
        ) is None,
        forall|d: RuntimeConfig|
            #[trigger] json_settings(runtime_json(c), Some(c.api_timeout_seconds), Some(c.auto_save_interval), d) ==> {
                &&& d.current_theme@ == c.current_theme@
                &&& d.api_base_url@ == c.api_base_url@
                &&& d.api_timeout_seconds == c.api_timeout_seconds
                &&& d.auto_save_enabled == c.auto_save_enabled
                &&& d.auto_save_interval == c.auto_save_interval
            },
{
    lemma_whitespace_facts();
    reveal_strlit("\n                ");
    let j = runtime_json(c);
    let br = field_break();
    lemma_field_keys();
    lemma_field_found(c, 1);
    lemma_field_found(c, 2);
    lemma_field_found(c, 3);
    lemma_field_found(c, 4);
    lemma_field_found(c, 5);
    let rest = |m: int| br + j.subrange(json_fields_upto(c, m).len() as int, j.len() as int);
    let t = c.current_theme@;
    let u = c.api_base_url@;
    let f1 = json_field(c, 1);
    let k1 = key_pattern(json_field_key(1)).len() as int;
    assert(f1.subrange(k1, f1.len() as int) + j.subrange(json_fields_upto(c, 1).len() as int, j.len() as int)
        =~= seq![' ', '"'] + t + seq!['"', ','] + rest(1));
    lemma_read_string(j, "current_theme"@, t, rest(1));
    let f2 = json_field(c, 2);
    let k2 = key_pattern(json_field_key(2)).len() as int;
    assert(f2.subrange(k2, f2.len() as int) + j.subrange(json_fields_upto(c, 2).len() as int, j.len() as int)
        =~= seq![' ', '"'] + u + seq!['"', ','] + rest(2));
    lemma_read_string(j, "api_base_url"@, u, rest(2));
    let f3 = json_field(c, 3);
    let k3 = key_pattern(json_field_key(3)).len() as int;
    assert(f3.subrange(k3, f3.len() as int) + j.subrange(json_fields_upto(c, 3).len() as int, j.len() as int)
        =~= seq![' '] + decimal(c.api_timeout_seconds as nat) + seq![','] + rest(3));
    lemma_read_number(j, "api_timeout_seconds"@, c.api_timeout_seconds as nat, rest(3));
    let f4 = json_field(c, 4);
    let k4 = key_pattern(json_field_key(4)).len() as int;
    assert(f4.subrange(k4, f4.len() as int) + j.subrange(json_fields_upto(c, 4).len() as int, j.len() as int)
        =~= seq![' '] + bool_text(c.auto_save_enabled) + seq![','] + rest(4));
    lemma_read_bool(j, "auto_save_enabled"@, c.auto_save_enabled, rest(4));
    let f5 = json_field(c, 5);
    let k5 = key_pattern(json_field_key(5)).len() as int;
    assert(f5.subrange(k5, f5.len() as int) + j.subrange(json_fields_upto(c, 5).len() as int, j.len() as int)
        =~= seq![' '] + decimal(c.auto_save_interval as nat) + seq![','] + rest(5));
    lemma_read_number(j, "auto_save_interval"@, c.auto_save_interval as nat, rest(5));
}

} // verus!
