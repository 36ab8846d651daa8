//! Names of the archives that batch translation offers for download.

use vstd::prelude::*;
use crate::num::{zero_padded, zero_padded_vec};
use crate::text::{
    append_slice, append_str, chars_of, find_first, first_match, is_alphanumeric, slice_vec, string_of, trim_char,
    trim_char_vec, unicode_alphanumeric,
};

verus! {

/// A character a cleaned domain keeps: a letter, a digit or `-`.
pub open spec fn domain_char(c: char) -> bool {
    unicode_alphanumeric(c) || c == '-'
}

/// `domain` with every other character replaced by `_`, without leading or
/// trailing `_`.
pub open spec fn clean_domain(domain: Seq<char>) -> Seq<char> {
    trim_char(domain.map_values(|c: char| if domain_char(c) { c } else { '_' }), '_')
}

/// Cleans a domain for use in a file name.
pub fn clean_domain_name(domain: &str) -> (r: String)
    ensures
        r@ == clean_domain(domain@),
{
    let d = chars_of(domain);
    let mut m: Vec<char> = Vec::new();
    let mut i: usize = 0;
    while i < d.len()
        invariant
            i <= d@.len(),
            m@ == d@.take(i as int).map_values(|c: char| if domain_char(c) { c } else { '_' }),
        decreases d.len() - i,
    {
        let c = d[i];
        let keep = is_alphanumeric(c) || c == '-';
        m.push(if keep { c } else { '_' });
        i += 1;
        assert(m@ =~= d@.take(i as int).map_values(|c: char| if domain_char(c) { c } else { '_' }));
    }
    assert(d@.take(d@.len() as int) =~= d@);
    string_of(&trim_char_vec(&m, '_'))
}

/// The host part of a URL as batch translation reads it: what follows
/// `://` up to the first `/`, else up to the first `:`, else all of it;
/// `docs` for text without `://`.
pub open spec fn url_domain(url: Seq<char>) -> Seq<char> {
    match first_match(url, "://"@) {
        Some(i) => {
            let after = url.subrange(i + 3, url.len() as int);
            match first_match(after, "/"@) {
                Some(e) => after.subrange(0, e),
                None => match first_match(after, ":"@) {
                    Some(e) => after.subrange(0, e),
                    None => after,
                },
            }
        },
        None => "docs"@,
    }
}

/// The characters of `s` before the first `pat`, or all of them.
fn before_first(s: &[char], pat: &str) -> (r: (Vec<char>, bool))
    ensures
        match first_match(s@, pat@) {
            Some(e) => r.1 && r.0@ == s@.subrange(0, e),
            None => !r.1 && r.0@ == s@,
        },
{
    let p = chars_of(pat);
    match find_first(s, &p) {
        Some(e) => (slice_vec(s, 0, e), true),
        None => (slice_vec(s, 0, s.len()), false),
    }
}

/// The host part of `url`, as `url_domain` states it.
pub fn extract_domain_from_url(url: &str) -> (r: String)
    ensures
        r@ == url_domain(url@),
{
    proof {
        reveal_strlit("://");
    }
    let u = chars_of(url);
    let sep = chars_of("://");
    match find_first(&u, &sep) {
        Some(i) => {
            let n = u.len();
            assert(i + 3 <= n);
            let after = slice_vec(&u, i + 3, n);
            let (head, found) = before_first(&after, "/");
            if found {
                return string_of(&head);
            }
            let (head, _) = before_first(&after, ":");
            string_of(&head)
        },
        None => "docs".to_owned(),
    }
}

/// The name of the archive of a batch: the cleaned domain of `url`, then
/// the local date and time as `YYYYMMDD_HHMMSS`, then `.tar.gz`.
/// `month0` counts months from 0, as the browser's clock gives them.
pub open spec fn smart_archive_name(url: Seq<char>, year: u32, month0: u32, day: u32, hours: u32, minutes: u32, seconds: u32) -> Seq<char> {
    clean_domain(url_domain(url)) + "_"@ + zero_padded(year as nat, 4) + zero_padded((month0 + 1) as nat, 2)
        + zero_padded(day as nat, 2) + "_"@ + zero_padded(hours as nat, 2) + zero_padded(minutes as nat, 2)
        + zero_padded(seconds as nat, 2) + ".tar.gz"@
}

/// The archive name for `url` at the given local time.
pub fn generate_smart_archive_name(url: &str, year: u32, month0: u32, day: u32, hours: u32, minutes: u32, seconds: u32) -> (r: String)
    requires
        month0 < u32::MAX,
    ensures
        r@ == smart_archive_name(url@, year, month0, day, hours, minutes, seconds),
{
    let domain = extract_domain_from_url(url);
    let clean = clean_domain_name(domain.as_str());
    let mut out: Vec<char> = chars_of(clean.as_str());
    append_str(&mut out, "_");
    append_slice(&mut out, &zero_padded_vec(year as u64, 4));
    append_slice(&mut out, &zero_padded_vec((month0 + 1) as u64, 2));
    append_slice(&mut out, &zero_padded_vec(day as u64, 2));
    append_str(&mut out, "_");
    append_slice(&mut out, &zero_padded_vec(hours as u64, 2));
    append_slice(&mut out, &zero_padded_vec(minutes as u64, 2));
    append_slice(&mut out, &zero_padded_vec(seconds as u64, 2));
    append_str(&mut out, ".tar.gz");
    string_of(&out)
}

} // verus!
