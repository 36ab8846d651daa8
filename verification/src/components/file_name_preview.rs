//! The title a file-name preview falls back on when none is given.

use vstd::prelude::*;
use crate::text::{chars_of, eq_chars, replace, replace_vec, split_on, split_on_vec, string_of};
use crate::urls::{parse_url, url_parse};

verus! {

/// A title from a URL: the last path segment up to its first `.`, unless
/// that segment is empty or `index.html`; else the domain with `.` turned
/// into `_`; else `untitled` (also for an empty or unparsable URL).
pub open spec fn title_from_url(url: Seq<char>) -> Seq<char> {
    if url.len() == 0 {
        "untitled"@
    } else {
        match url_parse(url) {
            Some((domain, _host, path)) => {
                let seg = split_on(path, '/').last();
                let name = split_on(seg, '.')[0];
                if seg.len() > 0 && seg != "index.html"@ && name.len() > 0 {
                    name
                } else {
                    match domain {
                        Some(d) => replace(d, "."@, "_"@),
                        None => "untitled"@,
                    }
                }
            },
            None => "untitled"@,
        }
    }
}

/// The fallback title for `url`, as `title_from_url` states it.
pub fn extract_title_from_url(url: &str) -> (r: String)
    ensures
        r@ == title_from_url(url@),
{
    proof {
        reveal_strlit(".");
    }
    if url.is_empty() {
        return "untitled".to_owned();
    }
    match parse_url(url) {
        Some(parts) => {
            let segs = split_on_vec(&chars_of(parts.path.as_str()), '/');
            let seg = &segs[segs.len() - 1];
            let names = split_on_vec(seg, '.');
            let name = &names[0];
            if seg.len() > 0 && !eq_chars(seg, &chars_of("index.html")) && name.len() > 0 {
                return string_of(name);
            }
            match &parts.domain {
                Some(d) => string_of(&replace_vec(&chars_of(d.as_str()), &chars_of("."), &chars_of("_"))),
                None => "untitled".to_owned(),
            }
        },
        None => "untitled".to_owned(),
    }
}

} // verus!
