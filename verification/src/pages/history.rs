//! The choices of the history page.

use vstd::prelude::*;
use crate::text::{chars_of, eq_chars};
use crate::types::history::HistorySortBy;

verus! {

/// The order a value of the sort menu selects; newest first for an
/// unknown value.
pub open spec fn sort_for_option(value: Seq<char>) -> HistorySortBy {
    if value == "created_asc"@ {
        HistorySortBy::CreatedAtAsc
    } else if value == "title_asc"@ {
        HistorySortBy::TitleAsc
    } else if value == "title_desc"@ {
        HistorySortBy::TitleDesc
    } else if value == "words_desc"@ {
        HistorySortBy::WordCountDesc
    } else if value == "words_asc"@ {
        HistorySortBy::WordCountAsc
    } else {
        HistorySortBy::CreatedAtDesc
    }
}

/// The order the sort menu's `value` selects (`sort_for_option`).
pub fn sort_from_option(value: &str) -> (r: HistorySortBy)
    ensures
        r == sort_for_option(value@),
{
    let v = chars_of(value);
    if eq_chars(&v, &chars_of("created_asc")) {
        HistorySortBy::CreatedAtAsc
    } else if eq_chars(&v, &chars_of("title_asc")) {
        HistorySortBy::TitleAsc
    } else if eq_chars(&v, &chars_of("title_desc")) {
        HistorySortBy::TitleDesc
    } else if eq_chars(&v, &chars_of("words_desc")) {
        HistorySortBy::WordCountDesc
    } else if eq_chars(&v, &chars_of("words_asc")) {
        HistorySortBy::WordCountAsc
    } else {
        HistorySortBy::CreatedAtDesc
    }
}

} // verus!
