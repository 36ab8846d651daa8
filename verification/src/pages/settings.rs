//! The settings page's form: the settings it saves.

use vstd::prelude::*;
use crate::types::api_types::{number_or, number_or_exec, AppConfig};

verus! {

/// The settings the form saves: the texts of its fields as they stand, its
/// three numbers read from their fields (10 requests per second, 5000
/// characters and 10 paragraphs where a field does not hold a number that
/// fits), and the file naming of `current`, which the form does not show.
pub fn settings_from_form(
    current: &AppConfig,
    deeplx_url: &str,
    jina_url: &str,
    source_lang: &str,
    target_lang: &str,
    max_requests_per_second: &str,
    max_text_length: &str,
    max_paragraphs: &str,
) -> (r: AppConfig)
    ensures
        r.deeplx_api_url@ == deeplx_url@,
        r.jina_api_url@ == jina_url@,
        r.default_source_lang@ == source_lang@,
        r.default_target_lang@ == target_lang@,
        r.max_requests_per_second == number_or(max_requests_per_second@, u32::MAX as nat, 10),
        r.max_text_length == number_or(max_text_length@, usize::MAX as nat, 5000),
        r.max_paragraphs_per_request == number_or(max_paragraphs@, usize::MAX as nat, 10),
        r.file_naming == current.file_naming,
{
    let rps = number_or_exec(&max_requests_per_second.to_owned(), u32::MAX as u64, 10);
    let text = number_or_exec(&max_text_length.to_owned(), usize::MAX as u64, 5000);
    let paragraphs = number_or_exec(&max_paragraphs.to_owned(), usize::MAX as u64, 10);
    AppConfig {
        deeplx_api_url: deeplx_url.to_owned(),
        jina_api_url: jina_url.to_owned(),
        default_source_lang: source_lang.to_owned(),
        default_target_lang: target_lang.to_owned(),
        max_requests_per_second: rps as u32,
        max_text_length: text as usize,
        max_paragraphs_per_request: paragraphs as usize,
        file_naming: current.file_naming.duplicate(),
    }
}

} // verus!
