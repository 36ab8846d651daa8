use url_translator::services::history_service::{HistoryService, MAX_HISTORY_ENTRIES};
use url_translator::types::history::{
    BatchDocumentInfo, BatchTranslationData, HistoryEntry, HistoryEntryType, HistoryFilter, HistorySortBy,
};

fn entry(url: &str, title: &str, created_at: &str, content: &str) -> HistoryEntry {
    HistoryEntry::new_single_page(
        url.to_string(),
        title.to_string(),
        "EN".to_string(),
        "ZH".to_string(),
        content.to_string(),
        format!("译文 {}", title),
        created_at.to_string(),
    )
}

fn doc(order: usize, translated: bool, content: &str) -> BatchDocumentInfo {
    BatchDocumentInfo {
        title: format!("Doc {}", order),
        url: format!("https://example.com/d{}", order),
        file_name: format!("{:03}_doc.md", order),
        folder_path: "docs".to_string(),
        order,
        translated,
        original_content: content.to_string(),
        translated_content: format!("内容 {}", order),
    }
}

#[test]
fn single_page_entry_counts_words() {
    let e = entry("https://a.com", "A", "2024-01-01T00:00:00Z", "one two  three\nfour");
    assert_eq!(e.word_count, 4);
    assert_eq!(e.entry_type, HistoryEntryType::SinglePage);
    assert_eq!(e.id.len(), 36);
    assert!(e.batch_data.is_none());
}

#[test]
fn batch_entry_sums_document_words() {
    let data = BatchTranslationData {
        total_documents: 2,
        successful_documents: 1,
        failed_documents: 1,
        index_url: "https://example.com".to_string(),
        document_list: vec![doc(0, true, "a b c"), doc(1, false, "d e")],
    };
    let e = HistoryEntry::new_batch_translation(
        "https://example.com".to_string(),
        "Site".to_string(),
        "EN".to_string(),
        "ZH".to_string(),
        data,
        "2024-01-01T00:00:00Z".to_string(),
    );
    assert_eq!(e.word_count, 5);
    assert_eq!(e.original_content, "批量翻译 2 个文档");
    assert_eq!(e.translated_content, "成功: 1, 失败: 1");
    assert_eq!(e.entry_type, HistoryEntryType::BatchTranslation);
}

#[test]
fn summary_cuts_long_titles() {
    let short = entry("u", "Short", "t", "");
    assert_eq!(short.get_summary(), "Short (EN -> ZH)");
    let long = entry("u", &"x".repeat(60), "t", "");
    assert_eq!(long.get_summary(), format!("{}... (EN -> ZH)", "x".repeat(47)));
}

#[test]
fn formatted_dates_pad_to_two_digits() {
    assert_eq!(HistoryEntry::format_date(2024, 0, 5, 7, 3), "2024-01-05 07:03");
    assert_eq!(HistoryEntry::format_date(2023, 11, 31, 23, 59), "2023-12-31 23:59");
}

#[test]
fn adding_puts_new_entries_first_and_replaces_same_url() {
    let s = HistoryService::new();
    let mut entries = Vec::new();
    s.add_entry(&mut entries, entry("https://a.com", "A", "1", ""));
    s.add_entry(&mut entries, entry("https://b.com", "B", "2", ""));
    assert_eq!(entries[0].title, "B");
    s.add_entry(&mut entries, entry("https://a.com", "A2", "3", ""));
    assert_eq!(entries.len(), 2);
    assert_eq!(entries[1].title, "A2");
}

#[test]
fn history_is_capped() {
    let s = HistoryService::new();
    let mut entries = Vec::new();
    for k in 0..(MAX_HISTORY_ENTRIES + 5) {
        s.add_entry(&mut entries, entry(&format!("https://e{}.com", k), "T", "t", ""));
    }
    assert_eq!(entries.len(), MAX_HISTORY_ENTRIES);
    assert_eq!(entries[0].url, format!("https://e{}.com", MAX_HISTORY_ENTRIES + 4));
}

#[test]
fn find_and_delete_by_id() {
    let s = HistoryService::new();
    let mut entries = Vec::new();
    s.add_entry(&mut entries, entry("https://a.com", "A", "1", ""));
    let id = entries[0].id.clone();
    let found = s.get_entry_by_id(entries.clone(), &id).unwrap();
    assert_eq!(found.title, "A");
    assert!(s.get_entry_by_id(entries.clone(), "nope").is_none());
    s.delete_entry(&mut entries, &id);
    assert!(entries.is_empty());
}

#[test]
fn search_filters_and_sorts_stably() {
    let s = HistoryService::new();
    let entries = vec![
        entry("https://a.com/rust", "Rust Book", "2024-01-02", "w w w"),
        entry("https://b.com", "Go Tour", "2024-01-03", "w"),
        entry("https://c.com/RUST", "Other", "2024-01-01", "w w"),
    ];
    let filter = HistoryFilter { search_term: Some("rust".to_string()), ..HistoryFilter::default() };
    let r = s.search_entries(entries.clone(), &filter, &HistorySortBy::CreatedAtAsc);
    let titles: Vec<&str> = r.iter().map(|e| e.title.as_str()).collect();
    assert_eq!(titles, vec!["Other", "Rust Book"]);
    let r = s.search_entries(entries.clone(), &HistoryFilter::default(), &HistorySortBy::WordCountDesc);
    let titles: Vec<&str> = r.iter().map(|e| e.title.as_str()).collect();
    assert_eq!(titles, vec!["Rust Book", "Other", "Go Tour"]);
    let filter = HistoryFilter { target_lang: Some("FR".to_string()), ..HistoryFilter::default() };
    assert!(s.search_entries(entries, &filter, &HistorySortBy::default()).is_empty());
}

#[test]
fn csv_export_replaces_commas_in_titles() {
    let s = HistoryService::new();
    let mut e = entry("https://a.com", "A, B", "2024", "x y");
    e.id = "id1".to_string();
    let csv = s.export_csv(&vec![e]);
    assert_eq!(csv, "ID,URL,Title,Source Language,Target Language,Created At,Word Count\nid1,https://a.com,A; B,EN,ZH,2024,2\n");
}

#[test]
fn markdown_export_uses_the_given_dates() {
    let s = HistoryService::new();
    let e = entry("https://a.com", "A", "2024", "x");
    let md = s.export_markdown(&vec![e], &vec!["2024-01-01 08:00".to_string()]);
    assert_eq!(
        md,
        "# 翻译历史记录\n\n## A\n\n**URL**: https://a.com\n\n**语言**: EN -> ZH\n\n**创建时间**: 2024-01-01 08:00\n\n**字数**: 1\n\n---\n\n"
    );
}

#[test]
fn single_page_download() {
    let s = HistoryService::new();
    let e = entry("https://a.com", "A", "2024", "x y");
    let id = e.id.clone();
    let entries = vec![e];
    let dates = vec!["D".to_string()];
    let bytes = s.download_single_page(&entries, &dates, &id).unwrap();
    let text = String::from_utf8(bytes).unwrap();
    assert_eq!(
        text,
        "# A\n\n> **原始URL**: https://a.com\n> **翻译时间**: D\n> **语言**: EN -> ZH\n> **字数**: 2 字\n\n---\n\n译文 A"
    );
    assert_eq!(s.download_single_page(&entries, &dates, "x"), Err("未找到指定记录".to_string()));
}

#[test]
fn statistics_count_words_pairs_and_domains() {
    let s = HistoryService::new();
    let entries = vec![
        entry("https://docs.rs/a", "A", "1", "a b"),
        entry("https://docs.rs/b", "B", "2", "c"),
        entry("https://other.org", "C", "3", "d e f"),
    ];
    let st = s.get_statistics(&entries);
    assert_eq!(st.total_entries, 3);
    assert_eq!(st.total_words, 6);
    assert_eq!(st.most_used_language_pair, Some("EN -> ZH".to_string()));
    assert_eq!(st.most_translated_domain, Some("docs.rs".to_string()));
    let empty = s.get_statistics(&Vec::new());
    assert_eq!(empty.total_entries, 0);
    assert!(empty.most_used_language_pair.is_none());
}

fn archive_entries(bytes: &[u8]) -> Vec<(String, String)> {
    let gz = flate2::read::GzDecoder::new(bytes);
    let mut ar = tar::Archive::new(gz);
    let mut out = Vec::new();
    for f in ar.entries().unwrap() {
        let mut f = f.unwrap();
        let path = f.path().unwrap().to_string_lossy().to_string();
        let mut s = String::new();
        std::io::Read::read_to_string(&mut f, &mut s).unwrap();
        out.push((path, s));
    }
    out
}

fn batch_entry() -> HistoryEntry {
    let mut d2 = doc(1, true, "q");
    d2.folder_path = "guide".to_string();
    let data = BatchTranslationData {
        total_documents: 3,
        successful_documents: 2,
        failed_documents: 1,
        index_url: "https://example.com".to_string(),
        document_list: vec![doc(0, true, "a"), d2, doc(2, false, "z")],
    };
    HistoryEntry::new_batch_translation(
        "https://example.com".to_string(),
        "Site".to_string(),
        "EN".to_string(),
        "ZH".to_string(),
        data,
        "2024".to_string(),
    )
}

#[test]
fn batch_download_packs_readme_and_translated_documents() {
    let s = HistoryService::new();
    let e = batch_entry();
    let id = e.id.clone();
    let entries = vec![e];
    let dates = vec!["DATE".to_string()];
    let bytes = s.download_batch_translation(&entries, &dates, &id, None).unwrap();
    let files = archive_entries(&bytes);
    let names: Vec<&str> = files.iter().map(|(n, _)| n.as_str()).collect();
    assert_eq!(names, vec!["README.md", "001_000_doc.md", "guide/002_001_doc.md"]);
    assert!(files[0].1.starts_with("# 批量翻译文档归档\n\n**项目名称**: Site\n**索引URL**: https://example.com\n**翻译时间**: DATE\n"));
    assert_eq!(
        files[1].1,
        "# Doc 0\n\n> **原始URL**: https://example.com/d0\n> **翻译时间**: DATE\n> **文档序号**: 1\n> **语言**: EN -> ZH\n\n---\n\n内容 0"
    );
}

#[test]
fn batch_download_refusals() {
    let s = HistoryService::new();
    let b = batch_entry();
    let single = entry("https://a.com", "A", "1", "");
    let (bid, sid) = (b.id.clone(), single.id.clone());
    let entries = vec![b, single];
    let dates = vec!["D".to_string(), "D".to_string()];
    assert_eq!(s.download_batch_translation(&entries, &dates, "none", None), Err("未找到指定记录".to_string()));
    assert_eq!(
        s.download_batch_translation(&entries, &dates, &sid, None),
        Err("该记录是单页翻译，请使用单页下载功能".to_string())
    );
    assert_eq!(
        s.download_batch_translation(&entries, &dates, &bid, Some(vec![7])),
        Err("没有选中任何文档".to_string())
    );
    assert_eq!(
        s.download_single_page(&entries, &dates, &bid),
        Err("该记录是批量翻译，请使用批量下载功能".to_string())
    );
    let only_second = s.download_batch_translation(&entries, &dates, &bid, Some(vec![1])).unwrap();
    assert_eq!(archive_entries(&only_second).len(), 2);
}

#[test]
fn batch_download_names_a_refused_path() {
    let s = HistoryService::new();
    let mut e = batch_entry();
    if let Some(b) = e.batch_data.as_mut() {
        b.document_list[1].folder_path = "..".to_string();
    }
    let id = e.id.clone();
    let entries = vec![e];
    let dates = vec!["D".to_string()];
    let err = s.download_batch_translation(&entries, &dates, &id, None).unwrap_err();
    assert!(err.starts_with("无法添加文件 ../002_001_doc.md: "), "{}", err);
}
