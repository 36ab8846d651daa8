use url_translator::services::batch_service::{
    calculate_indent_level, clean_path_segment, clean_title, clean_title_enhanced, completion_message,
    create_enhanced_title_with_path, document_delay, extract_base_domain, extract_links_from_content,
    generate_file_name_from_url_and_title, generate_folder_structure, generate_smart_folder_path, index_base_domain,
    is_same_domain_documentation_url, is_valid_documentation_url, needs_rest, parse_link_line, progress_message,
    remove_numbering_manual, retry_delay, BatchNext, BatchRun, BatchStatus, BatchTranslationService, DocumentLink,
    FolderStructure, TranslatedDocument,
};
use url_translator::error::app_error::AppError;
use url_translator::hooks::use_batch_translation::{
    batch_history_data, batch_history_title, stage_progress, BatchFailure, BatchStage,
};
use url_translator::types::api_types::AppConfig;

fn link(title: &str, url: &str, order: usize) -> DocumentLink {
    DocumentLink { title: title.to_string(), url: url.to_string(), level: 0, order }
}

fn doc(title: &str, file: &str, folder: &str, order: usize, selected: bool) -> TranslatedDocument {
    TranslatedDocument {
        link: link(title, &format!("https://example.com/docs/{}", file), order),
        original_content: "orig".to_string(),
        translated_content: format!("译文 {}", title),
        file_name: file.to_string(),
        folder_path: folder.to_string(),
        selected,
    }
}

#[test]
fn documentation_urls() {
    assert!(is_valid_documentation_url("https://example.com/docs/intro.html"));
    assert!(is_valid_documentation_url("https://example.com/a"));
    assert!(!is_valid_documentation_url("ftp://example.com/docs/"));
    assert!(!is_valid_documentation_url("https://github.com/x/docs/"));
    assert!(!is_valid_documentation_url("https://example.com/docs/page.html#part"));
    assert!(!is_valid_documentation_url("https://example.com/docs/logo.png"));
    assert!(!is_valid_documentation_url("https://example.com/a/b/c/d"));
    assert!(is_valid_documentation_url("https://example.com/a/guide/c/d"));
}

#[test]
fn domains() {
    assert_eq!(extract_base_domain("https://docs.example.com/x"), Some("docs.example.com".to_string()));
    assert_eq!(extract_base_domain("nope"), None);
    assert!(is_same_domain_documentation_url("https://docs.example.com/guide/", "example.com"));
    assert!(is_same_domain_documentation_url("https://example.com/guide/", "docs.example.com"));
    assert!(!is_same_domain_documentation_url("https://other.com/guide/", "example.com"));
    assert_eq!(index_base_domain("https://example.com/book/"), Ok("example.com".to_string()));
    assert_eq!(index_base_domain("book"), Err("无法解析输入URL的域名".to_string()));
}

#[test]
fn titles_lose_markup_and_numbering() {
    assert_eq!(remove_numbering_manual("1.2. Getting Started"), "Getting Started");
    assert_eq!(remove_numbering_manual("12 Rules"), "Rules");
    assert_eq!(remove_numbering_manual("Intro"), "Intro");
    assert_eq!(clean_title_enhanced("**3.** `Ownership`"), "Ownership");
    assert_eq!(clean_title_enhanced("A"), "A");
    assert_eq!(clean_title("**1.** Basics"), "Basics");
    assert_eq!(clean_title("v1.2 notes"), "v1.2 notes");
}

#[test]
fn indent_levels() {
    assert_eq!(calculate_indent_level("1. Intro"), 0);
    assert_eq!(calculate_indent_level("1.2. Sub"), 1);
    assert_eq!(calculate_indent_level("1.2.3.4.5. Deep"), 0);
    assert_eq!(calculate_indent_level("\t\t- item"), 2);
    assert_eq!(calculate_indent_level("        - item"), 3);
    assert_eq!(calculate_indent_level("    text"), 1);
}

#[test]
fn link_lines() {
    assert_eq!(
        parse_link_line("- [1. Intro](https://example.com/docs/intro.html)", "example.com"),
        Some(("Intro".to_string(), "https://example.com/docs/intro.html".to_string()))
    );
    assert_eq!(parse_link_line("[x](https://example.com/docs/a.html)", "example.com"), None);
    assert_eq!(parse_link_line("[Intro](https://other.com/docs/a.html)", "example.com"), None);
    assert_eq!(parse_link_line("no link here", "example.com"), None);
}

#[test]
fn links_of_an_index_page() {
    let content = "# Book\n- [Intro](https://example.com/book/intro.html)\n    - [Details](https://example.com/book/details.html)\n- [Elsewhere](https://other.org/book/x.html)\n";
    let links = extract_links_from_content(content, "example.com");
    assert_eq!(links.len(), 2);
    assert_eq!(links[0].title, "Intro");
    assert_eq!(links[0].order, 0);
    assert_eq!(links[0].level, 0);
    assert_eq!(links[1].title, "Details");
    assert_eq!(links[1].order, 1);
    assert_eq!(links[1].level, 1);
}

#[test]
fn file_and_folder_names() {
    assert_eq!(clean_path_segment(" getting started! "), "getting_started");
    assert_eq!(generate_file_name_from_url_and_title(&link("T", "https://e.com/docs/ch-01.html", 0)), "ch-01.md");
    assert_eq!(generate_file_name_from_url_and_title(&link("Hello, World", "https://e.com/docs/", 4)), "05_Hello__World.md");
    assert_eq!(generate_file_name_from_url_and_title(&link("Home", "https://e.com/index.html", 0)), "01_Home.md");
    assert_eq!(generate_smart_folder_path("https://e.com/x"), "documents");
    assert_eq!(
        generate_folder_structure(&link("T", "https://e.com/docs/a.html", 0)),
        ("documents".to_string(), "a.md".to_string())
    );
    assert_eq!(create_enhanced_title_with_path("https://e.com/guide/basics/intro.html", "Intro"), "guide_basics_Intro");
    assert_eq!(create_enhanced_title_with_path("https://e.com/guide/intro.html", "Intro"), "Intro");
    assert_eq!(create_enhanced_title_with_path("nope", "Intro"), "Intro");
}

#[test]
fn progress_texts_and_pacing() {
    assert_eq!(progress_message("Intro", 0, 3), "正在翻译: Intro (1/3)");
    assert_eq!(completion_message(3, 0), "所有文档翻译完成");
    assert_eq!(completion_message(2, 1), "翻译完成，成功: 2, 失败: 1");
    assert_eq!(retry_delay(0), Some(1000));
    assert_eq!(retry_delay(1), Some(2000));
    assert_eq!(retry_delay(2), None);
    assert_eq!(document_delay(0), 1000);
    assert_eq!(document_delay(2), 2000);
    assert!(needs_rest(9));
    assert!(!needs_rest(10));
}

#[test]
fn folders_count_selected_documents() {
    let mut f = FolderStructure::new();
    f.add_document(doc("A", "a.md", "documents", 0, true));
    f.add_document(doc("B", "b.md", "documents", 1, false));
    f.update_selection_count();
    assert_eq!(f.total_files, 2);
    assert_eq!(f.selected_files, 1);
}

#[test]
fn single_file_download() {
    let s = BatchTranslationService::new(&AppConfig::default());
    let d = doc("A", "a.md", "documents", 1, true);
    let bytes = s.create_single_file_download(&d, "2024/1/1 08:00:00");
    assert_eq!(
        String::from_utf8(bytes).unwrap(),
        "# A\n\n> **原始URL**: https://example.com/docs/a.md\n> **翻译时间**: 2024/1/1 08:00:00\n> **文档序号**: 2\n\n---\n\n译文 A"
    );
}

#[test]
fn compressed_archive_holds_the_selected_documents() {
    let s = BatchTranslationService::new(&AppConfig::default());
    let docs = vec![doc("A", "a.md", "documents", 0, true), doc("B", "b.md", "guide", 1, true), doc("C", "c.md", "documents", 2, false)];
    let bytes = s.create_compressed_archive(&docs, "now").unwrap();
    let gz = flate2::read::GzDecoder::new(&bytes[..]);
    let mut ar = tar::Archive::new(gz);
    let names: Vec<String> = ar.entries().unwrap().map(|e| e.unwrap().path().unwrap().to_string_lossy().to_string()).collect();
    assert!(names.contains(&"README.md".to_string()));
    assert!(names.iter().any(|n| n.ends_with("a.md")));
    assert!(names.iter().any(|n| n.ends_with("b.md")));
    assert!(!names.iter().any(|n| n.ends_with("c.md")));
}

#[test]
fn a_batch_run_retries_then_gives_up() {
    let (mut run, start) = BatchRun::new(2);
    assert_eq!(start.total, 2);
    assert_eq!(start.current_task, "开始批量翻译");
    assert!(matches!(start.status, BatchStatus::Translating));
    assert!(!run.is_done());
    let p = run.progress("Intro");
    assert_eq!(p.current_task, "正在翻译: Intro (1/2)");
    assert_eq!(p.completed, 0);
    // First document: one failure, retried after 2 s, then translated.
    assert_eq!(run.record(None), BatchNext::Retry(2000));
    assert_eq!(run.current(), 0);
    assert_eq!(
        run.record(Some(doc("Intro", "intro.md", "docs", 0, true))),
        BatchNext::Advance { pause: 1000, rest: 0 }
    );
    assert_eq!(run.current(), 1);
    // Second document: two failures, then given up; the pause grows.
    assert_eq!(run.record(None), BatchNext::Retry(2000));
    assert_eq!(run.record(None), BatchNext::Advance { pause: 2000, rest: 0 });
    assert!(run.is_done());
    let (docs, last) = run.finish();
    assert_eq!(docs.len(), 1);
    assert_eq!(last.completed, 1);
    assert_eq!(last.failed_count, 1);
    assert_eq!(last.current_task, "翻译完成，成功: 1, 失败: 1");
    assert!(matches!(last.status, BatchStatus::Completed));
}

#[test]
fn a_batch_run_rests_after_every_tenth_document() {
    let (mut run, _) = BatchRun::new(10);
    for i in 0..9 {
        assert_eq!(
            run.record(Some(doc("d", "d.md", "docs", i, true))),
            BatchNext::Advance { pause: 1000, rest: 0 }
        );
    }
    assert_eq!(run.record(Some(doc("d", "d.md", "docs", 9, true))), BatchNext::Advance { pause: 1000, rest: 2000 });
    let (docs, last) = run.finish();
    assert_eq!(docs.len(), 10);
    assert_eq!(last.current_task, "所有文档翻译完成");
}

#[test]
fn batch_stages_show_their_progress() {
    let p = stage_progress(BatchStage::Starting);
    assert_eq!(p.current_task, "开始处理...");
    assert!(matches!(p.status, BatchStatus::Parsing));
    assert_eq!(stage_progress(BatchStage::ParsingIndex).current_task, "正在解析文档索引...");
    let p = stage_progress(BatchStage::Packaging(3));
    assert_eq!((p.total, p.completed), (3, 3));
    assert_eq!(p.current_task, "正在打包文件...");
    let p = stage_progress(BatchStage::Completed(3));
    assert_eq!(p.current_task, "批量翻译完成");
    assert!(matches!(p.status, BatchStatus::Completed));
    let msg = BatchFailure::Index.message("超时");
    assert_eq!(msg, "索引解析失败: 超时");
    let p = stage_progress(BatchStage::Failed(msg.clone()));
    assert_eq!(p.current_task, msg);
    assert!(matches!(p.status, BatchStatus::Failed(ref m) if *m == msg));
}

#[test]
fn batch_failures_are_reported_by_kind() {
    assert!(matches!(BatchFailure::Config.error("x"), AppError::ConfigError { ref message } if message == "配置加载失败: x"));
    assert!(matches!(BatchFailure::Index.error("x"), AppError::ExtractionError { ref message } if message == "索引解析失败: x"));
    assert!(matches!(BatchFailure::Translation.error("x"), AppError::TranslationError { ref message } if message == "批量翻译失败: x"));
    assert!(matches!(BatchFailure::Packaging.error("x"), AppError::FileError { ref message } if message == "打包失败: x"));
}

#[test]
fn batch_history_record_and_title() {
    let docs = vec![doc("Intro", "intro.md", "docs", 0, true), doc("Guide", "guide.md", "docs", 2, true)];
    let data = batch_history_data("https://example.com/docs/", 3, &docs);
    assert_eq!(data.total_documents, 3);
    assert_eq!(data.successful_documents, 2);
    assert_eq!(data.failed_documents, 1);
    assert_eq!(data.index_url, "https://example.com/docs/");
    assert_eq!(data.document_list.len(), 2);
    assert_eq!(data.document_list[1].title, "Guide");
    assert_eq!(data.document_list[1].order, 2);
    assert!(data.document_list[1].translated);
    assert_eq!(data.document_list[1].translated_content, "译文 Guide");
    assert_eq!(batch_history_title(&docs, Some("example.com".to_string())), "批量翻译: example.com");
    assert_eq!(batch_history_title(&docs, None), "批量翻译: example.com");
    assert_eq!(batch_history_title(&Vec::new(), None), "批量翻译: 未知网站");
}
