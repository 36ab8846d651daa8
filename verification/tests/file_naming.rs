use url_translator::clock::Timestamp;
use url_translator::services::file_naming_service::{
    batch_filename_at, generate_batch_filename, generate_single_page_filename, single_page_filename_at,
    FileNamingConfig, FileNamingContext, FileNamingMode, FileNamingService,
};

fn now() -> Timestamp {
    let t = chrono::Utc::now();
    Timestamp { secs: t.timestamp(), nanos: t.timestamp_subsec_nanos() }
}

#[test]
fn test_clean_title() {
    let service = FileNamingService::with_default_config();

    assert_eq!(service.clean_title("Hello World"), "hello_world");
    assert_eq!(service.clean_title("Rust Programming Guide"), "rust_programming_guide");
    assert_eq!(
        service.clean_title("API Reference / Getting Started"),
        "api_reference_getting_started"
    );
    assert_eq!(service.clean_title("文档 - 快速开始"), "文档_快速开始");
}

#[test]
fn test_extract_domain() {
    let service = FileNamingService::with_default_config();

    assert_eq!(service.extract_domain("https://example.com/docs"), "example_com");
    assert_eq!(service.extract_domain("https://rust-lang.org/book"), "rust_lang_org");
    assert_eq!(service.extract_domain("invalid-url"), "unknown");
}

#[test]
fn test_file_naming_modes() {
    let context = FileNamingContext {
        url: "https://example.com/docs/getting-started".to_string(),
        title: "Getting Started Guide".to_string(),
        order: Some(0),
        timestamp: now(),
        content_type: "documentation".to_string(),
        folder_path: None,
    };

    // Test TitleOnly mode
    let mut config = FileNamingConfig::default();
    config.mode = FileNamingMode::TitleOnly;
    let mut service = FileNamingService::new(config);
    let result = service.generate_file_name(&context);
    assert_eq!(result.file_name, "getting_started_guide.md");

    // Test OrderTitle mode
    let mut config = FileNamingConfig::default();
    config.mode = FileNamingMode::OrderTitle;
    service.update_config(config);
    let result = service.generate_file_name(&context);
    assert_eq!(result.file_name, "001_getting_started_guide.md");
}

#[test]
fn test_unique_naming() {
    let context = FileNamingContext {
        url: "https://example.com/docs".to_string(),
        title: "Test Document".to_string(),
        order: None,
        timestamp: now(),
        content_type: "article".to_string(),
        folder_path: None,
    };

    let mut service = FileNamingService::with_default_config();

    // First file
    let result1 = service.generate_file_name(&context);
    // Second file with same title
    let result2 = service.generate_file_name(&context);

    assert_ne!(result1.file_name, result2.file_name);
    assert!(result2.file_name.contains("_1"));
}

#[test]
fn truncate_keeps_short_names_and_cuts_long_ones_at_a_separator() {
    let mut config = FileNamingConfig::default();
    config.max_length = 10;
    let service = FileNamingService::new(config);
    assert_eq!(service.truncate_name("short"), "short");
    // 14 bytes: cut to 10 characters "abcd_efgh_", last '_' at byte 9 > 5.
    assert_eq!(service.truncate_name("abcd_efgh_ijkl"), "abcd_efgh");
    // separator too early: keep the 10 characters
    assert_eq!(service.truncate_name("ab_cdefghijklmn"), "ab_cdefghi");
}

#[test]
fn unique_names_count_up_from_one() {
    let mut service = FileNamingService::with_default_config();
    service.add_used_name("doc");
    service.add_used_name("doc_1");
    assert_eq!(service.ensure_unique_name("doc"), "doc_2");
    assert_eq!(service.ensure_unique_name("other"), "other");
    service.reset_used_names();
    assert_eq!(service.ensure_unique_name("doc"), "doc");
}

#[test]
fn domain_path_title_and_custom_modes() {
    let context = FileNamingContext {
        url: "https://example.com/docs/guide/intro.html".to_string(),
        title: "Intro Page".to_string(),
        order: Some(4),
        timestamp: Timestamp { secs: 0, nanos: 0 },
        content_type: "documentation".to_string(),
        folder_path: Some("out".to_string()),
    };
    let mut config = FileNamingConfig::default();
    config.mode = FileNamingMode::DomainPathTitle;
    let mut service = FileNamingService::new(config);
    let r = service.generate_file_name(&context);
    assert_eq!(r.file_name, "example_com_docs_guide_intro_page.md");
    assert_eq!(r.full_path, "out/example_com_docs_guide_intro_page.md");

    let mut config = FileNamingConfig::default();
    config.mode = FileNamingMode::Custom("{order}-{title}-{timestamp}-{content_type}".to_string());
    let mut service = FileNamingService::new(config);
    let r = service.generate_file_name(&context);
    assert_eq!(r.file_name, "005-intro_page-19700101_000000-documentation.md");

    let config = FileNamingConfig::default();
    let mut service = FileNamingService::new(config);
    let r = service.generate_file_name(&context);
    assert_eq!(r.file_name, "intro_page_19700101_000000.md");
    assert_eq!(r.extension, ".md");
    assert_eq!(r.cleaned_title, "intro_page");
}

#[test]
fn unformattable_timestamp_gives_no_name() {
    let context = FileNamingContext {
        url: "https://example.com".to_string(),
        title: "T".to_string(),
        order: None,
        timestamp: Timestamp { secs: i64::MAX, nanos: 0 },
        content_type: "article".to_string(),
        folder_path: None,
    };
    let mut service = FileNamingService::with_default_config();
    assert!(service.try_generate_file_name(&context).is_none());
    assert!(service.try_preview_file_name(&context).is_none());
}

#[test]
fn single_page_filename_uses_title_and_timestamp() {
    let t = Timestamp { secs: 1751985022, nanos: 0 };
    assert_eq!(
        single_page_filename_at("https://example.com/docs/intro", "Hello World", t),
        Some("hello_world_20250708_143022.md".to_string())
    );
}

#[test]
fn batch_filename_does_not_print_the_order_by_default() {
    let t = Timestamp { secs: 1751985022, nanos: 0 };
    assert_eq!(
        batch_filename_at("https://example.com/docs/intro", "Getting Started", 4, t),
        Some("getting_started_20250708_143022.md".to_string())
    );
    // The largest order is accepted: the default mode never prints it.
    assert_eq!(
        batch_filename_at("https://example.com/docs/intro", "Getting Started", usize::MAX, t),
        Some("getting_started_20250708_143022.md".to_string())
    );
}

#[test]
fn filename_for_an_instant_chrono_cannot_hold_is_refused() {
    let t = Timestamp { secs: i64::MAX, nanos: 0 };
    assert_eq!(single_page_filename_at("https://example.com", "Title", t), None);
}

#[test]
fn filenames_for_now_have_the_default_shape() {
    let single = generate_single_page_filename("https://example.com/a", "My Page").unwrap();
    assert!(single.starts_with("my_page_"));
    assert!(single.ends_with(".md"));
    assert_eq!(single.len(), "my_page_".len() + 15 + 3);
    let batch = generate_batch_filename("https://example.com/a", "Chapter One", 2).unwrap();
    assert!(batch.starts_with("chapter_one_"));
    assert!(batch.ends_with(".md"));
}

#[test]
fn cleaning_a_cleaned_title_changes_nothing() {
    let service = FileNamingService::with_default_config();
    let once = service.clean_title("  Hello,   World!! -- v2 ");
    assert_eq!(once, "hello_world_v2");
    assert_eq!(service.clean_title(&once), once);
    assert!(!once.contains("__"));
    assert!(!once.starts_with('_') && !once.ends_with('_'));
    assert!(once.chars().all(|c| c.is_ascii_lowercase() || c.is_ascii_digit() || c == '_'));
}

#[test]
fn cleaned_titles_hold_no_doubled_or_edge_separator() {
    let service = FileNamingService::with_default_config();
    let r = service.clean_title("__文档\u{3000}--  快速**开始__");
    assert!(!r.contains("__"));
    assert!(!r.starts_with('_') && !r.ends_with('_'));
    assert!(!r.chars().any(char::is_whitespace));
}

#[test]
fn a_preview_is_the_next_generated_name() {
    let context = FileNamingContext {
        url: "https://example.com/docs".to_string(),
        title: "Preview Me".to_string(),
        order: None,
        timestamp: now(),
        content_type: "article".to_string(),
        folder_path: Some("guide".to_string()),
    };
    let mut config = FileNamingConfig::default();
    config.mode = FileNamingMode::TitleOnly;
    let mut service = FileNamingService::new(config);
    let p1 = service.preview_file_name(&context);
    let p2 = service.preview_file_name(&context);
    assert_eq!(p1.file_name, p2.file_name);
    let g = service.generate_file_name(&context);
    assert_eq!(p1.file_name, g.file_name);
    assert_eq!(p1.full_path, g.full_path);
    assert_eq!(g.full_path, "guide/preview_me.md");
    let next = service.preview_file_name(&context);
    assert_eq!(next.file_name, "preview_me_1.md");
}
