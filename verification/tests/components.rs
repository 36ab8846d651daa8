use url_translator::components::auth_modal::{submit_auth_form, validate_auth_form, AuthMode, AuthSubmission};
use url_translator::components::batch_translation::{clean_domain_name, extract_domain_from_url, generate_smart_archive_name};
use url_translator::components::bilingual_display::create_bilingual_pairs;
use url_translator::components::file_name_preview::extract_title_from_url;
use url_translator::components::notification::{Notification, NotificationManager, NotificationType};
use url_translator::components::view_mode::ViewMode;
use url_translator::hooks::use_batch_translation::generate_archive_name;
use url_translator::error::app_error::AppError;
use url_translator::hooks::use_translation::{extract_title_from_content, TranslationFailure, TranslationStatus};

#[test]
fn domains_are_cleaned_for_file_names() {
    assert_eq!(clean_domain_name("docs.rust-lang.org"), "docs_rust-lang_org");
    assert_eq!(clean_domain_name("..a.."), "a");
    assert_eq!(clean_domain_name("例子.中国"), "例子_中国");
}

#[test]
fn domain_of_a_url() {
    assert_eq!(extract_domain_from_url("https://example.com/docs/x"), "example.com");
    assert_eq!(extract_domain_from_url("http://localhost:8080"), "localhost");
    assert_eq!(extract_domain_from_url("https://example.com"), "example.com");
    assert_eq!(extract_domain_from_url("example.com/x"), "docs");
}

#[test]
fn smart_archive_names() {
    assert_eq!(
        generate_smart_archive_name("https://docs.rs/tokio", 2024, 0, 5, 9, 7, 3),
        "docs_rs_20240105_090703.tar.gz"
    );
}

#[test]
fn archive_names_from_the_browser_clock() {
    assert_eq!(
        generate_archive_name("https://x.org/a", Some("docs.rs".to_string()), Some("2024-01-05T09:07:03.123Z".to_string())),
        "docs_rs_2024-01-05_090703123Z.tar.gz"
    );
    assert_eq!(generate_archive_name("https://x.org/a", Some(String::new()), None), "x_org_unknown.tar.gz");
    assert_eq!(generate_archive_name("nothing", None, None), "unknown_unknown.tar.gz");
}

#[test]
fn bilingual_pairs_skip_blank_pairs_and_pad() {
    let pairs = create_bilingual_pairs("a\n\nb\nc", "A\n \nB");
    assert_eq!(
        pairs,
        vec![
            ("a".to_string(), "A".to_string()),
            ("b".to_string(), "B".to_string()),
            ("c".to_string(), "".to_string()),
        ]
    );
    assert!(create_bilingual_pairs("", "").is_empty());
}

#[test]
fn titles_from_urls() {
    assert_eq!(extract_title_from_url(""), "untitled");
    assert_eq!(extract_title_from_url("https://example.com/guide/intro.html"), "intro");
    assert_eq!(extract_title_from_url("https://docs.example.com/index.html"), "docs_example_com");
    assert_eq!(extract_title_from_url("https://docs.example.com/"), "docs_example_com");
    assert_eq!(extract_title_from_url("not a url"), "untitled");
    assert_eq!(extract_title_from_url("http://127.0.0.1/"), "untitled");
}

#[test]
fn titles_from_content() {
    assert_eq!(extract_title_from_content("# A Long Enough Title\nbody"), "A Long Enough Title");
    assert_eq!(extract_title_from_content("short\n\n## Another heading line"), "Another heading line");
    assert_eq!(extract_title_from_content("tiny"), "tiny...");
    assert_eq!(extract_title_from_content("   "), "无标题");
    let long = "x".repeat(300);
    assert_eq!(extract_title_from_content(&long), format!("{}...", "x".repeat(50)));
}

#[test]
fn notifications_have_ids_and_durations() {
    let n = Notification::success("ok");
    assert_eq!(n.notification_type, NotificationType::Success);
    assert_eq!(n.duration, Some(3));
    assert_eq!(n.id.len(), 36);
    assert_eq!(Notification::error("e").duration, Some(5));
    assert_eq!(Notification::warning("w").duration, Some(4));
    assert_eq!(Notification::info("i").duration, Some(3));
    assert_ne!(Notification::info("i").id, Notification::info("i").id);
}

#[test]
fn notification_list() {
    let mut m = NotificationManager::new();
    let (id1, d1) = m.success("one");
    let (_, d2) = m.error("two");
    assert_eq!(d1, Some(3));
    assert_eq!(d2, Some(5));
    assert_eq!(m.get_notifications().len(), 2);
    m.remove(&id1);
    let left = m.get_notifications();
    assert_eq!(left.len(), 1);
    assert_eq!(left[0].message, "two");
    m.remove("missing");
    assert_eq!(m.get_notifications().len(), 1);
    m.clear();
    assert!(m.get_notifications().is_empty());
}

#[test]
fn adding_then_removing_a_notification_leaves_the_list_as_it_was() {
    let mut m = NotificationManager::new();
    m.info("first");
    m.warning("second");
    let before: Vec<String> = m.get_notifications().into_iter().map(|n| n.id).collect();
    let (id, _) = m.success("third");
    m.remove(&id);
    let after: Vec<String> = m.get_notifications().into_iter().map(|n| n.id).collect();
    assert_eq!(before, after);
    assert!(after.iter().all(|i| *i != id));
}

#[test]
fn view_modes() {
    assert_eq!(ViewMode::all(), vec![ViewMode::Original, ViewMode::Translated, ViewMode::Bilingual]);
    assert_eq!(ViewMode::Translated.to_string(), "译文");
    assert_eq!(ViewMode::Bilingual.description(), "显示原文译文对照");
    assert_eq!(ViewMode::Original.active_color_classes(), "bg-blue-500 text-white border-blue-500");
    assert!(ViewMode::Bilingual.color_classes().starts_with("bg-purple-100"));
    assert!(ViewMode::Original.icon().starts_with("M9 12h6"));
}

#[test]
fn page_translation_statuses_and_failures() {
    assert_eq!(TranslationStatus::ExtractingContent.progress_text(), "正在提取网页内容...");
    assert_eq!(TranslationStatus::Translating.progress_text(), "正在翻译内容...");
    assert_eq!(TranslationStatus::Completed.progress_text(), "翻译完成");
    assert_eq!(TranslationStatus::Idle.progress_text(), "");
    assert_eq!(TranslationFailure::Config.message("读取失败"), "配置加载失败: 读取失败");
    assert_eq!(
        TranslationFailure::Extraction.message("超时"),
        "内容提取失败: 超时。请检查URL是否有效，或Jina API是否可用。"
    );
    let (status, error) = TranslationFailure::Translation.outcome("429");
    assert!(matches!(status, TranslationStatus::Failed(ref m) if m == "翻译失败: 429。请检查DeepLX API配置。"));
    assert!(matches!(error, AppError::TranslationError { ref message } if message == "翻译失败: 429。请检查DeepLX API配置。"));
}

#[test]
fn auth_form_checks_each_field_in_order() {
    assert_eq!(AuthMode::Login.toggled(), AuthMode::Register);
    assert_eq!(AuthMode::Register.toggled(), AuthMode::Login);
    assert_eq!(validate_auth_form(AuthMode::Login, "", "", "", ""), vec!["请输入邮箱地址", "请输入密码"]);
    assert_eq!(
        validate_auth_form(AuthMode::Login, "user.example.com", "short", "", ""),
        vec!["请输入有效的邮箱地址", "密码长度至少为8位"]
    );
    assert!(validate_auth_form(AuthMode::Login, "a@b.c", "longenough", "", "other").is_empty());
    assert_eq!(
        validate_auth_form(AuthMode::Register, "a@b.c", "longenough", "ab", "different"),
        vec!["用户名长度至少为3位", "两次输入的密码不一致"]
    );
    assert_eq!(
        validate_auth_form(AuthMode::Register, "a@b.c", "longenough", "", "longenough"),
        vec!["请输入用户名"]
    );
    match submit_auth_form(AuthMode::Register, "a@b.c", "longenough", "alice", "longenough") {
        Ok(AuthSubmission::Register(q)) => {
            assert_eq!(q.username, "alice");
            assert_eq!(q.email, "a@b.c");
            assert_eq!(q.password, "longenough");
        },
        _ => panic!("expected a registration"),
    }
    match submit_auth_form(AuthMode::Login, "a@b.c", "longenough", "", "") {
        Ok(AuthSubmission::Login(q)) => assert_eq!(q.email, "a@b.c"),
        _ => panic!("expected a login"),
    }
    assert_eq!(submit_auth_form(AuthMode::Login, "a@b.c", "", "", "").unwrap_err(), vec!["请输入密码"]);
}
