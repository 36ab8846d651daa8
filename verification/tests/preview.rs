use url_translator::services::preview_service::{
    build_preview, count_words, extract_preview_text, is_metadata_or_navigation, looks_like_title, truncate_to_sentence,
    validation_message, PreviewOptions,
};

fn chars(s: &str) -> Vec<char> {
    s.chars().collect()
}

#[test]
fn preview_takes_title_and_first_paragraphs() {
    let content = "# Title\n\nPublished: today\nFirst paragraph.\nSecond paragraph.\nThird.\nFourth.";
    let p = extract_preview_text(content, &PreviewOptions::default()).unwrap();
    assert_eq!(p, "# Title\n\nFirst paragraph.\n\nSecond paragraph.\n\nThird.");
}

#[test]
fn preview_without_title_and_with_a_small_limit() {
    let opts = PreviewOptions { max_paragraphs: 5, max_characters: 60, include_title: false };
    let content = "Intro line here.\nThis second paragraph is quite a bit longer than the room that is left, really.";
    let p = extract_preview_text(content, &opts).unwrap();
    assert_eq!(p, "Intro line here.");
    let opts = PreviewOptions { max_paragraphs: 1, max_characters: 100, include_title: false };
    assert_eq!(extract_preview_text("a\nb", &opts).unwrap(), "a");
}

#[test]
fn cutting_at_sentences() {
    assert_eq!(truncate_to_sentence(&chars("Hello world. This is long"), 20), Some(chars("Hello world.")));
    assert_eq!(truncate_to_sentence(&chars("short"), 20), Some(chars("short")));
    assert_eq!(truncate_to_sentence(&chars("one two three four five"), 10), Some(chars("one two...")));
    assert_eq!(truncate_to_sentence(&chars("abcdefghijkl"), 5), Some(chars("abcde...")));
}

#[test]
fn titles_and_metadata() {
    assert!(looks_like_title("Getting Started"));
    assert!(!looks_like_title("short"));
    assert!(!looks_like_title("Has. A dot"));
    assert!(!looks_like_title("all lower case"));
    assert!(is_metadata_or_navigation("Author: me"));
    assert!(is_metadata_or_navigation("Menu items"));
    assert!(is_metadata_or_navigation("[x](y)"));
    assert!(!is_metadata_or_navigation("Normal text"));
}

#[test]
fn preview_counts_and_reports() {
    assert_eq!(count_words("a b  c\n"), 3);
    let p = build_preview("两个 字".to_string(), "two words".to_string(), &PreviewOptions::default());
    assert_eq!(p.word_count, 2);
    assert_eq!(p.character_count, 4);
    assert_eq!(p.preview_length, 800);
    assert_eq!(validation_message(&Ok(p)), Ok("验证成功！提取了 4 字符，翻译为 9 字符".to_string()));
    assert_eq!(validation_message(&Err("x".to_string())), Err("验证失败: x".to_string()));
}

#[test]
fn blank_previews_are_refused() {
    assert_eq!(
        url_translator::services::preview_service::usable_preview("  \n\t ".to_string()),
        Err("无法提取有效的预览内容".to_string())
    );
    assert_eq!(
        url_translator::services::preview_service::usable_preview(" text ".to_string()),
        Ok(" text ".to_string())
    );
}

#[test]
fn quick_previews_are_small() {
    let o = url_translator::services::preview_service::PreviewOptions::quick();
    assert_eq!((o.max_paragraphs, o.max_characters, o.include_title), (1, 200, true));
}
