use url_translator::services::content_processor::{CodeProtectionStats, ContentProcessor};

const SAMPLE: &str = "Run `cargo build` now.\n```rust\nfn main() {}\n```\nSet $HOME_DIR and see ./src/main.rs or v1.2.3 then call init() and <div> here\nEnd";

#[test]
fn protected_text_hides_code_and_is_restored() {
    let mut p = ContentProcessor::new();
    let protected = p.protect_code_blocks(SAMPLE).unwrap();
    assert!(!protected.contains("cargo build"));
    assert!(!protected.contains("fn main"));
    assert!(!protected.contains("$HOME_DIR"));
    assert!(!protected.contains("init()"));
    assert!(!protected.contains("<div>"));
    assert!(protected.contains("__CODE_BLOCK_"));
    assert!(protected.starts_with("Run __CODE_BLOCK_"));
    assert!(protected.ends_with("\nEnd"));
    assert_eq!(p.restore_code_blocks(&protected), SAMPLE);
}

#[test]
fn statistics_count_each_kind() {
    let mut p = ContentProcessor::new();
    p.protect_code_blocks(SAMPLE).unwrap();
    let s = p.get_protection_stats();
    assert_eq!(s.fenced_blocks, 1);
    assert_eq!(s.inline_blocks, 1);
    assert_eq!(s.env_variables, 1);
    assert_eq!(s.file_paths, 1);
    assert_eq!(s.version_numbers, 1);
    assert_eq!(s.function_names, 1);
    assert_eq!(s.html_tags, 1);
    assert_eq!(s.total_blocks(), 7);
    assert_eq!(
        s.get_summary(),
        "已保护 7 个内容项 (代码块: 1, 行内代码: 1, 文件路径: 1, 环境变量: 1, 版本号: 1, 函数名: 1, HTML标签: 1)"
    );
    p.clear();
    assert_eq!(p.get_protection_stats().total_blocks(), 0);
}

#[test]
fn nothing_to_protect() {
    let mut p = ContentProcessor::new();
    let text = "Plain words only.";
    assert_eq!(p.protect_code_blocks(text).unwrap(), text);
    assert_eq!(CodeProtectionStats::default().get_summary(), "未检测到需要保护的内容");
    assert_eq!(p.restore_code_blocks("x"), "x");
}

#[test]
fn command_lines_and_json_are_protected() {
    let mut p = ContentProcessor::new();
    let text = "$ npm install\nconfig: {\"name\": \"demo\"}\n";
    let protected = p.protect_code_blocks(text).unwrap();
    let s = p.get_protection_stats();
    assert_eq!(s.command_lines, 1);
    assert_eq!(s.json_data, 1);
    assert_eq!(p.restore_code_blocks(&protected), text);
}

#[test]
fn version_numbers() {
    let p = ContentProcessor::new();
    assert!(p.is_version_number("v1.2.3"));
    assert!(p.is_version_number("1.0.0-beta"));
    assert!(!p.is_version_number("v1"));
    assert!(!p.is_version_number("abc"));
    assert!(!p.is_version_number("1.2.3.4.5"));
    assert!(!p.is_version_number("12"));
}
