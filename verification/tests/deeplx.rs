use url_translator::services::jina_service::{jina_reply, jina_url};
use url_translator::services::deeplx_service::{
    deeplx_reply, join_translations, split_long_section, split_text_into_chunks, try_split_text_into_chunks,
};
use url_translator::types::api_types::DeepLXResponse;

fn owned(v: &[&str]) -> Vec<String> {
    v.iter().map(|s| s.to_string()).collect()
}

#[test]
fn short_text_is_one_chunk() {
    assert_eq!(split_text_into_chunks("short", 10, 5), owned(&["short"]));
}

#[test]
fn blank_lines_separate_chunks_first() {
    assert_eq!(split_text_into_chunks("aaaa\n\nbbbb\n\ncccc", 10, 5), owned(&["aaaa\n\nbbbb", "cccc"]));
}

#[test]
fn single_line_breaks_when_there_is_no_blank_line() {
    assert_eq!(split_text_into_chunks("one two\nthree four", 10, 5), owned(&["one two", "three four"]));
}

#[test]
fn sentences_when_there_is_no_line_break() {
    assert_eq!(split_text_into_chunks("Hello world. Bye now.", 15, 5), owned(&["Hello world.", "Bye now."]));
    assert_eq!(split_long_section("aaa bbb ccc", 5), owned(&["aaa", "bbb", "ccc"]));
}

#[test]
fn every_chunk_fits_or_is_the_whole_text() {
    let text = "First paragraph here.\n\nSecond one is a bit longer than the first.\n\nThird.";
    let chunks = split_text_into_chunks(text, 25, 3);
    for c in &chunks {
        assert!(c.len() <= 25 || c == text);
    }
}

#[test]
fn cutting_through_a_character_is_refused() {
    assert_eq!(try_split_text_into_chunks("ééééééé", 3, 1), None);
}

#[test]
fn translations_are_joined_by_blank_lines() {
    assert_eq!(join_translations(&owned(&["a", "b", "c"])), "a\n\nb\n\nc");
    assert_eq!(join_translations(&Vec::new()), "");
}

fn standard(code: i32, data: &str) -> Option<DeepLXResponse> {
    Some(DeepLXResponse { code, data: data.to_string(), alternatives: Vec::new() })
}

#[test]
fn standard_replies() {
    assert_eq!(deeplx_reply(true, "200 OK", Ok("{}".to_string()), standard(200, "你好")), Ok("你好".to_string()));
    assert_eq!(
        deeplx_reply(true, "200 OK", Ok("{}".to_string()), standard(200, "")),
        Err("DeepLX返回了空的翻译结果".to_string())
    );
    assert_eq!(
        deeplx_reply(true, "200 OK", Ok("{}".to_string()), standard(-1, "x")),
        Err("DeepLX翻译失败，返回代码: -1，可能是语言不支持或文本格式问题".to_string())
    );
}

#[test]
fn other_replies() {
    assert_eq!(deeplx_reply(true, "200 OK", Ok("  \n".to_string()), None), Err("API返回了空的翻译结果".to_string()));
    assert_eq!(deeplx_reply(true, "200 OK", Ok("plain text".to_string()), None), Ok("plain text".to_string()));
    assert_eq!(
        deeplx_reply(true, "200 OK", Ok("{\"result\": \"译文\"}".to_string()), None),
        Ok("译文".to_string())
    );
    assert_eq!(
        deeplx_reply(true, "200 OK", Ok("{\"translated_text\": 3, \"result\": \"x\"}".to_string()), None),
        Err("无法从JSON响应中提取翻译结果: {\"translated_text\": 3, \"result\": \"x\"}".to_string())
    );
    assert_eq!(
        deeplx_reply(true, "200 OK", Ok("{broken".to_string()), None),
        Err("无法解析JSON响应: {broken".to_string())
    );
    assert_eq!(
        deeplx_reply(true, "200 OK", Err("eof".to_string()), None),
        Err("读取响应文本失败: eof".to_string())
    );
}

#[test]
fn failed_status() {
    assert_eq!(
        deeplx_reply(false, "404 Not Found", Ok("nope".to_string()), None),
        Err("DeepLX API请求失败: 404 Not Found - nope，请检查API地址是否正确".to_string())
    );
    assert_eq!(
        deeplx_reply(false, "500", Err("x".to_string()), None),
        Err("DeepLX API请求失败: 500 - 无法读取错误信息，请检查API地址是否正确".to_string())
    );
}

#[test]
fn jina_requests_and_replies() {
    let c = url_translator::types::api_types::AppConfig::default();
    assert_eq!(jina_url(&c, "https://a.com/x"), "https://r.jina.ai/https://a.com/x");
    assert_eq!(jina_reply(true, "200 OK", Ok("page".to_string())), Ok("page".to_string()));
    assert_eq!(
        jina_reply(true, "200 OK", Ok(String::new())),
        Err("Jina API返回了空内容，URL可能无效或无法访问".to_string())
    );
    assert_eq!(jina_reply(true, "200 OK", Err("eof".to_string())), Err("读取响应内容失败: eof".to_string()));
    assert_eq!(jina_reply(false, "403", Ok("denied".to_string())), Err("Jina API请求失败: 403 - denied".to_string()));
    assert_eq!(jina_reply(false, "500", Err("x".to_string())), Err("Jina API请求失败: 500 - 无法读取错误信息".to_string()));
}

#[test]
fn translation_plans() {
    use_plan();
}

fn use_plan() {
    match url_translator::services::deeplx_service::plan_translation("short text", 100, 5) {
        Some(url_translator::services::deeplx_service::TranslationPlan::Whole) => {},
        _ => panic!("a text that fits goes whole"),
    }
    let long = "First part here.\n\nSecond part here.";
    match url_translator::services::deeplx_service::plan_translation(long, 20, 5) {
        Some(url_translator::services::deeplx_service::TranslationPlan::Chunks(c)) => {
            assert_eq!(c, vec!["First part here.".to_string(), "Second part here.".to_string()]);
        },
        _ => panic!("a long text goes in chunks"),
    }
    assert_eq!(
        url_translator::services::deeplx_service::accept_header("https://api.example.com/dptrans/translate"),
        "application/json, text/plain, */*"
    );
    assert_eq!(url_translator::services::deeplx_service::accept_header("http://localhost:1188/translate"), "application/json");
}
