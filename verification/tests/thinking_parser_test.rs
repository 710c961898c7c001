use aitxt_compressor::model::ollama::ThinkingParser;

#[test]
fn test_output_before_thinking_tag() {
    let mut p = ThinkingParser::new();
    p.feed("正在思考");
    assert_eq!(p.take_output(), "正在思考");
    assert_eq!(p.take_reasoning(), "");
}

#[test]
fn test_thinking_content_goes_to_reasoning_only() {
    let mut p = ThinkingParser::new();
    p.feed("\u{3c}think\u{3e}这是思考内容");
    assert_eq!(p.take_output(), "");
    assert_eq!(p.take_reasoning(), "这是思考内容");
}

#[test]
fn test_output_resumes_after_closing_tag() {
    let mut p = ThinkingParser::new();
    p.feed("\u{3c}think\u{3e}思考\u{3c}/think\u{3e}实际输出");
    assert_eq!(p.take_reasoning(), "思考");
    assert_eq!(p.take_output(), "实际输出");
}

#[test]
fn test_tag_split_across_chunks() {
    let mut p = ThinkingParser::new();
    p.feed("正在\u{3c}thi");
    p.feed("nk\u{3e}思考内容\u{3c}/thi");
    p.feed("nk\u{3e}实际");
    assert_eq!(p.take_reasoning(), "思考内容");
    assert_eq!(p.take_output(), "正在实际");
}

#[test]
fn test_flush_emits_remaining_as_current_state() {
    let mut p = ThinkingParser::new();
    p.feed("\u{3c}think\u{3e}未闭合的思考");
    p.flush();
    assert_eq!(p.take_reasoning(), "未闭合的思考");
    assert_eq!(p.take_output(), "");
}

#[test]
fn test_flush_emits_output_when_not_in_thinking() {
    let mut p = ThinkingParser::new();
    p.feed("实际输出未结束");
    p.flush();
    assert_eq!(p.take_output(), "实际输出未结束");
    assert_eq!(p.take_reasoning(), "");
}

#[test]
fn test_multiple_think_blocks() {
    let mut p = ThinkingParser::new();
    p.feed("开头\u{3c}think\u{3e}第一段思考\u{3c}/think\u{3e}中间");
    assert_eq!(p.take_output(), "开头中间");
    assert_eq!(p.take_reasoning(), "第一段思考");
    p.feed("\u{3c}think\u{3e}第二段思考\u{3c}/think\u{3e}结尾");
    assert_eq!(p.take_output(), "结尾");
    assert_eq!(p.take_reasoning(), "第二段思考");
}

fn run_chunks(chunks: &[&str]) -> (String, String, String) {
    let mut p = ThinkingParser::new();
    let mut out = String::new();
    let mut reasoning = String::new();
    for c in chunks {
        p.feed(c);
        out.push_str(&p.take_output());
        reasoning.push_str(&p.take_reasoning());
    }
    p.flush();
    out.push_str(&p.take_output());
    reasoning.push_str(&p.take_reasoning());
    (out, reasoning, p.output_full())
}

#[test]
fn chunking_never_changes_the_result() {
    let text = "前言<think>推理一</think>答案<think>推理二</think>结尾<th";
    let whole = run_chunks(&[text]);
    assert_eq!(whole.0, "前言答案结尾<th");
    assert_eq!(whole.1, "推理一推理二");
    let chars: Vec<char> = text.chars().collect();
    for cut in 0..=chars.len() {
        let a: String = chars[..cut].iter().collect();
        let b: String = chars[cut..].iter().collect();
        assert_eq!(run_chunks(&[&a, &b]), whole, "cut at {}", cut);
    }
    let singles: Vec<String> = chars.iter().map(|c| c.to_string()).collect();
    let refs: Vec<&str> = singles.iter().map(|s| s.as_str()).collect();
    assert_eq!(run_chunks(&refs), whole);
}

#[test]
fn partial_tag_is_held_back_until_decided() {
    let mut p = ThinkingParser::new();
    p.feed("答案<thi");
    assert_eq!(p.take_output(), "答案");
    p.feed("s is not a tag");
    assert_eq!(p.take_output(), "<this is not a tag");
}

#[test]
fn output_full_keeps_taken_text() {
    let mut p = ThinkingParser::new();
    p.feed("一<think>x</think>二");
    let _ = p.take_output();
    p.flush();
    assert_eq!(p.output_full(), "一二");
}
