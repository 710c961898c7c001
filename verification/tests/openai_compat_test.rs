use aitxt_compressor::model::ollama::StreamAction;
use aitxt_compressor::model::openai_compat::{
    first_choice_content, OpenAiCompatClient, OpenAiError, OpenAiStream, SseDelta, ThinkingMode,
};

fn delta(content: Option<&str>, reasoning: Option<&str>) -> SseDelta {
    SseDelta {
        content: content.map(|s| s.to_string()),
        reasoning_content: reasoning.map(|s| s.to_string()),
        prompt_tokens: None,
        completion_tokens: None,
        total_tokens: None,
        reasoning_tokens: None,
    }
}

#[test]
fn endpoint_from_base_url() {
    let c = OpenAiCompatClient::from_base_url("https://api.openai.com/v1/", "k", "m");
    assert_eq!(c.endpoint(), "https://api.openai.com/v1/chat/completions");
    let c = OpenAiCompatClient::from_base_url("https://api.moonshot.cn//", "k", "m");
    assert_eq!(c.endpoint(), "https://api.moonshot.cn/v1/chat/completions");
    let c = OpenAiCompatClient::from_base_url("https://x.y/chat/completions?q=1", "k", "m");
    assert_eq!(c.endpoint(), "https://x.y/chat/completions?q=1");
    assert_eq!(c.api_key(), "k");
    assert_eq!(c.model(), "m");
}

#[test]
fn deepseek_client() {
    let c = OpenAiCompatClient::deepseek("sk", "deepseek-v4-chat");
    assert_eq!(c.endpoint(), "https://api.deepseek.com/chat/completions");
    assert!(c.check_api_key().is_ok());
}

#[test]
fn missing_api_key_is_refused() {
    let c = OpenAiCompatClient::new("https://e", "", "m");
    assert!(matches!(c.check_api_key(), Err(OpenAiError::MissingApiKey)));
}

#[test]
fn deepseek_v4_thinking_and_effort() {
    let c = OpenAiCompatClient::deepseek("sk", "deepseek-v4-pro");
    let cases: Vec<(Option<&str>, ThinkingMode, Option<&str>)> = vec![
        (None, ThinkingMode::Disabled, None),
        (Some(""), ThinkingMode::Disabled, None),
        (Some("none"), ThinkingMode::Disabled, None),
        (Some("low"), ThinkingMode::Enabled, Some("high")),
        (Some("medium"), ThinkingMode::Enabled, Some("high")),
        (Some("xhigh"), ThinkingMode::Enabled, Some("max")),
        (Some("high"), ThinkingMode::Enabled, Some("high")),
        (Some("max"), ThinkingMode::Enabled, Some("max")),
        (Some("turbo"), ThinkingMode::Enabled, Some("turbo")),
    ];
    for (input, mode, effort) in cases {
        let (t, e) = c.build_thinking_and_effort(input);
        assert!(t == Some(mode), "input {:?}", input);
        assert_eq!(e.as_deref(), effort, "input {:?}", input);
    }
}

#[test]
fn other_models_pass_effort_through() {
    let c = OpenAiCompatClient::deepseek("sk", "deepseek-chat");
    let (t, e) = c.build_thinking_and_effort(Some("low"));
    assert!(t.is_none());
    assert_eq!(e.as_deref(), Some("low"));
    let c = OpenAiCompatClient::new("https://e", "k", "deepseek-v4-pro");
    let (t, e) = c.build_thinking_and_effort(None);
    assert!(t.is_none());
    assert!(e.is_none());
}

#[test]
fn first_choice_is_trimmed() {
    let v = vec!["  答案 \n".to_string(), "其他".to_string()];
    assert_eq!(first_choice_content(&v).ok().unwrap(), "答案");
    assert!(matches!(first_choice_content(&Vec::new()), Err(OpenAiError::NoChoices)));
}

#[test]
fn stream_accumulates_and_reports() {
    let mut s = OpenAiStream::new();
    let a = s.on_delta(&delta(Some(" 你好"), Some("想")));
    assert_eq!(a.len(), 2);
    assert!(matches!(&a[0], StreamAction::Delta(t) if t == " 你好"));
    assert!(matches!(&a[1], StreamAction::Reasoning(t) if t == "想"));
    let mut d = delta(Some("世界 "), Some(""));
    d.prompt_tokens = Some(7);
    d.completion_tokens = Some(3);
    d.total_tokens = Some(10);
    let a = s.on_delta(&d);
    assert_eq!(a.len(), 1);
    let out = s.finish("raw".to_string());
    assert_eq!(out.content, "你好世界");
    assert_eq!(out.reasoning_text.as_deref(), Some("想"));
    assert_eq!(out.usage.prompt_tokens, 7);
    assert_eq!(out.usage.completion_tokens, 3);
    assert_eq!(out.usage.total_tokens, 10);
    assert_eq!(out.usage.reasoning_tokens, 0);
    assert_eq!(out.raw_response, "raw");
}

#[test]
fn stream_without_reasoning_has_none() {
    let mut s = OpenAiStream::new();
    s.on_delta(&delta(Some("x"), None));
    let out = s.finish(String::new());
    assert!(out.reasoning_text.is_none());
    assert_eq!(out.content, "x");
}

#[test]
fn usage_counts_are_cut_to_32_bits() {
    let mut s = OpenAiStream::new();
    let mut d = delta(None, None);
    d.prompt_tokens = Some((1u64 << 32) + 5);
    s.on_delta(&d);
    assert_eq!(s.finish(String::new()).usage.prompt_tokens, 5);
}
