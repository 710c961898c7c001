use aitxt_compressor::model::ollama::{
    clean_content, model_listed, reasoning_to_think, ChatChunk, LoadedModel, OllamaStream,
    StreamAction, ThinkParam,
};

fn chunk(thinking: Option<&str>, content: Option<&str>) -> ChatChunk {
    ChatChunk {
        thinking: thinking.map(|s| s.to_string()),
        content: content.map(|s| s.to_string()),
        prompt_eval_count: None,
        eval_count: None,
        total_duration: None,
        load_duration: None,
        prompt_eval_duration: None,
        eval_duration: None,
    }
}

fn describe(actions: &[StreamAction]) -> Vec<String> {
    actions
        .iter()
        .map(|a| match a {
            StreamAction::Reasoning(s) => format!("R:{}", s),
            StreamAction::Delta(s) => format!("D:{}", s),
            StreamAction::LoopDetected => "LOOP".to_string(),
        })
        .collect()
}

#[test]
fn think_param_mapping() {
    assert!(matches!(reasoning_to_think(Some("none")), Some(ThinkParam::Bool(false))));
    match reasoning_to_think(Some("high")) {
        Some(ThinkParam::Level(l)) => assert_eq!(l, "high"),
        _ => panic!("expected a level"),
    }
    match reasoning_to_think(Some("xhigh")) {
        Some(ThinkParam::Level(l)) => assert_eq!(l, "xhigh"),
        _ => panic!("expected a level"),
    }
    assert!(reasoning_to_think(None).is_none());
}

#[test]
fn clean_content_strips_think_blocks_and_trims() {
    assert_eq!(clean_content("  <think>想</think> 答案  ", false), "答案");
    assert_eq!(clean_content("  纯输出\n", true), "纯输出");
    assert_eq!(clean_content("<think>x</think>y", true), "<think>x</think>y");
}

#[test]
fn stream_routes_thinking_and_content() {
    let mut s = OllamaStream::new();
    let a = s.on_chunk(&chunk(Some("推理"), None));
    assert_eq!(describe(&a), vec!["R:推理"]);
    let a = s.on_chunk(&chunk(None, Some("答<think>内</think>案")));
    assert_eq!(describe(&a), vec!["D:答案", "R:内"]);
    let a = s.on_chunk(&chunk(Some(""), Some("")));
    assert!(a.is_empty());
    assert!(!s.loop_detected());
}

#[test]
fn stream_finish_content_and_counters() {
    let mut s = OllamaStream::new();
    let mut c = chunk(None, Some(" 结果<th"));
    c.prompt_eval_count = Some(12);
    c.eval_count = Some(34);
    c.eval_duration = Some(5_000);
    let a = s.on_chunk(&c);
    assert_eq!(describe(&a), vec!["D: 结果"]);
    let end = s.finish(true);
    assert_eq!(describe(&end.tail), vec!["D:<th"]);
    assert_eq!(end.content.as_deref(), Some("结果<th"));
    assert_eq!(end.prompt_eval_count, 12);
    assert_eq!(end.eval_count, 34);
    assert_eq!(end.timing.eval_duration_ns, 5_000);
    assert_eq!(end.timing.total_duration_ns, 0);
}

#[test]
fn stream_empty_is_reported() {
    let s = OllamaStream::new();
    let end = s.finish(false);
    assert!(end.content.is_none());
    let s = OllamaStream::new();
    let end = s.finish(true);
    assert_eq!(end.content.as_deref(), Some(""));
}

#[test]
fn stream_answer_inside_reasoning_falls_back_to_raw_text() {
    let mut s = OllamaStream::new();
    let a = s.on_chunk(&chunk(None, Some("<think>只有思考")));
    assert_eq!(describe(&a), vec!["R:只有思考"]);
    let end = s.finish(true);
    assert!(end.tail.is_empty());
    assert_eq!(end.content.as_deref(), Some("<think>只有思考"));
}

#[test]
fn stream_content_loop_stops() {
    let mut s = OllamaStream::new();
    let piece = "这是用来测试循环检测器的一长段中文文本内容应该超过三十二个字符以触发检测";
    let mut stopped = false;
    for _ in 0..5 {
        let a = s.on_chunk(&chunk(None, Some(piece)));
        if describe(&a).contains(&"LOOP".to_string()) {
            stopped = true;
            break;
        }
    }
    assert!(stopped);
    assert!(s.loop_detected());
}

#[test]
fn streamed_answer_equals_whole_cleaning() {
    let text = "前<think>想法</think>后面的答案";
    let chars: Vec<char> = text.chars().collect();
    let mut s = OllamaStream::new();
    for c in &chars {
        s.on_chunk(&chunk(None, Some(&c.to_string())));
    }
    let end = s.finish(true);
    assert_eq!(end.content.unwrap(), clean_content(text, false));
}

fn loaded(name: Option<&str>, model: Option<&str>) -> LoadedModel {
    LoadedModel { name: name.map(|s| s.to_string()), model: model.map(|s| s.to_string()) }
}

#[test]
fn model_listed_by_name_or_model_field() {
    assert!(model_listed(&vec![loaded(Some("qwen3:1.7b"), None)], "qwen3:1.7b"));
    assert!(model_listed(&vec![loaded(None, Some("qwen3:1.7b"))], "qwen3:1.7b"));
    assert!(!model_listed(&vec![loaded(Some("llama3.2:3b"), None)], "qwen3:1.7b"));
    assert!(!model_listed(&Vec::new(), "qwen3:1.7b"));
}
