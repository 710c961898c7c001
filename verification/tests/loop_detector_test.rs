use aitxt_compressor::model::loop_detector::{LoopDetector, ThinkingLoopDetector};

#[test]
fn test_no_loop_short_text() {
    let mut d = LoopDetector::new();
    let text = "这是一个测试句子，用来验证检测器不会误报。";
    assert!(!d.feed(text));
}

#[test]
fn test_detect_loop() {
    let mut d = LoopDetector::new();
    let chunk = "这是用来测试循环检测器的一长段中文文本内容应该超过三十二个字符以触发检测";
    assert!(!d.feed(chunk));
    assert!(!d.feed(chunk));
    assert!(!d.feed(chunk));
    assert!(!d.feed(chunk));
    assert!(d.feed(chunk));
}

#[test]
fn test_max_chars_limit() {
    let mut d = LoopDetector::new();
    d.set_max_chars(50);
    let text = "abcdefghijklmnopqrstuvwxyz";
    assert!(!d.feed(text));
    assert!(d.feed(text));
}

#[test]
fn test_thinking_no_loop_normal_reasoning() {
    let mut d = ThinkingLoopDetector::new();
    let reasoning = "首先分析问题：用户希望压缩文本。\
                     接着考虑方法：可以用抽取式或生成式。\
                     然后选择策略：先规则清洗再模型精修。\
                     最后验证结果：检查字数和语义保留。";
    assert!(!d.feed(reasoning));
}

#[test]
fn test_thinking_detect_repeated_long_segment() {
    let mut d = ThinkingLoopDetector::new();
    let unit = "abcdefghijklmnopqrstuvwxyz0123456789\
                abcdefghijklmnopqrstuvwxyz0123456789\
                abcdefghijklmnopqrstuvwxyz0123456789\
                abcdefghijklmnopqrstuvwxyz0123456789\
                abcdefghijklmnopqrstuvwxyz0123456789\
                abcdefghijklmnopqrst";
    assert_eq!(unit.chars().count(), 200, "unit 必须恰好 200 字符");
    let repeated = unit.repeat(3);
    assert!(d.feed(&repeated));
}

#[test]
fn test_thinking_max_chars_limit() {
    let mut d = ThinkingLoopDetector::new();
    d.set_max_chars(100);
    let text = "abcdefghijklmnopqrstuvwxyz0123456789\
                abcdefghijklmnopqrstuvwxyz0123456789\
                abcdefghijklmnopqrstuvwxyz0123456789\
                abcd";
    assert_eq!(text.chars().count(), 112);
    assert!(d.feed(text));
}

#[test]
fn test_thinking_normal_progression_not_flagged() {
    let mut d = ThinkingLoopDetector::new();
    let segments = [
        "第一步，我需要理解用户的输入文本在讲什么内容。这段文本是关于软件工程的项目计划评审。",
        "第二步，分析需要保留的核心信息。包括评分、问题点、修改建议等关键内容。",
        "第三步，确定压缩策略。采用结构化压缩，保留评分和四大修改点的主要论点。",
        "第四步，开始撰写压缩后的文本。注意保持语义不变，字数控制在目标范围内。",
        "第五步，检查输出。确认字数达标，核心语义保留，没有遗漏重要信息。",
    ];
    for seg in segments.iter() {
        assert!(!d.feed(seg), "正常推导不应触发: {}", seg);
    }
}

#[test]
fn limit_reached_exactly_reports_loop() {
    let mut d = LoopDetector::new();
    d.set_max_chars(10);
    assert!(!d.feed("abcdefghi"));
    assert!(d.feed("j"));
}

#[test]
fn reset_forgets_history() {
    let mut d = LoopDetector::new();
    let chunk = "这是用来测试循环检测器的一长段中文文本内容应该超过三十二个字符以触发检测";
    for _ in 0..4 {
        assert!(!d.feed(chunk));
    }
    d.reset();
    for _ in 0..4 {
        assert!(!d.feed(chunk));
    }
    assert!(d.feed(chunk));
}

#[test]
fn default_detectors_match_new() {
    let mut a = LoopDetector::default();
    let mut b = ThinkingLoopDetector::default();
    assert!(!a.feed("短文本"));
    assert!(!b.feed("短文本"));
}

#[test]
fn two_repeats_of_a_segment_are_not_a_loop() {
    let mut d = ThinkingLoopDetector::new();
    let unit: String = std::iter::repeat("段落内容").take(50).collect();
    assert_eq!(unit.chars().count(), 200);
    assert!(!d.feed(&unit.repeat(2)));
    assert!(d.feed(&unit));
}

#[test]
fn thinking_reset_forgets_segments() {
    let mut d = ThinkingLoopDetector::new();
    let unit: String = std::iter::repeat("x").take(200).collect();
    assert!(!d.feed(&unit.repeat(2)));
    d.reset();
    assert!(!d.feed(&unit.repeat(2)));
}

#[test]
fn repeated_chunk_in_one_feed_is_a_loop() {
    let chunk = "abcdefghijklmnopqrstuvwxyz0123456";
    assert_eq!(chunk.chars().count(), 33);
    let mut d = LoopDetector::new();
    assert!(!d.feed(&chunk.repeat(4)));
    let mut d = LoopDetector::new();
    assert!(d.feed(&chunk.repeat(5)));
}
