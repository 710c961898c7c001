use aitxt_compressor::prompt::{
    build_compress_messages, build_compress_messages_preset, build_compress_messages_with,
    build_compress_prompt, default_system, default_user_template, PresetPrompt, PromptParams,
};

#[test]
fn default_messages_fill_placeholders() {
    let (system, user) = build_compress_messages("你好世界", 2, 50);
    assert_eq!(system, default_system());
    assert_eq!(user, "目标字数：2\n原文字数：4\n\n原文：\n你好世界");
    assert!(default_user_template().contains("{text}"));
}

#[test]
fn custom_templates_and_cut() {
    let (system, user) = build_compress_messages_with(PromptParams {
        text: "abc",
        target_chars: 1,
        custom_system: Some("S"),
        custom_user_template: Some("{orig}->{target} cut {cut}%: {text}"),
        cut_pct: 66,
    });
    assert_eq!(system, "S");
    assert_eq!(user, "3->1 cut 66%: abc");
}

#[test]
fn blank_custom_prompts_fall_back() {
    let (system, user) = build_compress_messages_with(PromptParams {
        text: "x",
        target_chars: 1,
        custom_system: Some("   "),
        custom_user_template: Some("\n"),
        cut_pct: 0,
    });
    assert_eq!(system, default_system());
    assert_eq!(user, "目标字数：1\n原文字数：1\n\n原文：\nx");
}

#[test]
fn single_prompt_joins_with_blank_line() {
    let (s, u) = build_compress_messages("t", 1, 0);
    assert_eq!(build_compress_prompt("t", 1, 0), format!("{}\n\n{}", s, u));
}

#[test]
fn presets() {
    assert_eq!(PresetPrompt::from_str("minimal"), PresetPrompt::Minimal);
    assert_eq!(PresetPrompt::from_str("strict_chars"), PresetPrompt::StrictChars);
    assert_eq!(PresetPrompt::from_str("anything"), PresetPrompt::Standard);
    assert_eq!(PresetPrompt::Minimal.id(), "minimal");
    assert_eq!(PresetPrompt::Standard.name(), "标准");
    assert_eq!(PresetPrompt::Standard.system(), default_system());
    let (system, user) = build_compress_messages_preset("文本", 1, PresetPrompt::Minimal, None, None, 50);
    assert_eq!(system, "压缩文本，保留核心语义，直接输出结果。");
    assert_eq!(user, "压缩到 1 字以内：\n\n文本");
    let (system, _) = build_compress_messages_preset("文本", 7, PresetPrompt::StrictChars, None, None, 0);
    assert!(system.contains("输出字数必须 ≤ 7"));
}

#[test]
fn preset_custom_prompts_win() {
    let (system, user) =
        build_compress_messages_preset("ab", 1, PresetPrompt::StrictChars, Some("目标{target}/{orig}"), Some("{text}|{orig}"), 50);
    assert_eq!(system, "目标1/2");
    assert_eq!(user, "ab|2");
}

#[test]
fn preset_custom_user_template_gets_cut() {
    let (_, user) = build_compress_messages_preset("abcd", 1, PresetPrompt::Standard, None, Some("{cut}"), 75);
    assert_eq!(user, "75");
    let (_, user) =
        build_compress_messages_preset("abcd", 1, PresetPrompt::Minimal, None, Some("删去{cut}%，剩{target}/{orig}"), 75);
    assert_eq!(user, "删去75%，剩1/4");
}
