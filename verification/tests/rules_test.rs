use aitxt_compressor::algo::rules::apply;

#[test]
fn markdown_is_stripped() {
    assert_eq!(apply("# 标题\n正文"), "标题 正文");
    assert_eq!(apply("**重点**内容"), "重点内容");
    assert_eq!(apply("- 第一项\n- 第二项"), "第一项 第二项");
    assert_eq!(apply("用 `cargo` 构建"), "用 cargo 构建");
    assert_eq!(apply("```rust\nfn main() {}\n```"), "fn main() {}");
}

#[test]
fn units_synonyms_and_percent() {
    assert_eq!(apply("大约10公里"), "约10km");
    assert_eq!(apply("百分之50的人"), "50%的人");
    assert_eq!(apply("重5公斤，长3厘米"), "重5kg，长3cm");
}

#[test]
fn fillers_and_leading_punctuation_removed() {
    assert_eq!(apply("众所周知，地球是圆的。"), "地球是圆的。");
    assert_eq!(apply("其实这样。"), "这样。");
}

#[test]
fn punctuation_cleanup() {
    assert_eq!(apply("好   。"), "好。");
    assert_eq!(apply("好，，。"), "好，");
    assert_eq!(apply("第一句。\n第二句"), "第一句。第二句");
}

#[test]
fn whitespace_is_merged_and_trimmed() {
    assert_eq!(apply("  a \t b\n\n c  "), "a b c");
    assert_eq!(apply(""), "");
}

#[test]
fn arrows_become_inline() {
    assert_eq!(apply("开始\n↓\n结束"), "始 → 终");
}

#[test]
fn longest_synonym_wins() {
    assert_eq!(apply("截至目前为止"), "至今");
    assert_eq!(apply("到目前为止"), "至今");
}

#[test]
fn filler_removed_before_synonyms() {
    assert_eq!(apply("需要注意的是，数据已更新"), "数据已更新");
    assert_eq!(apply("就目前来看，很好"), "很好");
}
