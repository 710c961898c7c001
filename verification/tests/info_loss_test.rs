use aitxt_compressor::scoring::info_loss::{compute, jaccard_parts, split_sentences, tokenize};

fn jaccard(a: &[String], b: &[String]) -> f64 {
    let (inter, size_a, b_only) = jaccard_parts(&a.to_vec(), &b.to_vec());
    if a.is_empty() || b.is_empty() || size_a + b_only == 0 {
        return 0.0;
    }
    inter as f64 / (size_a + b_only) as f64
}

#[test]
fn test_split_sentences_chinese() {
    let s = "第一句。第二句！第三句？";
    let v = split_sentences(s);
    assert_eq!(v, vec!["第一句。", "第二句！", "第三句？"]);
}

#[test]
fn test_split_sentences_with_newline() {
    let s = "第一段\n第二段";
    let v = split_sentences(s);
    assert_eq!(v, vec!["第一段", "第二段"]);
}

#[test]
fn test_tokenize_chinese() {
    let v = tokenize("我是文本");
    assert_eq!(v, vec!["我", "是", "文", "本"]);
}

#[test]
fn test_tokenize_mixed() {
    let v = tokenize("Qwen3 是 model");
    assert!(v.contains(&"qwen3".to_string()));
    assert!(v.contains(&"是".to_string()));
    assert!(v.contains(&"model".to_string()));
}

#[test]
fn test_jaccard_identical() {
    let a = vec!["a".to_string(), "b".to_string()];
    assert!((jaccard(&a, &a) - 1.0).abs() < 1e-9);
}

#[test]
fn test_jaccard_disjoint() {
    let a = vec!["a".to_string()];
    let b = vec!["b".to_string()];
    assert!((jaccard(&a, &b) - 0.0).abs() < 1e-9);
}

#[test]
fn test_jaccard_half_overlap() {
    let a = vec!["a".to_string(), "b".to_string()];
    let b = vec!["b".to_string(), "c".to_string()];
    assert!((jaccard(&a, &b) - 1.0 / 3.0).abs() < 1e-9);
}

#[test]
fn test_compute_one_lost() {
    let original = "苹果是水果。香蕉也是水果。今天天气真好适合出去玩。葡萄是水果。";
    let compressed = "苹果是水果。香蕉也是水果。葡萄是水果。";
    let result = compute(original, compressed);
    assert_eq!(result.total_sentence_count, 4);
    assert_eq!(result.lost_sentence_count, 1);
    let loss_rate = result.lost_sentence_count as f64 / result.total_sentence_count as f64;
    assert!((loss_rate - 0.25).abs() < 1e-9);
    assert_eq!(result.lost_sentences.len(), 1);
    assert!(result.lost_sentences[0].contains("今天天气"));
}

#[test]
fn jaccard_parts_exact_counts() {
    let a: Vec<String> = ["a", "b", "b"].iter().map(|s| s.to_string()).collect();
    let b: Vec<String> = ["b", "c", "d"].iter().map(|s| s.to_string()).collect();
    assert_eq!(jaccard_parts(&a, &b), (1, 2, 2));
}

#[test]
fn identical_text_loses_nothing() {
    let text = "第一句话。第二句话！Third sentence here";
    let r = compute(text, text);
    assert_eq!(r.total_sentence_count, 3);
    assert_eq!(r.lost_sentence_count, 0);
}

#[test]
fn empty_compression_loses_everything() {
    let r = compute("一句。两句。", "");
    assert_eq!(r.total_sentence_count, 2);
    assert_eq!(r.lost_sentence_count, 2);
    assert_eq!(r.lost_sentences, vec!["一句。".to_string(), "两句。".to_string()]);
}

#[test]
fn blank_pieces_are_dropped_and_trimmed() {
    let v = split_sentences("  甲。 \n\n  乙  ");
    assert_eq!(v, vec!["甲。", "乙"]);
}

#[test]
fn tokens_split_on_punctuation() {
    let v = tokenize("Hello, World-42!");
    assert_eq!(v, vec!["hello", "world", "42"]);
}
