use aitxt_compressor::scoring::fact_retention::{
    compute, extract_error_codes, extract_numbers, extract_paths, extract_proper_nouns,
    extract_units, extract_versions,
};

#[test]
fn test_extract_numbers() {
    let v = extract_numbers("Qwen3 0.8B 6 分钟 4000字");
    assert!(v.contains(&"3".to_string()));
    assert!(v.contains(&"0.8".to_string()));
    assert!(v.contains(&"4000".to_string()));
}

#[test]
fn test_extract_units() {
    let v = extract_units("6分钟 4000字 100MB");
    assert!(v.contains(&"6分钟".to_string()));
    assert!(v.contains(&"4000字".to_string()));
    assert!(v.contains(&"100MB".to_string()));
}

#[test]
fn test_extract_paths() {
    let v = extract_paths("修改 compressor/src/pipeline.rs 和 server.rs");
    assert!(v.iter().any(|s| s.contains("pipeline.rs")));
    assert!(v.contains(&"server.rs".to_string()));
}

#[test]
fn test_extract_versions() {
    let v = extract_versions("升级到 v1.2.3 和 2.0");
    assert!(v.contains(&"v1.2.3".to_string()));
    assert!(v.contains(&"2.0".to_string()));
}

#[test]
fn test_extract_error_codes() {
    let v = extract_error_codes("遇到 E404 和 500 错误");
    assert!(v.contains(&"E404".to_string()));
    assert!(v.contains(&"500".to_string()));
}

#[test]
fn test_extract_proper_nouns() {
    let v = extract_proper_nouns("Qwen3 和 DeepSeek 还有 Ollama");
    assert!(v.contains(&"Qwen3".to_string()));
    assert!(v.contains(&"DeepSeek".to_string()));
    assert!(v.contains(&"Ollama".to_string()));
}

#[test]
fn test_compute_qwen_case() {
    let original = "Qwen3 0.8B 在 M1 上 6 分钟完成";
    let compressed = "Qwen3 模型";
    let result = compute(original, compressed);
    assert!(result.retained_facts >= 1);
    assert!(result.lost_facts.len() >= 3);
    assert!(
        result.lost_facts.contains(&"0.8B".to_string())
            || result.lost_facts.contains(&"0.8".to_string())
    );
    assert!(result.lost_facts.contains(&"M1".to_string()));
    assert!(result.lost_facts.iter().any(|s| s.contains("分钟")));
}

#[test]
fn units_drop_inner_spaces() {
    let v = extract_units("等了 6 分钟");
    assert_eq!(v, vec!["6分钟".to_string()]);
}

#[test]
fn extracted_lists_are_sorted_and_distinct() {
    let v = extract_proper_nouns("Ollama 和 DeepSeek，还是 Ollama");
    assert_eq!(v, vec!["DeepSeek".to_string(), "Ollama".to_string()]);
}

#[test]
fn numbers_inside_other_facts_are_not_counted_again() {
    let text = "版本 v1.2.3 共 42 项";
    assert_eq!(extract_numbers(text), vec!["1.2".to_string(), "3".to_string(), "42".to_string()]);
    let r = compute(text, "");
    assert_eq!(r.facts_by_type.number, vec!["42".to_string()]);
    assert_eq!(r.facts_by_type.version, vec!["v1.2.3".to_string()]);
}

#[test]
fn all_facts_present_means_nothing_lost() {
    let original = "DeepSeek 用了 6分钟";
    let r = compute(original, "DeepSeek 6分钟");
    assert_eq!(r.total_facts, r.retained_facts);
    assert!(r.lost_facts.is_empty());
    assert!(r.total_facts >= 2);
}

#[test]
fn facts_by_type_and_counts() {
    let r = compute("遇到 E404 后升级到 v2.1", "没有事实");
    assert_eq!(r.facts_by_type.error_code, vec!["E404".to_string()]);
    assert_eq!(r.facts_by_type.version, vec!["v2.1".to_string()]);
    assert_eq!(r.retained_facts, 0);
    assert_eq!(r.lost_facts.len(), r.total_facts);
}

#[test]
fn no_facts_in_plain_text() {
    let r = compute("这里没有任何事实", "");
    assert_eq!(r.total_facts, 0);
    assert_eq!(r.retained_facts, 0);
}

use aitxt_compressor::scoring::fact_retention::{dedupe_sort, retention_of};

fn ent(s: &str, a: usize, b: usize) -> (String, usize, usize) {
    (s.to_string(), a, b)
}

#[test]
fn dedupe_sort_of_matches() {
    let v = vec![ent("b", 0, 1), ent("a", 2, 3), ent("b", 4, 5)];
    assert_eq!(dedupe_sort(&v), vec!["a".to_string(), "b".to_string()]);
    assert!(dedupe_sort(&Vec::new()).is_empty());
}

#[test]
fn retention_from_given_matches() {
    let numbers = vec![ent("6", 0, 1), ent("42", 10, 12), ent("7", 20, 21)];
    let units = vec![ent("6分钟", 0, 7)];
    let versions = vec![ent("v7", 19, 21)];
    let r = retention_of(&numbers, &units, &Vec::new(), &versions, &Vec::new(), &Vec::new(), "共 42 项，耗时 6分钟");
    assert_eq!(r.facts_by_type.number, vec!["42".to_string()]);
    assert_eq!(r.facts_by_type.unit, vec!["6分钟".to_string()]);
    assert_eq!(r.facts_by_type.version, vec!["v7".to_string()]);
    assert_eq!(r.total_facts, 3);
    assert_eq!(r.retained_facts, 2);
    assert_eq!(r.lost_facts, vec!["v7".to_string()]);
}

#[test]
fn same_span_counts_once_by_priority() {
    let nouns = vec![ent("E404", 3, 7), ent("Ollama", 10, 16)];
    let codes = vec![ent("E404", 3, 7)];
    let r = retention_of(&Vec::new(), &Vec::new(), &Vec::new(), &Vec::new(), &codes, &nouns, "");
    assert_eq!(r.facts_by_type.error_code, vec!["E404".to_string()]);
    assert_eq!(r.facts_by_type.proper_noun, vec!["Ollama".to_string()]);
    assert_eq!(r.total_facts, 2);
    assert_eq!(r.lost_facts, vec!["E404".to_string(), "Ollama".to_string()]);
}

#[test]
fn version_inside_unit_counts_once() {
    let r = aitxt_compressor::scoring::fact_retention::compute("Qwen3 0.8B 在 M1 上 6 分钟完成", "Qwen3 模型");
    assert_eq!(r.total_facts, 4);
    assert!(r.facts_by_type.version.is_empty());
    assert_eq!(r.retained_facts, 1);
    assert_eq!(r.lost_facts, vec!["0.8B".to_string(), "6分钟".to_string(), "M1".to_string()]);
}
