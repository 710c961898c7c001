use aitxt_compressor::model::raw_log::{error_excerpt, record_line, truncate_raw, RAW_LIMIT};

#[test]
fn short_raw_kept_whole() {
    assert_eq!(truncate_raw("{\"a\":1}"), "{\"a\":1}");
    assert_eq!(error_excerpt("bad request"), "bad request");
}

#[test]
fn long_raw_cut_at_char_boundary() {
    // 1334 three-byte characters: 4002 bytes; 1333 of them fit in 4000
    let raw: String = std::iter::repeat('字').take(1334).collect();
    let r = truncate_raw(&raw);
    let head: String = std::iter::repeat('字').take(1333).collect();
    assert_eq!(r, format!("{}…（截断，完整 4002 字符）", head));
    let ascii = "a".repeat(4001);
    assert_eq!(truncate_raw(&ascii), format!("{}…（截断，完整 4001 字符）", "a".repeat(4000)));
}

#[test]
fn excerpt_cut_at_400_bytes() {
    let raw = format!("{}é", "a".repeat(399));
    assert_eq!(error_excerpt(&raw), format!("{}…", "a".repeat(399)));
    assert_eq!(error_excerpt(&"b".repeat(400)), "b".repeat(400));
}

#[test]
fn record_line_stops_at_limit() {
    let mut buf = String::new();
    record_line(&mut buf, "first");
    assert_eq!(buf, "first\n");
    let mut full = "x".repeat(RAW_LIMIT - 3);
    record_line(&mut full, "abcdef");
    assert_eq!(full, format!("{}abc", "x".repeat(RAW_LIMIT - 3)));
    record_line(&mut full, "more");
    assert_eq!(full.len(), RAW_LIMIT);
}

#[test]
fn record_stays_within_limit_plus_line_end() {
    let mut buf = String::new();
    for _ in 0..1000 {
        record_line(&mut buf, "一行原始响应");
        assert!(buf.len() <= RAW_LIMIT + 1);
    }
}
