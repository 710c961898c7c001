use aitxt_compressor::scoring::semantic::{embeddings_url, requested};

#[test]
fn semantic_needs_model_and_base() {
    assert!(requested(Some("bge-m3"), Some("http://localhost:11434")));
    assert!(!requested(Some(""), Some("http://localhost:11434")));
    assert!(!requested(Some("bge-m3"), Some("")));
    assert!(!requested(None, Some("http://localhost:11434")));
    assert!(!requested(Some("bge-m3"), None));
}

#[test]
fn embeddings_url_drops_trailing_slashes() {
    assert_eq!(embeddings_url("http://localhost:11434//"), "http://localhost:11434/api/embeddings");
    assert_eq!(embeddings_url("http://h:1"), "http://h:1/api/embeddings");
}
