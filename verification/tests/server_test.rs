use aitxt_compressor::server::{
    check_request, configured_key, default_model, default_provider, pull_line_event, PullEvent,
    PullLine, RequestError,
};

fn line(status: Option<&str>, error: Option<&str>) -> PullLine {
    PullLine {
        status: status.map(|s| s.to_string()),
        error: error.map(|s| s.to_string()),
        completed: Some(10),
        total: Some(100),
        digest: Some("sha256:abc".to_string()),
    }
}

#[test]
fn request_defaults() {
    assert_eq!(default_provider(), "ollama");
    assert_eq!(default_model(), "qwen2.5:1.5b");
}

#[test]
fn server_key_choice() {
    assert_eq!(configured_key("arg", Some("env")).as_deref(), Some("arg"));
    assert_eq!(configured_key("", Some("env")).as_deref(), Some("env"));
    assert!(configured_key("", Some("")).is_none());
    assert!(configured_key("", None).is_none());
}

#[test]
fn request_checks() {
    assert!(matches!(check_request("deepseek", None, None, None), Err(RequestError::MissingApiKey)));
    assert!(matches!(check_request("custom", None, None, Some("https://a")), Err(RequestError::MissingApiKey)));
    assert!(matches!(check_request("custom", Some("k"), None, Some("")), Err(RequestError::MissingBaseUrl)));
    assert!(matches!(check_request("custom", None, Some("s"), None), Err(RequestError::MissingBaseUrl)));
    assert_eq!(check_request("deepseek", None, Some("srv"), None).ok().unwrap().as_deref(), Some("srv"));
    assert_eq!(check_request("deepseek", Some("req"), Some("srv"), None).ok().unwrap().as_deref(), Some("req"));
    assert!(check_request("ollama", None, None, None).ok().unwrap().is_none());
}

#[test]
fn pull_lines() {
    match pull_line_event("qwen", &line(Some("pulling"), None), 7) {
        (PullEvent::PullProgress { status, completed, total, digest, t }, false) => {
            assert_eq!(status, "pulling");
            assert_eq!((completed, total, t), (Some(10), Some(100), 7));
            assert_eq!(digest.as_deref(), Some("sha256:abc"));
        },
        _ => panic!("expected progress"),
    }
    match pull_line_event("qwen", &line(Some("success"), None), 8) {
        (PullEvent::PullDone { name, t }, true) => assert_eq!((name.as_str(), t), ("qwen", 8)),
        _ => panic!("expected done"),
    }
    match pull_line_event("qwen", &line(Some("success"), Some("boom")), 9) {
        (PullEvent::PullError { msg, t }, true) => assert_eq!((msg.as_str(), t), ("boom", 9)),
        _ => panic!("expected error"),
    }
    match pull_line_event("qwen", &line(None, None), 1) {
        (PullEvent::PullProgress { status, .. }, false) => assert_eq!(status, ""),
        _ => panic!("expected progress"),
    }
}
