use aitxt_compressor::errors::{AppErrorCode, OllamaHttpStatus, OpenAiHttpStatus};

fn all_codes() -> Vec<AppErrorCode> {
    vec![
        AppErrorCode::EOllamaStreamBreak,
        AppErrorCode::EOllamaStreamEmpty,
        AppErrorCode::EOllamaRequestFailed,
        AppErrorCode::EOllamaBadRequest,
        AppErrorCode::EOllamaServerError,
        AppErrorCode::EOllamaModelNotFound,
        AppErrorCode::EOllamaUnloadFailed,
        AppErrorCode::EOpenAiRequestFailed,
        AppErrorCode::EOpenAiBadRequest,
        AppErrorCode::EOpenAiUnauthorized,
        AppErrorCode::EOpenAiRateLimit,
        AppErrorCode::EOpenAiServerError,
        AppErrorCode::EPipelineFallbackTriggered,
        AppErrorCode::EPipelineImprovementTooLow,
        AppErrorCode::EUnknown,
    ]
}

#[test]
fn test_codes_are_unique() {
    let codes = all_codes();
    let mut seen = std::collections::HashSet::new();
    for code in &codes {
        assert!(seen.insert(code.code()), "错误码 {} 重复", code.code());
    }
}

#[test]
fn test_error_codes_are_unique() {
    let codes = all_codes();
    let mut seen = std::collections::HashSet::new();
    for code in &codes {
        let n = code.code();
        assert!(!seen.contains(&n), "错误码 {} 重复", n);
        seen.insert(n);
    }
}

#[test]
fn test_description_is_non_empty() {
    for code in &all_codes() {
        assert!(!code.description().is_empty(), "错误码 {:?} 描述为空", code);
    }
}

#[test]
fn test_ollama_http_status_mapping() {
    assert_eq!(OllamaHttpStatus::from_status(404), AppErrorCode::EOllamaModelNotFound);
    assert_eq!(OllamaHttpStatus::from_status(400), AppErrorCode::EOllamaBadRequest);
    assert_eq!(OllamaHttpStatus::from_status(500), AppErrorCode::EOllamaServerError);
    assert_eq!(OllamaHttpStatus::from_status(200), AppErrorCode::EUnknown);
}

#[test]
fn test_openai_http_status_mapping() {
    assert_eq!(OpenAiHttpStatus::from_status(401), AppErrorCode::EOpenAiUnauthorized);
    assert_eq!(OpenAiHttpStatus::from_status(429), AppErrorCode::EOpenAiRateLimit);
    assert_eq!(OpenAiHttpStatus::from_status(400), AppErrorCode::EOpenAiBadRequest);
    assert_eq!(OpenAiHttpStatus::from_status(500), AppErrorCode::EOpenAiServerError);
}

#[test]
fn error_codes_exact_values() {
    assert_eq!(AppErrorCode::EOllamaStreamBreak.code(), 1001);
    assert_eq!(AppErrorCode::EOllamaUnloadFailed.code(), 1007);
    assert_eq!(AppErrorCode::EOpenAiRequestFailed.code(), 2001);
    assert_eq!(AppErrorCode::EPipelineFallbackTriggered.code(), 3001);
    assert_eq!(AppErrorCode::EUnknown.code(), 9999);
}

#[test]
fn error_code_ranges_by_family() {
    for c in &all_codes() {
        let n = c.code();
        let name = c.variant_name();
        if name.starts_with("EOllama") {
            assert!((1000..2000).contains(&n));
        } else if name.starts_with("EOpenAi") {
            assert!((2000..3000).contains(&n));
        }
    }
}

#[test]
fn serialized_name_is_screaming_snake() {
    assert_eq!(AppErrorCode::EOllamaStreamBreak.serialized_name(), "E_OLLAMA_STREAM_BREAK");
    assert_eq!(AppErrorCode::EPipelineImprovementTooLow.serialized_name(), "E_PIPELINE_IMPROVEMENT_TOO_LOW");
}

#[test]
fn variant_name_is_the_variant() {
    assert_eq!(AppErrorCode::EOllamaStreamBreak.variant_name(), "EOllamaStreamBreak");
    assert_eq!(AppErrorCode::EOpenAiRateLimit.variant_name(), "EOpenAiRateLimit");
}

#[test]
fn log_tag_has_code() {
    assert_eq!(AppErrorCode::EOllamaUnloadFailed.log_tag(), "E_OLLAMA_UNLOAD_FAILED (1007)");
    assert_eq!(AppErrorCode::EUnknown.log_tag(), "E_UNKNOWN (9999)");
    assert_eq!(AppErrorCode::EOllamaStreamBreak.log_tag(), "E_OLLAMA_STREAM_BREAK (1001)");
    assert_eq!(AppErrorCode::EOpenAiRateLimit.log_tag(), "E_OPEN_AI_RATE_LIMIT (2004)");
}

#[test]
fn status_mapping_other_values() {
    assert_eq!(OllamaHttpStatus::from_status(503), AppErrorCode::EOllamaServerError);
    assert_eq!(OllamaHttpStatus::from_status(418), AppErrorCode::EOllamaRequestFailed);
    assert_eq!(OpenAiHttpStatus::from_status(403), AppErrorCode::EOpenAiRequestFailed);
    assert_eq!(OpenAiHttpStatus::from_status(204), AppErrorCode::EUnknown);
    assert_eq!(OpenAiHttpStatus::from_status(302), AppErrorCode::EOpenAiRequestFailed);
}
