//! Application error codes, used in structured logs and shown to the front end.
//!
//! Naming: `E_<module>_<case>`, numbered by module range:
//!   - 1xxx: Ollama
//!   - 2xxx: OpenAI-compatible API
//!   - 3xxx: pipeline
//!   - 9xxx: generic / unknown
use vstd::prelude::*;

use crate::text::{decimal, decimal_exec, from_chars, to_chars, concat2};

verus! {

/// Application error code.
#[derive(Debug, Clone, Copy, PartialEq, Eq, Structural)]
pub enum AppErrorCode {
    // Ollama (1xxx)
    EOllamaStreamBreak,
    EOllamaStreamEmpty,
    EOllamaRequestFailed,
    EOllamaBadRequest,
    EOllamaServerError,
    EOllamaModelNotFound,
    EOllamaUnloadFailed,
    // OpenAI-compatible (2xxx)
    EOpenAiRequestFailed,
    EOpenAiBadRequest,
    EOpenAiUnauthorized,
    EOpenAiRateLimit,
    EOpenAiServerError,
    // Pipeline (3xxx)
    EPipelineFallbackTriggered,
    EPipelineImprovementTooLow,
    // Generic (9xxx)
    EUnknown,
}

/// The numeric code of each error.
pub open spec fn code_of(e: AppErrorCode) -> u16 {
    match e {
        AppErrorCode::EOllamaStreamBreak => 1001,
        AppErrorCode::EOllamaStreamEmpty => 1002,
        AppErrorCode::EOllamaRequestFailed => 1003,
        AppErrorCode::EOllamaBadRequest => 1004,
        AppErrorCode::EOllamaServerError => 1005,
        AppErrorCode::EOllamaModelNotFound => 1006,
        AppErrorCode::EOllamaUnloadFailed => 1007,
        AppErrorCode::EOpenAiRequestFailed => 2001,
        AppErrorCode::EOpenAiBadRequest => 2002,
        AppErrorCode::EOpenAiUnauthorized => 2003,
        AppErrorCode::EOpenAiRateLimit => 2004,
        AppErrorCode::EOpenAiServerError => 2005,
        AppErrorCode::EPipelineFallbackTriggered => 3001,
        AppErrorCode::EPipelineImprovementTooLow => 3002,
        AppErrorCode::EUnknown => 9999,
    }
}

/// The human-readable description of each error.
pub open spec fn description_of(e: AppErrorCode) -> Seq<char> {
    match e {
        AppErrorCode::EOllamaStreamBreak => "Ollama 流式响应中途断开"@,
        AppErrorCode::EOllamaStreamEmpty => "Ollama 流式响应为空"@,
        AppErrorCode::EOllamaRequestFailed => "Ollama HTTP 请求失败"@,
        AppErrorCode::EOllamaBadRequest => "Ollama 返回 4xx 错误"@,
        AppErrorCode::EOllamaServerError => "Ollama 返回 5xx 错误"@,
        AppErrorCode::EOllamaModelNotFound => "Ollama 模型不存在"@,
        AppErrorCode::EOllamaUnloadFailed => "Ollama 模型卸载失败"@,
        AppErrorCode::EOpenAiRequestFailed => "OpenAI 兼容 API 请求失败"@,
        AppErrorCode::EOpenAiBadRequest => "OpenAI 兼容 API 返回 4xx"@,
        AppErrorCode::EOpenAiUnauthorized => "API key 无效或未授权"@,
        AppErrorCode::EOpenAiRateLimit => "API 限流"@,
        AppErrorCode::EOpenAiServerError => "OpenAI 兼容 API 返回 5xx"@,
        AppErrorCode::EPipelineFallbackTriggered => "Pipeline 触发 fallback"@,
        AppErrorCode::EPipelineImprovementTooLow => "模型输出缩短幅度不足 5%"@,
        AppErrorCode::EUnknown => "未知错误"@,
    }
}

/// The variant's name, as `{:?}` prints it.
pub open spec fn variant_name_of(e: AppErrorCode) -> Seq<char> {
    match e {
        AppErrorCode::EOllamaStreamBreak => "EOllamaStreamBreak"@,
        AppErrorCode::EOllamaStreamEmpty => "EOllamaStreamEmpty"@,
        AppErrorCode::EOllamaRequestFailed => "EOllamaRequestFailed"@,
        AppErrorCode::EOllamaBadRequest => "EOllamaBadRequest"@,
        AppErrorCode::EOllamaServerError => "EOllamaServerError"@,
        AppErrorCode::EOllamaModelNotFound => "EOllamaModelNotFound"@,
        AppErrorCode::EOllamaUnloadFailed => "EOllamaUnloadFailed"@,
        AppErrorCode::EOpenAiRequestFailed => "EOpenAiRequestFailed"@,
        AppErrorCode::EOpenAiBadRequest => "EOpenAiBadRequest"@,
        AppErrorCode::EOpenAiUnauthorized => "EOpenAiUnauthorized"@,
        AppErrorCode::EOpenAiRateLimit => "EOpenAiRateLimit"@,
        AppErrorCode::EOpenAiServerError => "EOpenAiServerError"@,
        AppErrorCode::EPipelineFallbackTriggered => "EPipelineFallbackTriggered"@,
        AppErrorCode::EPipelineImprovementTooLow => "EPipelineImprovementTooLow"@,
        AppErrorCode::EUnknown => "EUnknown"@,
    }
}

/// The name under which the code is serialized (SCREAMING_SNAKE_CASE of the variant).
pub open spec fn serialized_name_of(e: AppErrorCode) -> Seq<char> {
    match e {
        AppErrorCode::EOllamaStreamBreak => "E_OLLAMA_STREAM_BREAK"@,
        AppErrorCode::EOllamaStreamEmpty => "E_OLLAMA_STREAM_EMPTY"@,
        AppErrorCode::EOllamaRequestFailed => "E_OLLAMA_REQUEST_FAILED"@,
        AppErrorCode::EOllamaBadRequest => "E_OLLAMA_BAD_REQUEST"@,
        AppErrorCode::EOllamaServerError => "E_OLLAMA_SERVER_ERROR"@,
        AppErrorCode::EOllamaModelNotFound => "E_OLLAMA_MODEL_NOT_FOUND"@,
        AppErrorCode::EOllamaUnloadFailed => "E_OLLAMA_UNLOAD_FAILED"@,
        AppErrorCode::EOpenAiRequestFailed => "E_OPEN_AI_REQUEST_FAILED"@,
        AppErrorCode::EOpenAiBadRequest => "E_OPEN_AI_BAD_REQUEST"@,
        AppErrorCode::EOpenAiUnauthorized => "E_OPEN_AI_UNAUTHORIZED"@,
        AppErrorCode::EOpenAiRateLimit => "E_OPEN_AI_RATE_LIMIT"@,
        AppErrorCode::EOpenAiServerError => "E_OPEN_AI_SERVER_ERROR"@,
        AppErrorCode::EPipelineFallbackTriggered => "E_PIPELINE_FALLBACK_TRIGGERED"@,
        AppErrorCode::EPipelineImprovementTooLow => "E_PIPELINE_IMPROVEMENT_TOO_LOW"@,
        AppErrorCode::EUnknown => "E_UNKNOWN"@,
    }
}

/// The log tag of an error, e.g. `E_OLLAMA_STREAM_BREAK (1001)`.
pub open spec fn log_tag_of(e: AppErrorCode) -> Seq<char> {
    serialized_name_of(e) + " ("@ + decimal(code_of(e) as nat) + ")"@
}

impl AppErrorCode {
    /// The numeric code.
    pub fn code(&self) -> (c: u16)
        ensures
            c == code_of(*self),
    {
        match self {
            AppErrorCode::EOllamaStreamBreak => 1001,
            AppErrorCode::EOllamaStreamEmpty => 1002,
            AppErrorCode::EOllamaRequestFailed => 1003,
            AppErrorCode::EOllamaBadRequest => 1004,
            AppErrorCode::EOllamaServerError => 1005,
            AppErrorCode::EOllamaModelNotFound => 1006,
            AppErrorCode::EOllamaUnloadFailed => 1007,
            AppErrorCode::EOpenAiRequestFailed => 2001,
            AppErrorCode::EOpenAiBadRequest => 2002,
            AppErrorCode::EOpenAiUnauthorized => 2003,
            AppErrorCode::EOpenAiRateLimit => 2004,
            AppErrorCode::EOpenAiServerError => 2005,
            AppErrorCode::EPipelineFallbackTriggered => 3001,
            AppErrorCode::EPipelineImprovementTooLow => 3002,
            AppErrorCode::EUnknown => 9999,
        }
    }

    /// Human-readable description.
    pub fn description(&self) -> (d: &'static str)
        ensures
            d@ == description_of(*self),
    {
        match self {
            AppErrorCode::EOllamaStreamBreak => "Ollama 流式响应中途断开",
            AppErrorCode::EOllamaStreamEmpty => "Ollama 流式响应为空",
            AppErrorCode::EOllamaRequestFailed => "Ollama HTTP 请求失败",
            AppErrorCode::EOllamaBadRequest => "Ollama 返回 4xx 错误",
            AppErrorCode::EOllamaServerError => "Ollama 返回 5xx 错误",
            AppErrorCode::EOllamaModelNotFound => "Ollama 模型不存在",
            AppErrorCode::EOllamaUnloadFailed => "Ollama 模型卸载失败",
            AppErrorCode::EOpenAiRequestFailed => "OpenAI 兼容 API 请求失败",
            AppErrorCode::EOpenAiBadRequest => "OpenAI 兼容 API 返回 4xx",
            AppErrorCode::EOpenAiUnauthorized => "API key 无效或未授权",
            AppErrorCode::EOpenAiRateLimit => "API 限流",
            AppErrorCode::EOpenAiServerError => "OpenAI 兼容 API 返回 5xx",
            AppErrorCode::EPipelineFallbackTriggered => "Pipeline 触发 fallback",
            AppErrorCode::EPipelineImprovementTooLow => "模型输出缩短幅度不足 5%",
            AppErrorCode::EUnknown => "未知错误",
        }
    }

    /// The variant's name, as `{:?}` prints it.
    pub fn variant_name(&self) -> (n: &'static str)
        ensures
            n@ == variant_name_of(*self),
    {
        match self {
            AppErrorCode::EOllamaStreamBreak => "EOllamaStreamBreak",
            AppErrorCode::EOllamaStreamEmpty => "EOllamaStreamEmpty",
            AppErrorCode::EOllamaRequestFailed => "EOllamaRequestFailed",
            AppErrorCode::EOllamaBadRequest => "EOllamaBadRequest",
            AppErrorCode::EOllamaServerError => "EOllamaServerError",
            AppErrorCode::EOllamaModelNotFound => "EOllamaModelNotFound",
            AppErrorCode::EOllamaUnloadFailed => "EOllamaUnloadFailed",
            AppErrorCode::EOpenAiRequestFailed => "EOpenAiRequestFailed",
            AppErrorCode::EOpenAiBadRequest => "EOpenAiBadRequest",
            AppErrorCode::EOpenAiUnauthorized => "EOpenAiUnauthorized",
            AppErrorCode::EOpenAiRateLimit => "EOpenAiRateLimit",
            AppErrorCode::EOpenAiServerError => "EOpenAiServerError",
            AppErrorCode::EPipelineFallbackTriggered => "EPipelineFallbackTriggered",
            AppErrorCode::EPipelineImprovementTooLow => "EPipelineImprovementTooLow",
            AppErrorCode::EUnknown => "EUnknown",
        }
    }

    /// The name under which the code is serialized, such as `"E_OLLAMA_STREAM_BREAK"`.
    pub fn serialized_name(&self) -> (n: &'static str)
        ensures
            n@ == serialized_name_of(*self),
    {
        match self {
            AppErrorCode::EOllamaStreamBreak => "E_OLLAMA_STREAM_BREAK",
            AppErrorCode::EOllamaStreamEmpty => "E_OLLAMA_STREAM_EMPTY",
            AppErrorCode::EOllamaRequestFailed => "E_OLLAMA_REQUEST_FAILED",
            AppErrorCode::EOllamaBadRequest => "E_OLLAMA_BAD_REQUEST",
            AppErrorCode::EOllamaServerError => "E_OLLAMA_SERVER_ERROR",
            AppErrorCode::EOllamaModelNotFound => "E_OLLAMA_MODEL_NOT_FOUND",
            AppErrorCode::EOllamaUnloadFailed => "E_OLLAMA_UNLOAD_FAILED",
            AppErrorCode::EOpenAiRequestFailed => "E_OPEN_AI_REQUEST_FAILED",
            AppErrorCode::EOpenAiBadRequest => "E_OPEN_AI_BAD_REQUEST",
            AppErrorCode::EOpenAiUnauthorized => "E_OPEN_AI_UNAUTHORIZED",
            AppErrorCode::EOpenAiRateLimit => "E_OPEN_AI_RATE_LIMIT",
            AppErrorCode::EOpenAiServerError => "E_OPEN_AI_SERVER_ERROR",
            AppErrorCode::EPipelineFallbackTriggered => "E_PIPELINE_FALLBACK_TRIGGERED",
            AppErrorCode::EPipelineImprovementTooLow => "E_PIPELINE_IMPROVEMENT_TOO_LOW",
            AppErrorCode::EUnknown => "E_UNKNOWN",
        }
    }

    /// Log tag such as `"E_OLLAMA_STREAM_BREAK (1001)"`.
    pub fn log_tag(&self) -> (t: String)
        ensures
            t@ == log_tag_of(*self),
    {
        let name = to_chars(self.serialized_name());
        let open = to_chars(" (");
        let close = to_chars(")");
        let num = decimal_exec(self.code() as usize);
        let a = concat2(&name, &open);
        let b = concat2(&a, &num);
        let c = concat2(&b, &close);
        from_chars(&c)
    }
}

/// Maps an HTTP status of Ollama to an error code.
pub open spec fn ollama_status_code(status: u16) -> AppErrorCode {
    if 200 <= status <= 299 {
        AppErrorCode::EUnknown
    } else if status == 400 {
        AppErrorCode::EOllamaBadRequest
    } else if status == 404 {
        AppErrorCode::EOllamaModelNotFound
    } else if 500 <= status <= 599 {
        AppErrorCode::EOllamaServerError
    } else {
        AppErrorCode::EOllamaRequestFailed
    }
}

/// Maps an HTTP status of an OpenAI-compatible API to an error code.
pub open spec fn openai_status_code(status: u16) -> AppErrorCode {
    if 200 <= status <= 299 {
        AppErrorCode::EUnknown
    } else if status == 400 {
        AppErrorCode::EOpenAiBadRequest
    } else if status == 401 {
        AppErrorCode::EOpenAiUnauthorized
    } else if status == 429 {
        AppErrorCode::EOpenAiRateLimit
    } else if 500 <= status <= 599 {
        AppErrorCode::EOpenAiServerError
    } else {
        AppErrorCode::EOpenAiRequestFailed
    }
}

/// Ollama HTTP status → `AppErrorCode`.
pub struct OllamaHttpStatus;

impl OllamaHttpStatus {
    /// A success status maps to `EUnknown`: it should not be mapped at all.
    pub fn from_status(status: u16) -> (e: AppErrorCode)
        ensures
            e == ollama_status_code(status),
    {
        if 200 <= status && status <= 299 {
            AppErrorCode::EUnknown
        } else if status == 400 {
            AppErrorCode::EOllamaBadRequest
        } else if status == 404 {
            AppErrorCode::EOllamaModelNotFound
        } else if 500 <= status && status <= 599 {
            AppErrorCode::EOllamaServerError
        } else {
            AppErrorCode::EOllamaRequestFailed
        }
    }
}

/// OpenAI-compatible HTTP status → `AppErrorCode`.
pub struct OpenAiHttpStatus;

impl OpenAiHttpStatus {
    /// A success status maps to `EUnknown`: it should not be mapped at all.
    pub fn from_status(status: u16) -> (e: AppErrorCode)
        ensures
            e == openai_status_code(status),
    {
        if 200 <= status && status <= 299 {
            AppErrorCode::EUnknown
        } else if status == 400 {
            AppErrorCode::EOpenAiBadRequest
        } else if status == 401 {
            AppErrorCode::EOpenAiUnauthorized
        } else if status == 429 {
            AppErrorCode::EOpenAiRateLimit
        } else if 500 <= status && status <= 599 {
            AppErrorCode::EOpenAiServerError
        } else {
            AppErrorCode::EOpenAiRequestFailed
        }
    }
}

/// Distinct errors have distinct numeric codes.
pub proof fn law_codes_unique(a: AppErrorCode, b: AppErrorCode)
    ensures
        code_of(a) == code_of(b) ==> a == b,
{
}

/// Every description is non-empty.
pub proof fn law_description_non_empty(e: AppErrorCode)
    ensures
        description_of(e).len() > 0,
{
    reveal_strlit("Ollama 流式响应中途断开");
    reveal_strlit("Ollama 流式响应为空");
    reveal_strlit("Ollama HTTP 请求失败");
    reveal_strlit("Ollama 返回 4xx 错误");
    reveal_strlit("Ollama 返回 5xx 错误");
    reveal_strlit("Ollama 模型不存在");
    reveal_strlit("Ollama 模型卸载失败");
    reveal_strlit("OpenAI 兼容 API 请求失败");
    reveal_strlit("OpenAI 兼容 API 返回 4xx");
    reveal_strlit("API key 无效或未授权");
    reveal_strlit("API 限流");
    reveal_strlit("OpenAI 兼容 API 返回 5xx");
    reveal_strlit("Pipeline 触发 fallback");
    reveal_strlit("模型输出缩短幅度不足 5%");
    reveal_strlit("未知错误");
}

/// Each module's errors lie in its own numeric range.
pub proof fn law_code_ranges(e: AppErrorCode)
    ensures
        1000 < code_of(e) < 2000 <==> is_ollama(e),
        2000 < code_of(e) < 3000 <==> is_openai(e),
{
}

/// The error belongs to the Ollama range.
pub open spec fn is_ollama(e: AppErrorCode) -> bool {
    match e {
        AppErrorCode::EOllamaStreamBreak | AppErrorCode::EOllamaStreamEmpty
        | AppErrorCode::EOllamaRequestFailed | AppErrorCode::EOllamaBadRequest
        | AppErrorCode::EOllamaServerError | AppErrorCode::EOllamaModelNotFound
        | AppErrorCode::EOllamaUnloadFailed => true,
        _ => false,
    }
}

/// The error belongs to the OpenAI-compatible range.
pub open spec fn is_openai(e: AppErrorCode) -> bool {
    match e {
        AppErrorCode::EOpenAiRequestFailed | AppErrorCode::EOpenAiBadRequest
        | AppErrorCode::EOpenAiUnauthorized | AppErrorCode::EOpenAiRateLimit
        | AppErrorCode::EOpenAiServerError => true,
        _ => false,
    }
}

} // verus!
