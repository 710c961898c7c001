//! Client logic for OpenAI-compatible chat-completions services (DeepSeek,
//! OpenAI, Moonshot, SiliconFlow, ...): the endpoint, the request parameters,
//! and what is made of the answer. The HTTP exchange itself is the caller's.
use vstd::prelude::*;

use crate::model::ollama::{actions_view, nonempty, StreamAction};
use crate::text::{
    concat2, contains, contains_exec, ends_with, from_chars, has_prefix, has_suffix, seq_eq,
    starts_with, to_chars, trim, trim_exec,
};

verus! {

/// Token counts reported by the service.
#[derive(Clone, Copy)]
pub struct Usage {
    pub prompt_tokens: u32,
    pub completion_tokens: u32,
    pub total_tokens: u32,
    /// Reasoning tokens, where the service reports them.
    pub reasoning_tokens: u32,
}

impl Default for Usage {
    /// All counts zero.
    fn default() -> (u: Self)
        ensures
            u.prompt_tokens == 0 && u.completion_tokens == 0 && u.total_tokens == 0
                && u.reasoning_tokens == 0,
    {
        Usage { prompt_tokens: 0, completion_tokens: 0, total_tokens: 0, reasoning_tokens: 0 }
    }
}

/// Result of a model call.
pub struct ModelOutput {
    pub content: String,
    pub usage: Usage,
    /// The raw response, truncated for the log.
    pub raw_response: String,
    /// Accumulated reasoning text, when the service streamed any.
    pub reasoning_text: Option<String>,
}

/// The DeepSeek V4 `thinking` switch.
#[derive(PartialEq, Eq, Structural, Clone, Copy)]
pub enum ThinkingMode {
    Enabled,
    Disabled,
}

/// What can go wrong before or after the HTTP exchange.
#[derive(PartialEq, Eq, Structural, Clone, Copy)]
pub enum OpenAiError {
    /// No API key configured.
    MissingApiKey,
    /// The answer holds no choice.
    NoChoices,
}

/// A client for one service, model and key.
pub struct OpenAiCompatClient {
    endpoint: String,
    api_key: String,
    model: String,
    /// The official DeepSeek service (decides the `thinking` field).
    is_deepseek: bool,
}

/// The plain content of a client.
pub struct ClientModel {
    pub endpoint: Seq<char>,
    pub api_key: Seq<char>,
    pub model: Seq<char>,
    pub is_deepseek: bool,
}

impl View for OpenAiCompatClient {
    type V = ClientModel;

    closed spec fn view(&self) -> ClientModel {
        ClientModel {
            endpoint: self.endpoint@,
            api_key: self.api_key@,
            model: self.model@,
            is_deepseek: self.is_deepseek,
        }
    }
}

/// The official DeepSeek endpoint (without `/v1`).
pub open spec fn deepseek_endpoint() -> Seq<char> {
    "https://api.deepseek.com/chat/completions"@
}

/// `s` without its trailing slashes.
pub open spec fn strip_slashes(s: Seq<char>) -> Seq<char>
    decreases s.len(),
{
    if s.len() > 0 && s.last() == '/' {
        strip_slashes(s.drop_last())
    } else {
        s
    }
}

/// The endpoint for a base URL: used as it is when it already names
/// `/chat/completions`; otherwise, trailing slashes dropped, completed with
/// `/chat/completions` after a `/v1` and with `/v1/chat/completions` else.
pub open spec fn endpoint_spec(base_url: Seq<char>) -> Seq<char> {
    if contains(base_url, "/chat/completions"@) {
        base_url
    } else {
        let t = strip_slashes(base_url);
        if ends_with(t, "/v1"@) {
            t + "/chat/completions"@
        } else {
            t + "/v1/chat/completions"@
        }
    }
}

/// The `thinking` field and the reasoning effort sent for a requested effort.
/// Only DeepSeek V4 models (official service, model named `deepseek-v4...`)
/// get the field: no effort, an empty one or `none` turn thinking off and send
/// no effort; `low` and `medium` become `high`, `xhigh` becomes `max`, other
/// values pass as they are, all with thinking on. Other models get no field
/// and the effort as it is.
pub open spec fn thinking_spec(is_deepseek: bool, model: Seq<char>, effort: Option<Seq<char>>) -> (
    Option<ThinkingMode>,
    Option<Seq<char>>,
) {
    if is_deepseek && starts_with(model, "deepseek-v4"@) {
        match effort {
            None => (Some(ThinkingMode::Disabled), None),
            Some(e) => if e == ""@ || e == "none"@ {
                (Some(ThinkingMode::Disabled), None)
            } else if e == "low"@ || e == "medium"@ {
                (Some(ThinkingMode::Enabled), Some("high"@))
            } else if e == "xhigh"@ {
                (Some(ThinkingMode::Enabled), Some("max"@))
            } else {
                (Some(ThinkingMode::Enabled), Some(e))
            },
        }
    } else {
        (None, effort)
    }
}

/// An optional string by its view.
pub open spec fn opt_str(o: Option<&str>) -> Option<Seq<char>> {
    match o {
        Some(s) => Some(s@),
        None => None,
    }
}

/// An optional owned string by its view.
pub open spec fn opt_string(o: Option<String>) -> Option<Seq<char>> {
    match o {
        Some(s) => Some(s@),
        None => None,
    }
}

fn str_is(v: &Vec<char>, lit: &str) -> (b: bool)
    ensures
        b == (v@ == lit@),
{
    seq_eq(v, &to_chars(lit))
}

pub(crate) fn strip_slashes_exec(s: &Vec<char>) -> (r: Vec<char>)
    ensures
        r@ == strip_slashes(s@),
{
    let mut v = s.clone();
    assert(v@ == s@);
    while v.len() > 0 && v[v.len() - 1] == '/'
        invariant
            strip_slashes(v@) == strip_slashes(s@),
        decreases v.len(),
    {
        v.pop();
    }
    v
}

impl OpenAiCompatClient {
    /// A client for a complete chat-completions URL.
    pub fn new(endpoint: &str, api_key: &str, model: &str) -> (c: Self)
        ensures
            c@.endpoint == endpoint@,
            c@.api_key == api_key@,
            c@.model == model@,
            !c@.is_deepseek,
    {
        OpenAiCompatClient {
            endpoint: from_chars(&to_chars(endpoint)),
            api_key: from_chars(&to_chars(api_key)),
            model: from_chars(&to_chars(model)),
            is_deepseek: false,
        }
    }

    /// A client for the official DeepSeek service.
    pub fn deepseek(api_key: &str, model: &str) -> (c: Self)
        ensures
            c@.endpoint == deepseek_endpoint(),
            c@.api_key == api_key@,
            c@.model == model@,
            c@.is_deepseek,
    {
        let mut c = Self::new("https://api.deepseek.com/chat/completions", api_key, model);
        c.is_deepseek = true;
        c
    }

    /// A client for a user-given base URL (see `endpoint_spec`).
    pub fn from_base_url(base_url: &str, api_key: &str, model: &str) -> (c: Self)
        ensures
            c@.endpoint == endpoint_spec(base_url@),
            c@.api_key == api_key@,
            c@.model == model@,
            !c@.is_deepseek,
    {
        let b = to_chars(base_url);
        let endpoint = if contains_exec(&b, &to_chars("/chat/completions")) {
            b
        } else {
            let t = strip_slashes_exec(&b);
            if has_suffix(&t, &to_chars("/v1")) {
                concat2(&t, &to_chars("/chat/completions"))
            } else {
                concat2(&t, &to_chars("/v1/chat/completions"))
            }
        };
        let e = from_chars(&endpoint);
        Self::new(e.as_str(), api_key, model)
    }

    /// The chat-completions URL.
    pub fn endpoint(&self) -> (s: String)
        ensures
            s@ == self@.endpoint,
    {
        from_chars(&to_chars(self.endpoint.as_str()))
    }

    /// The API key.
    pub fn api_key(&self) -> (s: String)
        ensures
            s@ == self@.api_key,
    {
        from_chars(&to_chars(self.api_key.as_str()))
    }

    /// The model name.
    pub fn model(&self) -> (s: String)
        ensures
            s@ == self@.model,
    {
        from_chars(&to_chars(self.model.as_str()))
    }

    /// A request may only be sent with a key.
    pub fn check_api_key(&self) -> (r: Result<(), OpenAiError>)
        ensures
            r is Ok <==> self@.api_key.len() > 0,
            r is Err ==> r->Err_0 == OpenAiError::MissingApiKey,
    {
        if to_chars(self.api_key.as_str()).len() == 0 {
            Err(OpenAiError::MissingApiKey)
        } else {
            Ok(())
        }
    }

    /// The `thinking` field and the effort to send (see `thinking_spec`).
    pub fn build_thinking_and_effort(&self, reasoning_effort: Option<&str>) -> (r: (
        Option<ThinkingMode>,
        Option<String>,
    ))
        ensures
            (r.0, opt_string(r.1)) == thinking_spec(
                self@.is_deepseek,
                self@.model,
                opt_str(reasoning_effort),
            ),
    {
        let v4 = self.is_deepseek && has_prefix(&to_chars(self.model.as_str()), &to_chars("deepseek-v4"));
        if v4 {
            match reasoning_effort {
                None => (Some(ThinkingMode::Disabled), None),
                Some(e) => {
                    let ev = to_chars(e);
                    if str_is(&ev, "") || str_is(&ev, "none") {
                        (Some(ThinkingMode::Disabled), None)
                    } else if str_is(&ev, "low") || str_is(&ev, "medium") {
                        (Some(ThinkingMode::Enabled), Some(from_chars(&to_chars("high"))))
                    } else if str_is(&ev, "xhigh") {
                        (Some(ThinkingMode::Enabled), Some(from_chars(&to_chars("max"))))
                    } else {
                        (Some(ThinkingMode::Enabled), Some(from_chars(&ev)))
                    }
                },
            }
        } else {
            match reasoning_effort {
                None => (None, None),
                Some(e) => (None, Some(from_chars(&to_chars(e)))),
            }
        }
    }
}

/// The answer of a non-streamed call: the first choice's content, trimmed.
pub fn first_choice_content(choices: &Vec<String>) -> (r: Result<String, OpenAiError>)
    ensures
        choices.len() == 0 <==> r is Err,
        r is Err ==> r->Err_0 == OpenAiError::NoChoices,
        r is Ok ==> r->Ok_0@ == trim(choices@[0]@),
{
    if choices.len() == 0 {
        Err(OpenAiError::NoChoices)
    } else {
        Ok(from_chars(&trim_exec(&to_chars(choices[0].as_str()))))
    }
}

// ==================== streamed call ====================

/// The fields of one server-sent event of a streamed answer.
pub struct SseDelta {
    /// `choices[0].delta.content`.
    pub content: Option<String>,
    /// `choices[0].delta.reasoning_content`.
    pub reasoning_content: Option<String>,
    /// The counts under `usage`, where present.
    pub prompt_tokens: Option<u64>,
    pub completion_tokens: Option<u64>,
    pub total_tokens: Option<u64>,
    pub reasoning_tokens: Option<u64>,
}

/// The abstract state of a streamed call.
pub struct SseModel {
    pub content: Seq<char>,
    pub reasoning: Seq<char>,
    pub usage: (u32, u32, u32, u32),
}

/// The plain content of a count update: a present count replaces the old one,
/// cut to 32 bits.
pub open spec fn count_after(old: u32, new: Option<u64>) -> u32 {
    match new {
        Some(v) => v as u32,
        None => old,
    }
}

/// One event handled: answer text is kept and pushed, then reasoning text,
/// then the counts are updated.
pub open spec fn sse_step(m: SseModel, d: SseDelta) -> (SseModel, Seq<(u8, Seq<char>)>) {
    let c = opt_string(d.content);
    let r = opt_string(d.reasoning_content);
    let a1 = if nonempty(c) { seq![(1u8, c->0)] } else { Seq::empty() };
    let a2 = if nonempty(r) { a1.push((0u8, r->0)) } else { a1 };
    (SseModel {
        content: if nonempty(c) { m.content + c->0 } else { m.content },
        reasoning: if nonempty(r) { m.reasoning + r->0 } else { m.reasoning },
        usage: (
            count_after(m.usage.0, d.prompt_tokens),
            count_after(m.usage.1, d.completion_tokens),
            count_after(m.usage.2, d.total_tokens),
            count_after(m.usage.3, d.reasoning_tokens),
        ),
    }, a2)
}

/// The state of one streamed call.
pub struct OpenAiStream {
    content_buf: Vec<char>,
    reasoning_buf: Vec<char>,
    usage: Usage,
}

impl View for OpenAiStream {
    type V = SseModel;

    closed spec fn view(&self) -> SseModel {
        SseModel {
            content: self.content_buf@,
            reasoning: self.reasoning_buf@,
            usage: (
                self.usage.prompt_tokens,
                self.usage.completion_tokens,
                self.usage.total_tokens,
                self.usage.reasoning_tokens,
            ),
        }
    }
}

fn nonempty_text(o: &Option<String>) -> (r: Option<Vec<char>>)
    ensures
        nonempty(opt_string(*o)) <==> r is Some,
        r is Some ==> r->0@ == opt_string(*o)->0,
{
    match o {
        Some(s) => {
            let v = to_chars(s.as_str());
            if v.len() > 0 {
                Some(v)
            } else {
                None
            }
        },
        None => None,
    }
}

fn take_count(old: u32, new: Option<u64>) -> (r: u32)
    ensures
        r == count_after(old, new),
{
    match new {
        Some(v) => v as u32,
        None => old,
    }
}

impl OpenAiStream {
    /// Nothing received yet.
    pub fn new() -> (s: Self)
        ensures
            s@.content.len() == 0,
            s@.reasoning.len() == 0,
            s@.usage == (0u32, 0u32, 0u32, 0u32),
    {
        OpenAiStream { content_buf: Vec::new(), reasoning_buf: Vec::new(), usage: Usage::default() }
    }

    /// Handles one event; returns what to push to the client.
    pub fn on_delta(&mut self, d: &SseDelta) -> (r: Vec<StreamAction>)
        ensures
            (final(self)@, actions_view(r@)) == sse_step(old(self)@, *d),
    {
        let mut actions: Vec<StreamAction> = Vec::new();
        match nonempty_text(&d.content) {
            Some(c) => {
                crate::text::append(&mut self.content_buf, &c);
                actions.push(StreamAction::Delta(from_chars(&c)));
                assert(actions_view(actions@) =~= seq![(1u8, c@)]);
            },
            None => {
                assert(actions_view(actions@) =~= Seq::<(u8, Seq<char>)>::empty());
            },
        }
        match nonempty_text(&d.reasoning_content) {
            Some(c) => {
                crate::text::append(&mut self.reasoning_buf, &c);
                let ghost before = actions_view(actions@);
                actions.push(StreamAction::Reasoning(from_chars(&c)));
                assert(actions_view(actions@) =~= before.push((0u8, c@)));
            },
            None => {},
        }
        self.usage.prompt_tokens = take_count(self.usage.prompt_tokens, d.prompt_tokens);
        self.usage.completion_tokens = take_count(self.usage.completion_tokens, d.completion_tokens);
        self.usage.total_tokens = take_count(self.usage.total_tokens, d.total_tokens);
        self.usage.reasoning_tokens = take_count(self.usage.reasoning_tokens, d.reasoning_tokens);
        actions
    }

    /// Ends the stream: the answer is the received text trimmed; the reasoning
    /// is kept only when some came.
    pub fn finish(self, raw_response: String) -> (r: ModelOutput)
        ensures
            r.content@ == trim(self@.content),
            r.reasoning_text is None <==> self@.reasoning.len() == 0,
            r.reasoning_text is Some ==> r.reasoning_text->0@ == self@.reasoning,
            (r.usage.prompt_tokens, r.usage.completion_tokens, r.usage.total_tokens,
                r.usage.reasoning_tokens) == self@.usage,
            r.raw_response@ == raw_response@,
    {
        let reasoning_text = if self.reasoning_buf.len() == 0 {
            None
        } else {
            Some(from_chars(&self.reasoning_buf))
        };
        ModelOutput {
            content: from_chars(&trim_exec(&self.content_buf)),
            usage: self.usage,
            raw_response,
            reasoning_text,
        }
    }
}

} // verus!
