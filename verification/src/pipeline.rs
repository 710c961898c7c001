//! The decisions of the hybrid pipeline: original text → algorithmic
//! compression → model compression → result.
//!
//! The targets, whether the model stage runs (and why not), which service is
//! called and where, and whether the model's answer is kept or the pipeline
//! falls back to a second algorithmic pass. The calls themselves, the clock and
//! the log texts are the caller's.
use vstd::prelude::*;

use crate::algo::textrank::is_permutation;
use crate::algo::tokenize::Sentence;
use crate::algo::{compress_with_stages, compressed_by, stage_view, CompressStage};
use crate::ext::Segmenter;
use crate::model::ollama::OllamaOutput;
use crate::model::openai_compat::{endpoint_spec, opt_str, opt_string, ModelOutput};
use crate::text::{from_chars, to_chars};

verus! {

/// Lengths after the algorithmic and after the model stage.
pub struct Stages {
    pub after_algo: usize,
    pub after_model: usize,
}

/// One log entry.
pub struct LogEntry {
    /// Milliseconds since the start.
    pub t: u64,
    /// `info`, `warn` or `error`.
    pub level: String,
    /// `init`, `algo`, `model`, `fallback` or `done`.
    pub stage: String,
    pub msg: String,
}

/// Details of a model call, for the log.
pub struct ModelCallDetail {
    pub provider: String,
    pub model: String,
    pub endpoint: String,
    pub reasoning_effort: Option<String>,
    pub system_prompt: String,
    pub user_prompt: String,
    pub input_chars: usize,
    pub output_chars: usize,
    pub elapsed_ms: u64,
    pub prompt_tokens: u32,
    pub completion_tokens: u32,
    pub reasoning_tokens: u32,
    /// The raw response, truncated.
    pub raw_response: String,
    /// Reasoning text, where the service streamed it.
    pub reasoning_text: Option<String>,
    pub success: bool,
    pub error: Option<String>,
}

/// The output of either kind of service.
pub enum ModelOutputKind {
    OpenAI(ModelOutput),
    Ollama(OllamaOutput),
}

/// The figures of a model output that the pipeline records.
pub struct OutputSummary {
    pub content: String,
    pub prompt_tokens: u32,
    pub completion_tokens: u32,
    pub reasoning_tokens: u32,
    pub raw_response: String,
    pub reasoning_text: Option<String>,
}

impl ModelOutputKind {
    /// Content, token counts, raw response and reasoning of either output:
    /// an Ollama output reports no reasoning tokens and no reasoning text.
    pub fn summary(&self) -> (r: OutputSummary)
        ensures
            match self {
                ModelOutputKind::OpenAI(o) => {
                    &&& r.content@ == o.content@
                    &&& r.prompt_tokens == o.usage.prompt_tokens
                    &&& r.completion_tokens == o.usage.completion_tokens
                    &&& r.reasoning_tokens == o.usage.reasoning_tokens
                    &&& r.raw_response@ == o.raw_response@
                    &&& opt_string(r.reasoning_text) == opt_string(o.reasoning_text)
                },
                ModelOutputKind::Ollama(o) => {
                    &&& r.content@ == o.content@
                    &&& r.prompt_tokens == o.prompt_eval_count
                    &&& r.completion_tokens == o.eval_count
                    &&& r.reasoning_tokens == 0
                    &&& r.raw_response@ == o.raw_response@
                    &&& r.reasoning_text is None
                },
            },
    {
        match self {
            ModelOutputKind::OpenAI(o) => OutputSummary {
                content: copy_str(&o.content),
                prompt_tokens: o.usage.prompt_tokens,
                completion_tokens: o.usage.completion_tokens,
                reasoning_tokens: o.usage.reasoning_tokens,
                raw_response: copy_str(&o.raw_response),
                reasoning_text: match &o.reasoning_text {
                    Some(s) => Some(copy_str(s)),
                    None => None,
                },
            },
            ModelOutputKind::Ollama(o) => OutputSummary {
                content: copy_str(&o.content),
                prompt_tokens: o.prompt_eval_count,
                completion_tokens: o.eval_count,
                reasoning_tokens: 0,
                raw_response: copy_str(&o.raw_response),
                reasoning_text: None,
            },
        }
    }
}

fn copy_str(s: &String) -> (r: String)
    ensures
        r@ == s@,
{
    from_chars(&to_chars(s.as_str()))
}

// ==================== targets ====================

/// A positive value given, if any.
pub open spec fn positive(o: Option<usize>) -> Option<usize> {
    match o {
        Some(t) => if t > 0 { Some(t) } else { None },
        None => None,
    }
}

/// The final target: a positive retry override (which keeps the target of
/// the first attempt) wins, then a positive target given by the user, then
/// the one derived from the ratio; never below one character.
pub open spec fn target_spec(
    retry_override: Option<usize>,
    user_target: Option<usize>,
    ratio_target: usize,
) -> usize {
    let t = match positive(retry_override) {
        Some(t) => t,
        None => match positive(user_target) {
            Some(t) => t,
            None => ratio_target,
        },
    };
    if t < 1 { 1 } else { t }
}

/// The final target in characters. `ratio_target` is the original length
/// times the ratio, rounded up, as the caller computed it.
pub fn target_chars(retry_override: Option<usize>, user_target: Option<usize>, ratio_target: usize) -> (t: usize)
    ensures
        t == target_spec(retry_override, user_target, ratio_target),
        t >= 1,
{
    let t = match retry_override {
        Some(t) if t > 0 => t,
        _ => match user_target {
            Some(t) if t > 0 => t,
            _ => ratio_target,
        },
    };
    if t < 1 { 1 } else { t }
}

/// The target of the algorithmic stage: the final target itself without a
/// model; with one, one and a half times it, rounded up, to leave the model
/// room (capped at the largest `usize`).
pub open spec fn algo_target_spec(target: usize, no_model: bool) -> int {
    if no_model {
        target as int
    } else {
        let t = target + (target + 1) / 2;
        if t > usize::MAX { usize::MAX as int } else { t }
    }
}

/// The target of the algorithmic stage (see `algo_target_spec`).
pub fn algo_target(target: usize, no_model: bool) -> (a: usize)
    ensures
        a == algo_target_spec(target, no_model),
        !no_model ==> 2 * a >= 3 * target || a == usize::MAX,
        !no_model ==> 2 * a <= 3 * target + 1,
{
    if no_model {
        target
    } else {
        let half = target / 2 + target % 2;
        target.saturating_add(half)
    }
}

// ==================== model stage ====================

/// Why the model stage is skipped.
#[derive(PartialEq, Eq, Structural, Clone, Copy)]
pub enum ModelSkip {
    /// The model is switched off.
    Disabled,
    /// The algorithmic output already meets the final target.
    AlreadyShort,
    /// The algorithmic output is too short to be worth a model call.
    TooShort,
}

/// The shortest algorithmic output worth a model call is one character longer
/// than this.
pub const MIN_MODEL_INPUT: usize = 30;

/// Whether the model stage runs and, if not, why: it runs only when enabled,
/// when the algorithmic output is over the final target and over the minimum.
pub open spec fn skip_spec(no_model: bool, after_algo: usize, target: usize) -> Option<ModelSkip> {
    if no_model {
        Some(ModelSkip::Disabled)
    } else if after_algo <= target {
        Some(ModelSkip::AlreadyShort)
    } else if after_algo <= MIN_MODEL_INPUT {
        Some(ModelSkip::TooShort)
    } else {
        None
    }
}

/// Whether the model stage is skipped, and why (see `skip_spec`).
pub fn model_skip(no_model: bool, after_algo: usize, target: usize) -> (r: Option<ModelSkip>)
    ensures
        r == skip_spec(no_model, after_algo, target),
        r is None <==> (!no_model && after_algo > target && after_algo > MIN_MODEL_INPUT),
{
    if no_model {
        Some(ModelSkip::Disabled)
    } else if after_algo <= target {
        Some(ModelSkip::AlreadyShort)
    } else if after_algo <= MIN_MODEL_INPUT {
        Some(ModelSkip::TooShort)
    } else {
        None
    }
}

/// Whether the model stage runs.
pub fn should_run_model(no_model: bool, after_algo: usize, target: usize) -> (b: bool)
    ensures
        b <==> (!no_model && after_algo > target && after_algo > MIN_MODEL_INPUT),
{
    model_skip(no_model, after_algo, target).is_none()
}

/// What is done with a model call's outcome.
#[derive(PartialEq, Eq, Structural, Clone, Copy)]
pub enum ModelVerdict {
    /// The answer is kept.
    Accept,
    /// The answer is not at least 5 % shorter than its input: fall back to a
    /// second algorithmic pass.
    TooLittle,
    /// The call failed: fall back to a second algorithmic pass.
    Failed,
}

/// The model's answer is kept only if it is at least 5 % shorter than the
/// algorithmic output it was given, that is if 20 times its length is at
/// most 19 times the input's.
pub open spec fn verdict_spec(after_algo: usize, after_model: Option<usize>) -> ModelVerdict {
    match after_model {
        None => ModelVerdict::Failed,
        Some(n) => if 20 * n > 19 * after_algo {
            ModelVerdict::TooLittle
        } else {
            ModelVerdict::Accept
        },
    }
}

/// The verdict on a model call; `after_model` is the answer's length, or
/// `None` when the call failed.
pub fn model_verdict(after_algo: usize, after_model: Option<usize>) -> (v: ModelVerdict)
    ensures
        v == verdict_spec(after_algo, after_model),
        v == ModelVerdict::Accept ==> after_model is Some && 20 * after_model->0 <= 19
            * after_algo,
{
    match after_model {
        None => ModelVerdict::Failed,
        Some(n) => {
            let lhs: u128 = (n as u128) * 20;
            let rhs: u128 = (after_algo as u128) * 19;
            if lhs > rhs {
                ModelVerdict::TooLittle
            } else {
                ModelVerdict::Accept
            }
        },
    }
}

/// Second algorithmic pass after a fallback: the algorithmic output is
/// compressed again, now to the final target.
pub fn final_algo_pass<F: Fn(&Vec<Sentence>) -> Vec<usize>>(
    seg: &Segmenter,
    text: &str,
    target_chars: usize,
    rank: F,
) -> (r: String)
    requires
        forall|s: &Vec<Sentence>| #[trigger] rank.requires((s,)),
        forall|s: &Vec<Sentence>, o: Vec<usize>|
            #[trigger] rank.ensures((s,), o) ==> is_permutation(o@, s.len() as nat),
    ensures
        exists|out: (Seq<char>, nat, nat, nat, bool)|
            #[trigger] compressed_by(rank, text@, target_chars as nat, out) && r@ == out.0,
{
    crate::algo::compress(seg, text, target_chars, rank)
}

// ==================== services ====================

/// The kind of service a provider name selects.
#[derive(PartialEq, Eq, Structural, Clone, Copy)]
pub enum Provider {
    /// The official DeepSeek service.
    DeepSeek,
    /// An OpenAI-compatible service at a user-given base URL.
    Custom,
    /// The local Ollama server (any other name).
    Ollama,
}

/// `deepseek` and `custom` name their services; any other name means Ollama.
pub open spec fn provider_spec(name: Seq<char>) -> Provider {
    if name == "deepseek"@ {
        Provider::DeepSeek
    } else if name == "custom"@ {
        Provider::Custom
    } else {
        Provider::Ollama
    }
}

/// The service a provider name selects.
pub fn provider_of(name: &str) -> (p: Provider)
    ensures
        p == provider_spec(name@),
{
    let v = to_chars(name);
    if crate::text::seq_eq(&v, &to_chars("deepseek")) {
        Provider::DeepSeek
    } else if crate::text::seq_eq(&v, &to_chars("custom")) {
        Provider::Custom
    } else {
        Provider::Ollama
    }
}

/// The local Ollama chat endpoint.
pub open spec fn ollama_endpoint() -> Seq<char> {
    "http://127.0.0.1:11434/api/chat"@
}

/// The endpoint recorded for a call: DeepSeek's own, the one derived from the
/// base URL (an absent one read as empty) for a custom service, Ollama's
/// otherwise.
pub open spec fn endpoint_for_spec(provider: Seq<char>, base_url: Option<Seq<char>>) -> Seq<char> {
    match provider_spec(provider) {
        Provider::DeepSeek => crate::model::openai_compat::deepseek_endpoint(),
        Provider::Custom => endpoint_spec(
            match base_url {
                Some(b) => b,
                None => Seq::empty(),
            },
        ),
        Provider::Ollama => ollama_endpoint(),
    }
}

/// The endpoint recorded for a call (see `endpoint_for_spec`).
pub fn endpoint_for(provider: &str, base_url: Option<&str>) -> (e: String)
    ensures
        e@ == endpoint_for_spec(provider@, opt_str(base_url)),
{
    match provider_of(provider) {
        Provider::DeepSeek => from_chars(&to_chars("https://api.deepseek.com/chat/completions")),
        Provider::Custom => {
            let base = match base_url {
                Some(b) => b,
                None => "",
            };
            proof {
                reveal_strlit("");
                assert(base@ == match opt_str(base_url) {
                    Some(b) => b,
                    None => Seq::<char>::empty(),
                });
            }
            let c = crate::model::openai_compat::OpenAiCompatClient::from_base_url(base, "", "");
            let e = c.endpoint();
            assert(e@ == endpoint_spec(base@));
            e
        },
        Provider::Ollama => from_chars(&to_chars("http://127.0.0.1:11434/api/chat")),
    }
}

/// Why a model call cannot be made.
#[derive(PartialEq, Eq, Structural, Clone, Copy)]
pub enum CallError {
    /// A custom service needs a base URL.
    MissingBaseUrl,
}

/// The service to call: a custom service without a base URL (absent or
/// empty) cannot be called.
pub fn choose_service(provider: &str, base_url: Option<&str>) -> (r: Result<Provider, CallError>)
    ensures
        r is Err <==> (provider_spec(provider@) == Provider::Custom && (base_url is None
            || base_url->0@.len() == 0)),
        r is Err ==> r->Err_0 == CallError::MissingBaseUrl,
        r is Ok ==> r->Ok_0 == provider_spec(provider@),
{
    let p = provider_of(provider);
    match p {
        Provider::Custom => {
            let empty = match base_url {
                Some(b) => to_chars(b).len() == 0,
                None => true,
            };
            if empty {
                Err(CallError::MissingBaseUrl)
            } else {
                Ok(p)
            }
        },
        _ => Ok(p),
    }
}

/// The reasoning setting passed on: an empty one counts as none.
pub fn reasoning_setting(effort: Option<&str>) -> (r: Option<String>)
    ensures
        opt_string(r) == match opt_str(effort) {
            Some(e) => if e.len() > 0 { Some(e) } else { None },
            None => None,
        },
{
    match effort {
        Some(e) => {
            let v = to_chars(e);
            if v.len() > 0 {
                Some(from_chars(&v))
            } else {
                None
            }
        },
        None => None,
    }
}

// ==================== heartbeat ====================

/// Seconds between two heartbeats while waiting for a model.
pub const HEARTBEAT_INTERVAL_SEC: u64 = 10;

/// Waiting on Ollama: loading until this many seconds.
pub const HB_OLLAMA_LOAD_TO_EVAL_SEC: u64 = 30;

/// Waiting on Ollama: evaluating the prompt until this many seconds.
pub const HB_OLLAMA_EVAL_TO_GEN_SEC: u64 = 90;

/// Waiting on a remote service: a plain wait until this many seconds.
pub const HB_API_WAIT_SEC: u64 = 30;

/// What a heartbeat tells the user the model is doing.
#[derive(PartialEq, Eq, Structural, Clone, Copy)]
pub enum HeartbeatPhase {
    /// Ollama is loading the model.
    Loading,
    /// Ollama is evaluating the prompt.
    Evaluating,
    /// Ollama is generating.
    Generating,
    /// A remote service has not answered yet.
    Waiting,
    /// A remote service has not answered for long.
    Slow,
}

/// The phase shown after `elapsed` seconds.
pub open spec fn phase_spec(is_ollama: bool, elapsed: u64) -> HeartbeatPhase {
    if is_ollama {
        if elapsed < HB_OLLAMA_LOAD_TO_EVAL_SEC {
            HeartbeatPhase::Loading
        } else if elapsed < HB_OLLAMA_EVAL_TO_GEN_SEC {
            HeartbeatPhase::Evaluating
        } else {
            HeartbeatPhase::Generating
        }
    } else if elapsed < HB_API_WAIT_SEC {
        HeartbeatPhase::Waiting
    } else {
        HeartbeatPhase::Slow
    }
}

/// The phase a heartbeat reports (see `phase_spec`); `provider` is the
/// provider name, Ollama being named `ollama`.
pub fn heartbeat_phase(provider: &str, elapsed: u64) -> (p: HeartbeatPhase)
    ensures
        p == phase_spec(provider@ == "ollama"@, elapsed),
{
    let is_ollama = crate::text::seq_eq(&to_chars(provider), &to_chars("ollama"));
    if is_ollama {
        if elapsed < HB_OLLAMA_LOAD_TO_EVAL_SEC {
            HeartbeatPhase::Loading
        } else if elapsed < HB_OLLAMA_EVAL_TO_GEN_SEC {
            HeartbeatPhase::Evaluating
        } else {
            HeartbeatPhase::Generating
        }
    } else if elapsed < HB_API_WAIT_SEC {
        HeartbeatPhase::Waiting
    } else {
        HeartbeatPhase::Slow
    }
}

// ==================== a pipeline run ====================

/// Where the final text of a run comes from.
#[derive(PartialEq, Eq, Structural, Clone, Copy)]
pub enum FinalSource {
    /// The algorithmic output, the model stage being skipped for this reason.
    Algorithm(ModelSkip),
    /// The model's answer.
    Model,
    /// A second algorithmic pass after this verdict on the model call.
    FinalPass(ModelVerdict),
}

/// Where a run stands.
#[derive(PartialEq, Eq, Structural, Clone, Copy)]
pub enum RunState {
    /// Waiting for the algorithmic output.
    Algorithm,
    /// Waiting for the model's answer on an algorithmic output of this length.
    Model { after_algo: usize },
    /// Waiting for the second algorithmic pass.
    FinalPass { after_algo: usize, verdict: ModelVerdict },
    /// Done: the lengths after each stage and where the final text comes from.
    Finished { after_algo: usize, after_model: usize, source: FinalSource },
}

/// What the caller does next.
#[derive(PartialEq, Eq, Structural, Clone, Copy)]
pub enum RunAction {
    /// Call the model on the algorithmic output.
    CallModel,
    /// Compress the algorithmic output again, to the final target.
    RunFinalPass,
    /// Nothing more: the run is finished.
    Finish,
}

/// The targets of a run and where it stands. The caller runs the stages; the
/// run decides what comes next.
pub struct PipelineRun {
    original_chars: usize,
    target_chars: usize,
    algo_target: usize,
    no_model: bool,
    state: RunState,
}

/// The plain content of a run.
pub struct RunView {
    pub original_chars: usize,
    pub target_chars: usize,
    pub algo_target: usize,
    pub no_model: bool,
    pub state: RunState,
}

impl View for PipelineRun {
    type V = RunView;

    closed spec fn view(&self) -> RunView {
        RunView {
            original_chars: self.original_chars,
            target_chars: self.target_chars,
            algo_target: self.algo_target,
            no_model: self.no_model,
            state: self.state,
        }
    }
}

/// The state after the algorithmic stage gave `after_algo` characters.
pub open spec fn algorithm_step(no_model: bool, target: usize, after_algo: usize) -> (RunState, RunAction) {
    match skip_spec(no_model, after_algo, target) {
        Some(skip) => (
            RunState::Finished { after_algo, after_model: after_algo, source: FinalSource::Algorithm(skip) },
            RunAction::Finish,
        ),
        None => (RunState::Model { after_algo }, RunAction::CallModel),
    }
}

/// The state after the model call gave an answer of `after_model`
/// characters (`None`: the call failed).
pub open spec fn model_step(after_algo: usize, after_model: Option<usize>) -> (RunState, RunAction) {
    let v = verdict_spec(after_algo, after_model);
    if v == ModelVerdict::Accept {
        (
            RunState::Finished { after_algo, after_model: after_model->0, source: FinalSource::Model },
            RunAction::Finish,
        )
    } else {
        (RunState::FinalPass { after_algo, verdict: v }, RunAction::RunFinalPass)
    }
}

impl PipelineRun {
    /// Starts a run on an original of `original_chars` characters; `None`
    /// for an empty original, which is answered at once with an empty result.
    /// The targets are those of `target_spec` and `algo_target_spec`.
    pub fn start(
        original_chars: usize,
        retry_override: Option<usize>,
        user_target: Option<usize>,
        ratio_target: usize,
        no_model: bool,
    ) -> (r: Option<Self>)
        ensures
            original_chars == 0 <==> r is None,
            r matches Some(run) ==> {
                &&& run@.original_chars == original_chars
                &&& run@.target_chars == target_spec(retry_override, user_target, ratio_target)
                &&& run@.algo_target == algo_target_spec(run@.target_chars, no_model)
                &&& run@.no_model == no_model
                &&& run@.state == RunState::Algorithm
            },
    {
        if original_chars == 0 {
            return None;
        }
        let target = target_chars(retry_override, user_target, ratio_target);
        Some(PipelineRun {
            original_chars,
            target_chars: target,
            algo_target: algo_target(target, no_model),
            no_model,
            state: RunState::Algorithm,
        })
    }

    /// The algorithmic output is ready (or was given): the model is called
    /// unless the stage is skipped.
    pub fn algorithm_done(&mut self, after_algo: usize) -> (a: RunAction)
        requires
            old(self)@.state == RunState::Algorithm,
        ensures
            (final(self)@.state, a) == algorithm_step(old(self)@.no_model, old(self)@.target_chars, after_algo),
            final(self)@.original_chars == old(self)@.original_chars,
            final(self)@.target_chars == old(self)@.target_chars,
            final(self)@.algo_target == old(self)@.algo_target,
            final(self)@.no_model == old(self)@.no_model,
    {
        match model_skip(self.no_model, after_algo, self.target_chars) {
            Some(skip) => {
                self.state = RunState::Finished {
                    after_algo,
                    after_model: after_algo,
                    source: FinalSource::Algorithm(skip),
                };
                RunAction::Finish
            },
            None => {
                self.state = RunState::Model { after_algo };
                RunAction::CallModel
            },
        }
    }

    /// The model call is over: its answer is kept if it is short enough,
    /// otherwise a second algorithmic pass follows.
    pub fn model_done(&mut self, after_model: Option<usize>) -> (a: RunAction)
        requires
            old(self)@.state is Model,
        ensures
            (final(self)@.state, a) == model_step(old(self)@.state->Model_after_algo, after_model),
            final(self)@.original_chars == old(self)@.original_chars,
            final(self)@.target_chars == old(self)@.target_chars,
            final(self)@.algo_target == old(self)@.algo_target,
            final(self)@.no_model == old(self)@.no_model,
    {
        let after_algo = match self.state {
            RunState::Model { after_algo } => after_algo,
            _ => 0,
        };
        let v = model_verdict(after_algo, after_model);
        match v {
            ModelVerdict::Accept => {
                let n = match after_model {
                    Some(n) => n,
                    None => 0,
                };
                self.state = RunState::Finished { after_algo, after_model: n, source: FinalSource::Model };
                RunAction::Finish
            },
            _ => {
                self.state = RunState::FinalPass { after_algo, verdict: v };
                RunAction::RunFinalPass
            },
        }
    }

    /// The second algorithmic pass gave `chars` characters: the run is over.
    pub fn final_pass_done(&mut self, chars: usize)
        requires
            old(self)@.state is FinalPass,
        ensures
            final(self)@.state == (RunState::Finished {
                after_algo: old(self)@.state->FinalPass_after_algo,
                after_model: chars,
                source: FinalSource::FinalPass(old(self)@.state->verdict),
            }),
            final(self)@.original_chars == old(self)@.original_chars,
            final(self)@.target_chars == old(self)@.target_chars,
            final(self)@.algo_target == old(self)@.algo_target,
            final(self)@.no_model == old(self)@.no_model,
    {
        match self.state {
            RunState::FinalPass { after_algo, verdict } => {
                self.state = RunState::Finished {
                    after_algo,
                    after_model: chars,
                    source: FinalSource::FinalPass(verdict),
                };
            },
            _ => {},
        }
    }

    /// Runs the algorithmic stage on the original, to the algorithmic
    /// target, and records its output: the model is called next unless the
    /// stage is skipped.
    pub fn run_algorithm<F: Fn(&Vec<Sentence>) -> Vec<usize>>(
        &mut self,
        seg: &Segmenter,
        text: &str,
        rank: F,
    ) -> (r: (CompressStage, RunAction))
        requires
            old(self)@.state == RunState::Algorithm,
            forall|s: &Vec<Sentence>| #[trigger] rank.requires((s,)),
            forall|s: &Vec<Sentence>, o: Vec<usize>|
                #[trigger] rank.ensures((s,), o) ==> is_permutation(o@, s.len() as nat),
        ensures
            compressed_by(rank, text@, old(self)@.algo_target as nat, stage_view(r.0)),
            (final(self)@.state, r.1) == algorithm_step(
                old(self)@.no_model,
                old(self)@.target_chars,
                r.0.text@.len() as usize,
            ),
            final(self)@.original_chars == old(self)@.original_chars,
            final(self)@.target_chars == old(self)@.target_chars,
            final(self)@.algo_target == old(self)@.algo_target,
            final(self)@.no_model == old(self)@.no_model,
    {
        let stage = compress_with_stages(seg, text, self.algo_target, rank);
        let after_algo = to_chars(stage.text.as_str()).len();
        let a = self.algorithm_done(after_algo);
        (stage, a)
    }

    /// Skips the algorithmic stage for a text already compressed by it (a
    /// retry hands the earlier algorithmic output back): that text is
    /// recorded as the algorithmic output, and the model is called next
    /// unless the stage is skipped.
    pub fn use_given_algo_text(&mut self, text_algo: &str) -> (a: RunAction)
        requires
            old(self)@.state == RunState::Algorithm,
        ensures
            (final(self)@.state, a) == algorithm_step(
                old(self)@.no_model,
                old(self)@.target_chars,
                text_algo@.len() as usize,
            ),
            final(self)@.original_chars == old(self)@.original_chars,
            final(self)@.target_chars == old(self)@.target_chars,
            final(self)@.algo_target == old(self)@.algo_target,
            final(self)@.no_model == old(self)@.no_model,
    {
        let chars = to_chars(text_algo).len();
        self.algorithm_done(chars)
    }

    /// Settles the model stage given the model's answer (`None`: the call
    /// failed): an answer at least 5 % shorter than the algorithmic output is
    /// the final text; otherwise the algorithmic output is compressed again,
    /// to the final target, and that is the final text. The run is then
    /// finished, with the final text's length.
    pub fn finish_model<F: Fn(&Vec<Sentence>) -> Vec<usize>>(
        &mut self,
        seg: &Segmenter,
        algo_output: &str,
        answer: Option<String>,
        rank: F,
    ) -> (r: String)
        requires
            old(self)@.state == (RunState::Model { after_algo: algo_output@.len() as usize }),
            forall|s: &Vec<Sentence>| #[trigger] rank.requires((s,)),
            forall|s: &Vec<Sentence>, o: Vec<usize>|
                #[trigger] rank.ensures((s,), o) ==> is_permutation(o@, s.len() as nat),
        ensures
            ({
                let after_algo = algo_output@.len() as usize;
                let v = verdict_spec(
                    after_algo,
                    match answer {
                        Some(a) => Some(a@.len() as usize),
                        None => None,
                    },
                );
                &&& v == ModelVerdict::Accept ==> (answer matches Some(a) && r@ == a@)
                    && final(self)@.state == (RunState::Finished {
                    after_algo,
                    after_model: r@.len() as usize,
                    source: FinalSource::Model,
                })
                &&& v != ModelVerdict::Accept ==> (exists|out: (Seq<char>, nat, nat, nat, bool)|
                    #[trigger] compressed_by(rank, algo_output@, old(self)@.target_chars as nat, out)
                        && r@ == out.0) && final(self)@.state == (RunState::Finished {
                    after_algo,
                    after_model: r@.len() as usize,
                    source: FinalSource::FinalPass(v),
                })
            }),
            final(self)@.original_chars == old(self)@.original_chars,
            final(self)@.target_chars == old(self)@.target_chars,
            final(self)@.algo_target == old(self)@.algo_target,
            final(self)@.no_model == old(self)@.no_model,
    {
        let after_model = match &answer {
            Some(a) => Some(to_chars(a.as_str()).len()),
            None => None,
        };
        let action = self.model_done(after_model);
        match answer {
            Some(a) => {
                if action == RunAction::Finish {
                    return a;
                }
            },
            None => {},
        }
        let t = final_algo_pass(seg, algo_output, self.target_chars, rank);
        let n = to_chars(t.as_str()).len();
        self.final_pass_done(n);
        t
    }

    /// Characters of the original.
    pub fn original_chars(&self) -> (n: usize)
        ensures
            n == self@.original_chars,
    {
        self.original_chars
    }

    /// The final target.
    pub fn target_chars(&self) -> (n: usize)
        ensures
            n == self@.target_chars,
    {
        self.target_chars
    }

    /// The target of the algorithmic stage.
    pub fn algo_target(&self) -> (n: usize)
        ensures
            n == self@.algo_target,
    {
        self.algo_target
    }

    /// Whether the model is switched off.
    pub fn no_model(&self) -> (b: bool)
        ensures
            b == self@.no_model,
    {
        self.no_model
    }

    /// Where the run stands.
    pub fn current(&self) -> (s: RunState)
        ensures
            s == self@.state,
    {
        self.state
    }

    /// The lengths after each stage, once the run is finished.
    pub fn stages(&self) -> (r: Option<Stages>)
        ensures
            match self@.state {
                RunState::Finished { after_algo, after_model, .. } => r matches Some(st)
                    && st.after_algo == after_algo && st.after_model == after_model,
                _ => r is None,
            },
    {
        match self.state {
            RunState::Finished { after_algo, after_model, .. } => Some(Stages { after_algo, after_model }),
            _ => None,
        }
    }

    /// Whether the run fell back to a second algorithmic pass.
    pub fn fallback_triggered(&self) -> (b: bool)
        ensures
            b == (self@.state matches RunState::Finished { source: FinalSource::FinalPass(_), .. }),
    {
        match self.state {
            RunState::Finished { source: FinalSource::FinalPass(_), .. } => true,
            _ => false,
        }
    }
}

// ==================== laws ====================

/// The model is never called on an output that already meets the target, and
/// an answer that is kept is always shorter than its input (when the input is
/// not empty).
pub proof fn law_model_only_shortens(no_model: bool, after_algo: usize, target: usize, after_model: usize)
    ensures
        skip_spec(no_model, after_algo, target) is None ==> after_algo > target,
        verdict_spec(after_algo, Some(after_model)) == ModelVerdict::Accept && after_algo > 0
            ==> after_model < after_algo,
{
}

/// Pipeline law: a run that finishes reports, as the length after the model
/// stage, the algorithmic length when the model stage is skipped, the answer's
/// length when the model's answer is kept, and the second pass's length when
/// the model falls short or fails; it falls back exactly in the last case.
pub proof fn law_run_outcome(
    no_model: bool,
    target: usize,
    after_algo: usize,
    after_model: Option<usize>,
)
    ensures
        skip_spec(no_model, after_algo, target) matches Some(skip) ==> algorithm_step(
            no_model,
            target,
            after_algo,
        ) == (RunState::Finished {
            after_algo,
            after_model: after_algo,
            source: FinalSource::Algorithm(skip),
        }, RunAction::Finish),
        skip_spec(no_model, after_algo, target) is None ==> algorithm_step(no_model, target, after_algo)
            == (RunState::Model { after_algo }, RunAction::CallModel),
        verdict_spec(after_algo, after_model) == ModelVerdict::Accept ==> after_model is Some
            && model_step(after_algo, after_model) == (RunState::Finished {
            after_algo,
            after_model: after_model->0,
            source: FinalSource::Model,
        }, RunAction::Finish),
        verdict_spec(after_algo, after_model) != ModelVerdict::Accept ==> model_step(
            after_algo,
            after_model,
        ) == (RunState::FinalPass {
            after_algo,
            verdict: verdict_spec(after_algo, after_model),
        }, RunAction::RunFinalPass),
{
}

} // verus!
