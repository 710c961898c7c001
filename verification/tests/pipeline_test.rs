use aitxt_compressor::algo::tokenize::Sentence;
use aitxt_compressor::ext::Segmenter;
use aitxt_compressor::model::ollama::{OllamaOutput, OllamaTiming};
use aitxt_compressor::model::openai_compat::{ModelOutput, Usage};
use aitxt_compressor::pipeline::{
    algo_target, choose_service, endpoint_for, heartbeat_phase, model_skip, model_verdict,
    reasoning_setting, should_run_model, target_chars, CallError, HeartbeatPhase, ModelOutputKind,
    ModelSkip, ModelVerdict, Provider,
};

#[test]
fn target_prefers_positive_override() {
    assert_eq!(target_chars(None, Some(1000), 50), 1000);
    assert_eq!(target_chars(None, Some(0), 50), 50);
    assert_eq!(target_chars(None, None, 50), 50);
    assert_eq!(target_chars(None, None, 0), 1);
    assert_eq!(target_chars(Some(300), Some(1000), 50), 300);
    assert_eq!(target_chars(Some(300), None, 50), 300);
    assert_eq!(target_chars(Some(0), Some(1000), 50), 1000);
}

#[test]
fn algo_target_is_one_and_a_half_times() {
    assert_eq!(algo_target(100, false), 150);
    assert_eq!(algo_target(101, false), 152);
    assert_eq!(algo_target(1, false), 2);
    assert_eq!(algo_target(100, true), 100);
    assert_eq!(algo_target(usize::MAX, false), usize::MAX);
}

#[test]
fn model_stage_skip_reasons() {
    assert!(model_skip(true, 500, 100) == Some(ModelSkip::Disabled));
    assert!(model_skip(false, 100, 100) == Some(ModelSkip::AlreadyShort));
    assert!(model_skip(false, 30, 10) == Some(ModelSkip::TooShort));
    assert!(model_skip(false, 31, 10).is_none());
    assert!(should_run_model(false, 31, 10));
    assert!(!should_run_model(false, 30, 10));
}

#[test]
fn five_percent_rule() {
    assert!(model_verdict(100, Some(95)) == ModelVerdict::Accept);
    assert!(model_verdict(100, Some(96)) == ModelVerdict::TooLittle);
    assert!(model_verdict(20, Some(19)) == ModelVerdict::Accept);
    assert!(model_verdict(100, Some(150)) == ModelVerdict::TooLittle);
    assert!(model_verdict(100, None) == ModelVerdict::Failed);
}

#[test]
fn endpoints_per_provider() {
    assert_eq!(endpoint_for("deepseek", None), "https://api.deepseek.com/chat/completions");
    assert_eq!(endpoint_for("ollama", None), "http://127.0.0.1:11434/api/chat");
    assert_eq!(endpoint_for("anything", Some("x")), "http://127.0.0.1:11434/api/chat");
    assert_eq!(endpoint_for("custom", Some("https://a.b/v1")), "https://a.b/v1/chat/completions");
    assert_eq!(endpoint_for("custom", None), "/v1/chat/completions");
}

#[test]
fn custom_service_needs_base_url() {
    assert!(matches!(choose_service("custom", None), Err(CallError::MissingBaseUrl)));
    assert!(matches!(choose_service("custom", Some("")), Err(CallError::MissingBaseUrl)));
    assert!(matches!(choose_service("custom", Some("https://a")), Ok(Provider::Custom)));
    assert!(matches!(choose_service("deepseek", None), Ok(Provider::DeepSeek)));
    assert!(matches!(choose_service("ollama", None), Ok(Provider::Ollama)));
}

#[test]
fn empty_reasoning_is_none() {
    assert!(reasoning_setting(Some("")).is_none());
    assert_eq!(reasoning_setting(Some("high")).as_deref(), Some("high"));
    assert!(reasoning_setting(None).is_none());
}

#[test]
fn heartbeat_phases() {
    assert!(heartbeat_phase("ollama", 10) == HeartbeatPhase::Loading);
    assert!(heartbeat_phase("ollama", 30) == HeartbeatPhase::Evaluating);
    assert!(heartbeat_phase("ollama", 90) == HeartbeatPhase::Generating);
    assert!(heartbeat_phase("deepseek", 29) == HeartbeatPhase::Waiting);
    assert!(heartbeat_phase("custom", 30) == HeartbeatPhase::Slow);
}

#[test]
fn output_summaries() {
    let o = ModelOutputKind::OpenAI(ModelOutput {
        content: "c".to_string(),
        usage: Usage { prompt_tokens: 1, completion_tokens: 2, total_tokens: 3, reasoning_tokens: 4 },
        raw_response: "r".to_string(),
        reasoning_text: Some("t".to_string()),
    });
    let s = o.summary();
    assert_eq!((s.content.as_str(), s.prompt_tokens, s.completion_tokens, s.reasoning_tokens), ("c", 1, 2, 4));
    assert_eq!(s.reasoning_text.as_deref(), Some("t"));
    let o = ModelOutputKind::Ollama(OllamaOutput {
        content: "d".to_string(),
        prompt_eval_count: 5,
        eval_count: 6,
        raw_response: "raw".to_string(),
        timing: OllamaTiming::default(),
    });
    let s = o.summary();
    assert_eq!((s.content.as_str(), s.prompt_tokens, s.completion_tokens, s.reasoning_tokens), ("d", 5, 6, 0));
    assert!(s.reasoning_text.is_none());
    assert_eq!(s.raw_response, "raw");
}

use aitxt_compressor::pipeline::{FinalSource, PipelineRun, RunAction, RunState};

#[test]
fn empty_original_has_no_run() {
    assert!(PipelineRun::start(0, None, Some(10), 10, false).is_none());
}

#[test]
fn run_targets() {
    let run = PipelineRun::start(1000, None, None, 500, false).unwrap();
    assert_eq!(run.original_chars(), 1000);
    assert_eq!(run.target_chars(), 500);
    assert_eq!(run.algo_target(), 750);
    assert!(!run.no_model());
    assert!(run.current() == RunState::Algorithm);
    let run = PipelineRun::start(1000, None, Some(100), 500, true).unwrap();
    assert_eq!(run.algo_target(), 100);
}

#[test]
fn run_skips_model_when_short_enough() {
    let mut run = PipelineRun::start(1000, None, None, 500, false).unwrap();
    assert!(run.algorithm_done(400) == RunAction::Finish);
    assert!(
        run.current()
            == RunState::Finished { after_algo: 400, after_model: 400, source: FinalSource::Algorithm(ModelSkip::AlreadyShort) }
    );
    let st = run.stages().unwrap();
    assert_eq!((st.after_algo, st.after_model), (400, 400));
    assert!(!run.fallback_triggered());
}

#[test]
fn run_keeps_a_short_enough_answer() {
    let mut run = PipelineRun::start(1000, None, None, 500, false).unwrap();
    assert!(run.algorithm_done(700) == RunAction::CallModel);
    assert!(run.stages().is_none());
    assert!(run.model_done(Some(600)) == RunAction::Finish);
    let st = run.stages().unwrap();
    assert_eq!((st.after_algo, st.after_model), (700, 600));
    assert!(!run.fallback_triggered());
}

#[test]
fn run_falls_back_on_failure_or_small_gain() {
    let mut run = PipelineRun::start(1000, None, None, 500, false).unwrap();
    run.algorithm_done(700);
    assert!(run.model_done(Some(690)) == RunAction::RunFinalPass);
    assert!(run.current() == RunState::FinalPass { after_algo: 700, verdict: ModelVerdict::TooLittle });
    run.final_pass_done(480);
    assert!(run.fallback_triggered());
    let st = run.stages().unwrap();
    assert_eq!((st.after_algo, st.after_model), (700, 480));

    let mut run = PipelineRun::start(1000, None, None, 500, false).unwrap();
    run.algorithm_done(700);
    assert!(run.model_done(None) == RunAction::RunFinalPass);
    run.final_pass_done(500);
    assert!(run.current() == RunState::Finished { after_algo: 700, after_model: 500, source: FinalSource::FinalPass(ModelVerdict::Failed) });
}

#[test]
fn disabled_model_is_never_called() {
    let mut run = PipelineRun::start(1000, None, None, 500, true).unwrap();
    assert!(run.algorithm_done(900) == RunAction::Finish);
    assert!(run.current() == RunState::Finished { after_algo: 900, after_model: 900, source: FinalSource::Algorithm(ModelSkip::Disabled) });
}

#[test]
fn retry_override_keeps_first_target() {
    let run = PipelineRun::start(200, Some(700), Some(100), 50, true).unwrap();
    assert_eq!(run.target_chars(), 700);
    assert_eq!(run.algo_target(), 700);
}

fn ranked_in_order(s: &Vec<Sentence>) -> Vec<usize> {
    (0..s.len()).collect()
}

#[test]
fn run_algorithm_records_its_output() {
    let seg = Segmenter::new();
    let mut run = PipelineRun::start(12, None, Some(100), 1, true).unwrap();
    let (stage, action) = run.run_algorithm(&seg, "# 标题\n大约10公里", ranked_in_order);
    assert_eq!(stage.text, "标题 约10km");
    assert!(action == RunAction::Finish);
    assert_eq!(run.stages().map(|s| (s.after_algo, s.after_model)), Some((8, 8)));
}

#[test]
fn finish_model_keeps_a_short_answer_or_falls_back() {
    let seg = Segmenter::new();
    let algo = "第一句话很长很长很长很长。第二句话也很长很长很长。第三句话同样很长很长很长。";
    let n = algo.chars().count();
    let mut run = PipelineRun::start(100, None, Some(10), 50, false).unwrap();
    assert!(run.algorithm_done(n) == RunAction::CallModel);
    let kept = run.finish_model(&seg, algo, Some("短答案".to_string()), ranked_in_order);
    assert_eq!(kept, "短答案");
    assert!(matches!(run.current(), RunState::Finished { source: FinalSource::Model, after_model: 3, .. }));

    let mut run = PipelineRun::start(100, None, Some(10), 50, false).unwrap();
    assert!(run.algorithm_done(n) == RunAction::CallModel);
    let text = run.finish_model(&seg, algo, None, ranked_in_order);
    assert!(text.chars().count() < n);
    assert!(matches!(
        run.current(),
        RunState::Finished { source: FinalSource::FinalPass(ModelVerdict::Failed), .. }
    ));

    let mut run = PipelineRun::start(100, None, Some(10), 50, false).unwrap();
    assert!(run.algorithm_done(n) == RunAction::CallModel);
    let text = run.finish_model(&seg, algo, Some(algo.to_string()), ranked_in_order);
    assert_ne!(text, algo);
    assert!(matches!(
        run.current(),
        RunState::Finished { source: FinalSource::FinalPass(ModelVerdict::TooLittle), .. }
    ));
}

#[test]
fn given_algo_text_skips_the_algorithm() {
    let mut run = PipelineRun::start(100, None, Some(10), 50, false).unwrap();
    let given = "第一句话很长很长很长很长。第二句话也很长很长很长。第三句话同样很长很长很长。";
    assert!(run.use_given_algo_text(given) == RunAction::CallModel);
    assert!(matches!(run.current(), RunState::Model { after_algo } if after_algo == given.chars().count()));
    let mut run = PipelineRun::start(100, None, Some(10), 50, false).unwrap();
    assert!(run.use_given_algo_text("短") == RunAction::Finish);
}
