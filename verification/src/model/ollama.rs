//! Ollama-side logic: the reasoning-tag parser, the `think` parameter, the
//! cleaning of a chat answer, and the decisions taken for each chunk of a
//! streamed chat answer. The HTTP calls themselves are made by the caller.
use vstd::prelude::*;

pub use crate::model::thinking::ThinkingParser;

use crate::model::loop_detector::{
    loop_feed, thinking_feed, LoopDetector, LoopModel, ThinkingLoopDetector, ThinkingLoopModel,
};
use crate::model::thinking::{feed_all, feed_model, flush_model, initial_model, route, ParserModel};
use crate::text::{concat, from_chars, lemma_concat_push, to_chars, trim, trim_exec};

verus! {

/// The `think` field of an Ollama chat request: a switch or a level name.
pub enum ThinkParam {
    Bool(bool),
    Level(String),
}

/// The `think` field for a reasoning setting: `"none"` turns thinking off,
/// any other value is passed on as a level, and no setting sends no field.
pub open spec fn think_spec(reasoning: Option<Seq<char>>) -> Option<(bool, Seq<char>)> {
    match reasoning {
        Some(r) => if r == "none"@ { Some((false, Seq::empty())) } else { Some((true, r)) },
        None => None,
    }
}

/// The plain content of a `think` field: `(false, _)` for a switch, `(true,
/// level)` for a level.
pub open spec fn think_view(t: Option<ThinkParam>) -> Option<(bool, Seq<char>)> {
    match t {
        Some(ThinkParam::Bool(b)) => if b { Some((false, seq!['t'])) } else { Some((false, Seq::empty())) },
        Some(ThinkParam::Level(l)) => Some((true, l@)),
        None => None,
    }
}

/// Maps the reasoning setting to Ollama's `think` field.
pub fn reasoning_to_think(reasoning: Option<&str>) -> (r: Option<ThinkParam>)
    ensures
        think_view(r) == think_spec(match reasoning {
            Some(s) => Some(s@),
            None => None,
        }),
{
    match reasoning {
        Some(level) => {
            if crate::text::seq_eq(&to_chars(level), &to_chars("none")) {
                Some(ThinkParam::Bool(false))
            } else {
                Some(ThinkParam::Level(from_chars(&to_chars(level))))
            }
        },
        None => None,
    }
}

/// Ollama's timing statistics, in nanoseconds.
pub struct OllamaTiming {
    pub total_duration_ns: u64,
    pub load_duration_ns: u64,
    pub prompt_eval_duration_ns: u64,
    pub eval_duration_ns: u64,
}

impl Default for OllamaTiming {
    /// All durations zero.
    fn default() -> (t: Self)
        ensures
            t.total_duration_ns == 0 && t.load_duration_ns == 0 && t.prompt_eval_duration_ns == 0
                && t.eval_duration_ns == 0,
    {
        OllamaTiming {
            total_duration_ns: 0,
            load_duration_ns: 0,
            prompt_eval_duration_ns: 0,
            eval_duration_ns: 0,
        }
    }
}

/// Result of an Ollama call.
pub struct OllamaOutput {
    pub content: String,
    pub prompt_eval_count: u32,
    pub eval_count: u32,
    /// The raw response, truncated for the log.
    pub raw_response: String,
    pub timing: OllamaTiming,
}

/// The answer of a non-streamed chat: with a separate thinking field the
/// content is already pure answer; otherwise reasoning blocks are removed
/// from it. Trimmed either way.
pub open spec fn clean_content_spec(content: Seq<char>, has_thinking_field: bool) -> Seq<char> {
    if has_thinking_field {
        trim(content)
    } else {
        trim(route(content, false).0)
    }
}

/// Cleans the content of a non-streamed chat answer.
pub fn clean_content(content: &str, has_thinking_field: bool) -> (r: String)
    ensures
        r@ == clean_content_spec(content@, has_thinking_field),
{
    if has_thinking_field {
        from_chars(&trim_exec(&to_chars(content)))
    } else {
        let mut parser = ThinkingParser::new();
        parser.feed(content);
        parser.flush();
        proof {
            let chunks = seq![content@];
            crate::model::thinking::law_chunking_invariant(chunks);
            assert(chunks.drop_last() =~= Seq::<Seq<char>>::empty());
            assert(feed_all(initial_model(), chunks.drop_last()) == initial_model());
            assert(feed_all(initial_model(), chunks) == feed_model(initial_model(), content@));
            assert(crate::text::concat(chunks) =~= content@) by {
                assert(crate::text::concat(chunks.drop_last()) =~= Seq::<char>::empty());
            }
        }
        let full = parser.output_full();
        from_chars(&trim_exec(&to_chars(full.as_str())))
    }
}

/// One entry of Ollama's list of loaded models: its `name` and `model`
/// fields, where present.
pub struct LoadedModel {
    pub name: Option<String>,
    pub model: Option<String>,
}

/// A model is loaded when some entry names it in its `name` field (older
/// servers) or its `model` field (newer ones).
pub open spec fn listed_spec(entries: Seq<LoadedModel>, model: Seq<char>) -> bool {
    exists|i: int|
        0 <= i < entries.len() && (crate::model::openai_compat::opt_string(
            #[trigger] entries[i].name,
        ) == Some(model) || crate::model::openai_compat::opt_string(entries[i].model) == Some(
            model,
        ))
}

fn names(o: &Option<String>, m: &Vec<char>) -> (b: bool)
    ensures
        b == (crate::model::openai_compat::opt_string(*o) == Some(m@)),
{
    match o {
        Some(s) => crate::text::seq_eq(&to_chars(s.as_str()), m),
        None => false,
    }
}

/// Whether `model` is among the loaded models (see `listed_spec`).
pub fn model_listed(entries: &Vec<LoadedModel>, model: &str) -> (b: bool)
    ensures
        b == listed_spec(entries@, model@),
{
    let m = to_chars(model);
    let mut i: usize = 0;
    while i < entries.len()
        invariant
            i <= entries.len(),
            m@ == model@,
            forall|k: int|
                0 <= k < i ==> !(crate::model::openai_compat::opt_string(#[trigger] entries@[k].name)
                    == Some(model@) || crate::model::openai_compat::opt_string(entries@[k].model)
                    == Some(model@)),
        decreases entries.len() - i,
    {
        if names(&entries[i].name, &m) || names(&entries[i].model, &m) {
            return true;
        }
        i += 1;
    }
    false
}

// ==================== streamed chat ====================

/// The fields of one NDJSON line of a streamed chat answer.
pub struct ChatChunk {
    pub thinking: Option<String>,
    pub content: Option<String>,
    pub prompt_eval_count: Option<u64>,
    pub eval_count: Option<u64>,
    pub total_duration: Option<u64>,
    pub load_duration: Option<u64>,
    pub prompt_eval_duration: Option<u64>,
    pub eval_duration: Option<u64>,
}

/// What to push to the client for a chunk.
pub enum StreamAction {
    /// Reasoning text.
    Reasoning(String),
    /// Answer text.
    Delta(String),
    /// A repetition loop was detected; the stream is to be stopped.
    LoopDetected,
}

/// The plain content of an action: kind (0 reasoning, 1 answer, 2 loop) and text.
pub open spec fn action_view(a: StreamAction) -> (u8, Seq<char>) {
    match a {
        StreamAction::Reasoning(s) => (0, s@),
        StreamAction::Delta(s) => (1, s@),
        StreamAction::LoopDetected => (2, Seq::empty()),
    }
}

/// The plain content of a list of actions.
pub open spec fn actions_view(v: Seq<StreamAction>) -> Seq<(u8, Seq<char>)> {
    v.map_values(|a: StreamAction| action_view(a))
}

/// The abstract state of a streamed chat.
pub struct StreamModel {
    pub parser: ParserModel,
    pub content_detector: LoopModel,
    pub thinking_detector: ThinkingLoopModel,
    /// All answer text received, tags included.
    pub content: Seq<char>,
    pub prompt_eval_count: u32,
    pub eval_count: u32,
    pub durations: (u64, u64, u64, u64),
    pub loop_detected: bool,
}

/// An optional string that is present and not empty.
pub open spec fn nonempty(o: Option<Seq<char>>) -> bool {
    o is Some && o->0.len() > 0
}

/// The counters after a chunk: each field that is present replaces the
/// previous value (token counts are cut to 32 bits).
pub open spec fn counters_after(m: StreamModel, c: ChunkView) -> StreamModel {
    StreamModel {
        prompt_eval_count: match c.prompt_eval_count { Some(v) => v as u32, None => m.prompt_eval_count },
        eval_count: match c.eval_count { Some(v) => v as u32, None => m.eval_count },
        durations: (
            match c.total_duration { Some(v) => v, None => m.durations.0 },
            match c.load_duration { Some(v) => v, None => m.durations.1 },
            match c.prompt_eval_duration { Some(v) => v, None => m.durations.2 },
            match c.eval_duration { Some(v) => v, None => m.durations.3 },
        ),
        ..m
    }
}

/// The plain content of a chunk.
pub struct ChunkView {
    pub thinking: Option<Seq<char>>,
    pub content: Option<Seq<char>>,
    pub prompt_eval_count: Option<u64>,
    pub eval_count: Option<u64>,
    pub total_duration: Option<u64>,
    pub load_duration: Option<u64>,
    pub prompt_eval_duration: Option<u64>,
    pub eval_duration: Option<u64>,
}

/// The plain content of a chunk.
pub open spec fn chunk_view(c: ChatChunk) -> ChunkView {
    ChunkView {
        thinking: match c.thinking { Some(s) => Some(s@), None => None },
        content: match c.content { Some(s) => Some(s@), None => None },
        prompt_eval_count: c.prompt_eval_count,
        eval_count: c.eval_count,
        total_duration: c.total_duration,
        load_duration: c.load_duration,
        prompt_eval_duration: c.prompt_eval_duration,
        eval_duration: c.eval_duration,
    }
}

/// One chunk handled: reasoning goes through the segment detector and out;
/// answer text goes through the n-gram detector and the tag parser, and what
/// the parser emits goes out. A detected loop stops the chunk at once (the
/// counters of that chunk are then not read).
pub open spec fn chunk_step(m: StreamModel, c: ChunkView) -> (StreamModel, Seq<(u8, Seq<char>)>) {
    // reasoning
    let (m1, a1, stop1) = if nonempty(c.thinking) {
        let (td, looped) = thinking_feed(m.thinking_detector, c.thinking->0);
        if looped {
            (StreamModel { thinking_detector: td, loop_detected: true, ..m }, seq![(2u8, Seq::<char>::empty())], true)
        } else {
            (StreamModel { thinking_detector: td, ..m }, seq![(0u8, c.thinking->0)], false)
        }
    } else {
        (m, Seq::<(u8, Seq<char>)>::empty(), false)
    };
    if stop1 {
        (m1, a1)
    } else if nonempty(c.content) {
        let text = c.content->0;
        let (cd, looped) = loop_feed(m1.content_detector, text);
        if looped {
            (StreamModel { content_detector: cd, loop_detected: true, ..m1 }, a1.push((2u8, Seq::<char>::empty())))
        } else {
            let p = feed_model(m1.parser, text);
            let a2 = if p.output.len() > 0 { a1.push((1u8, p.output)) } else { a1 };
            let a3 = if p.reasoning.len() > 0 { a2.push((0u8, p.reasoning)) } else { a2 };
            let m2 = StreamModel {
                content_detector: cd,
                content: m1.content + text,
                parser: ParserModel { output: Seq::empty(), reasoning: Seq::empty(), ..p },
                ..m1
            };
            (counters_after(m2, c), a3)
        }
    } else {
        (counters_after(m1, c), a1)
    }
}

/// The state of one streamed chat answer.
pub struct OllamaStream {
    parser: ThinkingParser,
    content_detector: LoopDetector,
    thinking_detector: ThinkingLoopDetector,
    content_buf: Vec<char>,
    prompt_eval_count: u32,
    eval_count: u32,
    timing: OllamaTiming,
    loop_detected: bool,
}

impl View for OllamaStream {
    type V = StreamModel;

    closed spec fn view(&self) -> StreamModel {
        StreamModel {
            parser: self.parser@,
            content_detector: self.content_detector@,
            thinking_detector: self.thinking_detector@,
            content: self.content_buf@,
            prompt_eval_count: self.prompt_eval_count,
            eval_count: self.eval_count,
            durations: (
                self.timing.total_duration_ns,
                self.timing.load_duration_ns,
                self.timing.prompt_eval_duration_ns,
                self.timing.eval_duration_ns,
            ),
            loop_detected: self.loop_detected,
        }
    }
}

fn opt_nonempty(o: &Option<String>) -> (r: bool)
    ensures
        r == nonempty(match o {
            Some(s) => Some(s@),
            None => None,
        }),
{
    match o {
        Some(s) => to_chars(s.as_str()).len() > 0,
        None => false,
    }
}

impl OllamaStream {
    /// The detectors are well formed.
    pub closed spec fn wf(&self) -> bool {
        self.content_detector.wf() && self.thinking_detector.wf()
    }

    /// A stream with nothing received yet: fresh parser and detectors, no
    /// text, zero counters.
    pub fn new() -> (s: Self)
        ensures
            s.wf(),
            s@ == (StreamModel {
                parser: initial_model(),
                content_detector: LoopModel {
                    n: 32,
                    threshold: 5,
                    buf: Seq::empty(),
                    window_size: 4000,
                    total_chars: 0,
                    max_chars: 50000,
                },
                thinking_detector: ThinkingLoopModel {
                    segment_len: 200,
                    threshold: 3,
                    buf: Seq::empty(),
                    hash_counts: Map::empty(),
                    total_chars: 0,
                    max_chars: 80000,
                },
                content: Seq::empty(),
                prompt_eval_count: 0,
                eval_count: 0,
                durations: (0u64, 0u64, 0u64, 0u64),
                loop_detected: false,
            }),
    {
        OllamaStream {
            parser: ThinkingParser::new(),
            content_detector: LoopDetector::new(),
            thinking_detector: ThinkingLoopDetector::new(),
            content_buf: Vec::new(),
            prompt_eval_count: 0,
            eval_count: 0,
            timing: OllamaTiming::default(),
            loop_detected: false,
        }
    }

    /// Whether a repetition loop has stopped the stream.
    pub fn loop_detected(&self) -> (b: bool)
        ensures
            b == self@.loop_detected,
    {
        self.loop_detected
    }

    /// Handles one NDJSON line of the stream; returns what to push to the
    /// client.
    pub fn on_chunk(&mut self, c: &ChatChunk) -> (r: Vec<StreamAction>)
        requires
            old(self).wf(),
        ensures
            final(self).wf(),
            (final(self)@, actions_view(r@)) == chunk_step(old(self)@, chunk_view(*c)),
    {
        let mut actions: Vec<StreamAction> = Vec::new();
        if opt_nonempty(&c.thinking) {
            let t = match &c.thinking {
                Some(s) => s.as_str(),
                None => "",
            };
            if self.thinking_detector.feed(t) {
                self.loop_detected = true;
                actions.push(StreamAction::LoopDetected);
                assert(actions_view(actions@) =~= seq![(2u8, Seq::<char>::empty())]);
                return actions;
            }
            actions.push(StreamAction::Reasoning(from_chars(&to_chars(t))));
            assert(actions_view(actions@) =~= seq![(0u8, t@)]);
        }
        assert(actions_view(actions@) == chunk_step_actions1(old(self)@, chunk_view(*c)));
        if opt_nonempty(&c.content) {
            let t = match &c.content {
                Some(s) => s.as_str(),
                None => "",
            };
            if self.content_detector.feed(t) {
                self.loop_detected = true;
                let ghost before = actions_view(actions@);
                actions.push(StreamAction::LoopDetected);
                assert(actions_view(actions@) =~= before.push((2u8, Seq::<char>::empty())));
                return actions;
            }
            crate::text::append(&mut self.content_buf, &to_chars(t));
            self.parser.feed(t);
            let out = self.parser.take_output();
            if to_chars(out.as_str()).len() > 0 {
                let ghost before = actions_view(actions@);
                actions.push(StreamAction::Delta(out));
                assert(actions_view(actions@) =~= before.push((1u8, feed_model(old(self)@.parser, t@).output)));
            }
            let reasoning = self.parser.take_reasoning();
            if to_chars(reasoning.as_str()).len() > 0 {
                let ghost before = actions_view(actions@);
                actions.push(StreamAction::Reasoning(reasoning));
                assert(actions_view(actions@) =~= before.push((0u8, feed_model(old(self)@.parser, t@).reasoning)));
            }
        }
        if let Some(v) = c.prompt_eval_count {
            self.prompt_eval_count = v as u32;
        }
        if let Some(v) = c.eval_count {
            self.eval_count = v as u32;
        }
        if let Some(v) = c.total_duration {
            self.timing.total_duration_ns = v;
        }
        if let Some(v) = c.load_duration {
            self.timing.load_duration_ns = v;
        }
        if let Some(v) = c.prompt_eval_duration {
            self.timing.prompt_eval_duration_ns = v;
        }
        if let Some(v) = c.eval_duration {
            self.timing.eval_duration_ns = v;
        }
        actions
    }
}

/// What is left to do at the end of a streamed chat.
pub struct StreamEnd {
    /// The text the parser still held, to push to the client.
    pub tail: Vec<StreamAction>,
    /// The answer; `None` when the stream brought nothing at all.
    pub content: Option<String>,
    pub prompt_eval_count: u32,
    pub eval_count: u32,
    pub timing: OllamaTiming,
}

/// The end of a stream: the parser is flushed and what it held goes out
/// (answer first); the stream counts as empty when no chunk was read and no
/// answer text came; otherwise the answer is the trimmed tag-free text, or
/// the trimmed raw text where the former is blank.
pub open spec fn finish_spec(m: StreamModel, chunk_success: bool) -> (
    Seq<(u8, Seq<char>)>,
    Option<Seq<char>>,
) {
    let p = flush_model(m.parser);
    let a1 = if p.output.len() > 0 { seq![(1u8, p.output)] } else { Seq::empty() };
    let a2 = if p.reasoning.len() > 0 { a1.push((0u8, p.reasoning)) } else { a1 };
    let content = if trim(m.content).len() == 0 && !chunk_success {
        None
    } else if trim(p.output_full).len() == 0 {
        Some(trim(m.content))
    } else {
        Some(trim(p.output_full))
    };
    (a2, content)
}

impl OllamaStream {
    /// Ends the stream. `chunk_success` tells whether any chunk of the body was
    /// read at all.
    pub fn finish(self, chunk_success: bool) -> (r: StreamEnd)
        ensures
            (actions_view(r.tail@), match r.content {
                Some(s) => Some(s@),
                None => None,
            }) == finish_spec(self@, chunk_success),
            r.prompt_eval_count == self@.prompt_eval_count,
            r.eval_count == self@.eval_count,
            (r.timing.total_duration_ns, r.timing.load_duration_ns, r.timing.prompt_eval_duration_ns,
                r.timing.eval_duration_ns) == self@.durations,
    {
        let ghost m = self@;
        let mut parser = self.parser;
        parser.flush();
        let mut tail: Vec<StreamAction> = Vec::new();
        let out = parser.take_output();
        if to_chars(out.as_str()).len() > 0 {
            tail.push(StreamAction::Delta(out));
        }
        let reasoning = parser.take_reasoning();
        if to_chars(reasoning.as_str()).len() > 0 {
            let ghost before = actions_view(tail@);
            tail.push(StreamAction::Reasoning(reasoning));
            assert(actions_view(tail@) =~= before.push((0u8, flush_model(m.parser).reasoning)));
        }
        proof {
            let p = flush_model(m.parser);
            if p.output.len() > 0 {
                assert(actions_view(seq![StreamAction::Delta(out)]) =~= seq![(1u8, p.output)]);
            }
            let a1 = if p.output.len() > 0 { seq![(1u8, p.output)] } else { Seq::<(u8, Seq<char>)>::empty() };
            if p.reasoning.len() == 0 {
                assert(actions_view(tail@) =~= a1);
            }
        }
        let body = trim_exec(&self.content_buf);
        let content = if body.len() == 0 && !chunk_success {
            None
        } else {
            let full = trim_exec(&to_chars(parser.output_full().as_str()));
            if full.len() == 0 {
                Some(from_chars(&body))
            } else {
                Some(from_chars(&full))
            }
        };
        StreamEnd {
            tail,
            content,
            prompt_eval_count: self.prompt_eval_count,
            eval_count: self.eval_count,
            timing: self.timing,
        }
    }
}

/// The actions of the reasoning part of a chunk when it does not stop it.
pub open spec fn chunk_step_actions1(m: StreamModel, c: ChunkView) -> Seq<(u8, Seq<char>)> {
    if nonempty(c.thinking) {
        seq![(0u8, c.thinking->0)]
    } else {
        Seq::empty()
    }
}

/// The state after every chunk in turn.
pub open spec fn stream_all(m: StreamModel, cs: Seq<ChunkView>) -> StreamModel
    decreases cs.len(),
{
    if cs.len() == 0 {
        m
    } else {
        chunk_step(stream_all(m, cs.drop_last()), cs.last()).0
    }
}

/// The parser holds what a parser fed the received answer text in some
/// cutting would hold (the taken deltas aside).
pub open spec fn parser_tracks(p: ParserModel, content: Seq<char>) -> bool {
    exists|chunks: Seq<Seq<char>>|
        #![trigger concat(chunks)]
        {
            let f = feed_all(initial_model(), chunks);
            &&& concat(chunks) == content
            &&& f.buf == p.buf
            &&& f.thinking == p.thinking
            &&& f.output_full == p.output_full
        }
}

proof fn lemma_step_tracks(m: StreamModel, c: ChunkView)
    requires
        parser_tracks(m.parser, m.content),
    ensures
        parser_tracks(chunk_step(m, c).0.parser, chunk_step(m, c).0.content),
{
    let chunks = choose|chunks: Seq<Seq<char>>|
        #![trigger concat(chunks)]
        {
            let f = feed_all(initial_model(), chunks);
            &&& concat(chunks) == m.content
            &&& f.buf == m.parser.buf
            &&& f.thinking == m.parser.thinking
            &&& f.output_full == m.parser.output_full
        };
    let n = chunk_step(m, c).0;
    if n.content == m.content && n.parser == m.parser {
        assert(concat(chunks) == n.content);
    } else {
        let text = c.content->0;
        lemma_concat_push(chunks, text);
        let chunks2 = chunks.push(text);
        assert(chunks2.drop_last() =~= chunks);
        assert(concat(chunks2) == n.content);
    }
}

proof fn lemma_stream_tracks(m: StreamModel, cs: Seq<ChunkView>)
    requires
        parser_tracks(m.parser, m.content),
    ensures
        parser_tracks(stream_all(m, cs).parser, stream_all(m, cs).content),
    decreases cs.len(),
{
    if cs.len() > 0 {
        lemma_stream_tracks(m, cs.drop_last());
        lemma_step_tracks(stream_all(m, cs.drop_last()), cs.last());
    }
}

/// Streaming law: whatever chunks a streamed chat brings, and wherever a
/// loop stops it, the answer text the parser yields once flushed is exactly
/// the tag-free answer of all answer text received, so the streamed answer
/// is what cleaning that text as a whole gives, unless it is blank.
pub proof fn law_stream_answer(m: StreamModel, cs: Seq<ChunkView>, chunk_success: bool)
    requires
        m.parser == initial_model(),
        m.content.len() == 0,
    ensures
        ({
            let e = stream_all(m, cs);
            &&& flush_model(e.parser).output_full == route(e.content, false).0
            &&& trim(route(e.content, false).0).len() > 0 ==> finish_spec(e, chunk_success).1
                == Some(clean_content_spec(e.content, false))
        }),
{
    let e0 = Seq::<Seq<char>>::empty();
    assert(concat(e0) == m.content);
    assert(feed_all(initial_model(), e0) == initial_model());
    assert(parser_tracks(m.parser, m.content));
    lemma_stream_tracks(m, cs);
    let e = stream_all(m, cs);
    let chunks = choose|chunks: Seq<Seq<char>>|
        #![trigger concat(chunks)]
        {
            let f = feed_all(initial_model(), chunks);
            &&& concat(chunks) == e.content
            &&& f.buf == e.parser.buf
            &&& f.thinking == e.parser.thinking
            &&& f.output_full == e.parser.output_full
        };
    crate::model::thinking::law_chunking_invariant(chunks);
    crate::text::lemma_trim_empty(e.content);
    crate::text::lemma_trim_empty(route(e.content, false).0);
    if crate::text::all_ws(e.content) {
        crate::model::thinking::lemma_route_ws(e.content, false);
    }
}

} // verus!
