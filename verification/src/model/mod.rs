//! Model layer: Ollama and OpenAI-compatible providers, the streaming parser
//! for reasoning blocks and the repetition detectors.
pub mod thinking;
pub mod ollama;
pub mod openai_compat;
pub mod loop_detector;
pub mod stream;
pub mod raw_log;
