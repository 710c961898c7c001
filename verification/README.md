# aitxt_compressor

Compresses long text into a compact prompt: rule-based cleaning, in-sentence
compression (low-information words dropped, every sentence kept), TextRank
sentence selection, and an optional pass through a local Ollama model or an
OpenAI-compatible service, with a fallback when the model does not shorten
the text by at least 5 %.

## Layout

- `src/` — the verified library (Verus).
  - `text.rs`: character-sequence model of strings (search, replace, trim,
    sorting) and its lemmas.
  - `ext.rs`: the trusted calls into `regex`, `jieba-rs` and std's Unicode
    classification, each with its contract.
  - `algo/`: cleaning rules, sentence splitting, in-sentence compression,
    greedy selection along a ranking, and the staged compression.
  - `model/`: the reasoning-tag parser, the repetition detectors, line and
    server-sent-event framing, the raw responses kept in the log (cut at a
    character boundary), and the per-chunk decisions of streamed Ollama and
    OpenAI-compatible answers.
  - `pipeline.rs`: targets, the run of the pipeline as a state machine (the
    algorithmic stage, the 5 % rule and the fallback pass), service and
    endpoint choice.
  - `prompt.rs`, `errors.rs`, `server.rs`, `scoring/`: prompts, error codes,
    request checks and model-pull events, information loss and fact
    retention.
- `app/` — the program around the library: command line, HTTP service, HTTP
  clients, logging, and the floating-point parts (TextRank scores, ratios,
  embedding similarity, total score).
- `tests/` — tests of the library on concrete values.

Each module states its laws as public proof functions (`law_*`), next to the
functions they speak of.
