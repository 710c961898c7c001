//! Algorithm layer: progressive compression.
//!
//! Stage 1: rule-based cleaning (Markdown, fillers, synonyms, units)
//! Stage 2: in-sentence compression (drop low-information words, keep every sentence)
//! Stage 3: TextRank selection (drop whole sentences, only if still too long)
pub mod rules;
pub mod stopwords;
pub mod tokenize;
pub mod sentence_compress;
pub mod textrank;

use vstd::prelude::*;

use crate::algo::rules::rules_apply;
use crate::algo::sentence_compress::{
    compress_sentence, compress_words_spec, is_clause_punct, is_low_info_spec, law_low_info_word_dropped,
    lemma_compress_shrinks,
};
use crate::algo::textrank::{is_permutation, lemma_select_shrinks, select, select_spec};
use crate::algo::tokenize::{lemma_sentence_texts_len, sentence_texts, split_ok, split_sentences, Sentence};
use crate::ext::{jieba_cut_of, Segmenter};
use crate::text::{concat, from_chars, is_ws, lemma_concat_le, lemma_concat_push, to_chars};

verus! {

/// Result of the progressive compression, with the length after each stage.
pub struct CompressStage {
    pub text: String,
    pub after_rules: usize,
    pub after_sentence_compress: usize,
    pub after_textrank: usize,
    pub used_textrank: bool,
}

/// The plain content of a stage result.
pub open spec fn stage_view(s: CompressStage) -> (Seq<char>, nat, nat, nat, bool) {
    (
        s.text@,
        s.after_rules as nat,
        s.after_sentence_compress as nat,
        s.after_textrank as nat,
        s.used_textrank,
    )
}

/// The text after rule cleaning.
pub open spec fn stage1(text: Seq<char>) -> Seq<char> {
    rules_apply(text)
}

/// One word list per sentence, each a cut jieba gives for its sentence.
pub open spec fn segs_ok(texts: Seq<Seq<char>>, segs: Seq<Seq<Seq<char>>>) -> bool {
    &&& segs.len() == texts.len()
    &&& forall|i: int| 0 <= i < texts.len() ==> #[trigger] jieba_cut_of(texts[i], segs[i])
}

/// Each sentence compressed along its word list.
pub open spec fn compress_all(texts: Seq<Seq<char>>, segs: Seq<Seq<Seq<char>>>) -> Seq<Seq<char>> {
    Seq::new(texts.len(), |i: int| compress_words_spec(texts[i], segs[i]))
}

/// The text after in-sentence compression of the cleaned text, its
/// sentences cut into words as `segs` says.
pub open spec fn stage2(text: Seq<char>, segs: Seq<Seq<Seq<char>>>) -> Seq<char> {
    concat(compress_all(sentence_texts(stage1(text)), segs))
}

/// Whether the TextRank stage is reached: neither earlier stage met the target.
pub open spec fn needs_ranking(text: Seq<char>, target: nat, segs: Seq<Seq<Seq<char>>>) -> bool {
    stage1(text).len() > target && stage2(text, segs).len() > target
}

/// The stages' outcome, given the cuts of the sentences in the second stage and
/// the ranking used in the last one.
pub open spec fn stages_spec(
    text: Seq<char>,
    target: nat,
    segs: Seq<Seq<Seq<char>>>,
    order: Seq<usize>,
) -> (Seq<char>, nat, nat, nat, bool) {
    let s1 = stage1(text);
    let s2 = stage2(text, segs);
    if s1.len() <= target {
        (s1, s1.len(), s1.len(), s1.len(), false)
    } else if s2.len() <= target {
        (s2, s1.len(), s2.len(), s2.len(), false)
    } else {
        let sel = select_spec(sentence_texts(s2), order, target);
        if sel.len() == 0 {
            (s2, s1.len(), s2.len(), s2.len(), true)
        } else {
            (sel, s1.len(), s2.len(), sel.len(), true)
        }
    }
}

/// What the stages give for one cut of the cleaned sentences: if an earlier
/// stage meets the target, its outcome; otherwise `rank` was called on the
/// sentences of the stage-2 text (each with the words jieba cut it into) and
/// the order it returned decided the selection.
pub open spec fn stages_outcome<F: Fn(&Vec<Sentence>) -> Vec<usize>>(
    rank: F,
    text: Seq<char>,
    target: nat,
    segs: Seq<Seq<Seq<char>>>,
    out: (Seq<char>, nat, nat, nat, bool),
) -> bool {
    if needs_ranking(text, target, segs) {
        exists|s: Vec<Sentence>, o: Vec<usize>|
            #[trigger] rank.ensures((&s,), o) && split_ok(s@, stage2(text, segs)) && out
                == stages_spec(text, target, segs, o@)
    } else {
        out == stages_spec(text, target, segs, Seq::empty())
    }
}

/// The outcome of the stages on `text`: the cleaned text if it meets the
/// target; otherwise that of the cuts jieba gave for its cleaned sentences.
pub open spec fn compressed_by<F: Fn(&Vec<Sentence>) -> Vec<usize>>(
    rank: F,
    text: Seq<char>,
    target: nat,
    out: (Seq<char>, nat, nat, nat, bool),
) -> bool {
    let s1 = stage1(text);
    if s1.len() <= target {
        out == (s1, s1.len(), s1.len(), s1.len(), false)
    } else {
        exists|segs: Seq<Seq<Seq<char>>>|
            #[trigger] segs_ok(sentence_texts(s1), segs) && stages_outcome(
                rank,
                text,
                target,
                segs,
                out,
            )
    }
}

/// Progressive compression with per-stage lengths. `rank` orders sentence
/// indices by falling TextRank score; it is consulted only if rule cleaning
/// and in-sentence compression both leave the text over `target_chars`.
pub fn compress_with_stages<F: Fn(&Vec<Sentence>) -> Vec<usize>>(
    seg: &Segmenter,
    text: &str,
    target_chars: usize,
    rank: F,
) -> (r: CompressStage)
    requires
        forall|s: &Vec<Sentence>| #[trigger] rank.requires((s,)),
        forall|s: &Vec<Sentence>, o: Vec<usize>|
            #[trigger] rank.ensures((s,), o) ==> is_permutation(o@, s.len() as nat),
    ensures
        compressed_by(rank, text@, target_chars as nat, stage_view(r)),
{
    // stage 1: rule cleaning
    let s1 = crate::algo::rules::apply(text);
    let s1_chars = to_chars(s1.as_str()).len();
    if s1_chars <= target_chars {
        return CompressStage {
            text: s1,
            after_rules: s1_chars,
            after_sentence_compress: s1_chars,
            after_textrank: s1_chars,
            used_textrank: false,
        };
    }
    // stage 2: in-sentence compression
    let sentences = split_sentences(seg, s1.as_str());
    let ghost texts1 = sentence_texts(s1@);
    let ghost mut segs: Seq<Seq<Seq<char>>> = Seq::empty();
    let mut s2v: Vec<char> = Vec::new();
    let mut i: usize = 0;
    assert(compress_all(texts1.take(0), segs) =~= Seq::<Seq<char>>::empty());
    while i < sentences.len()
        invariant
            i <= sentences.len(),
            split_ok(sentences@, s1@),
            texts1 == sentence_texts(s1@),
            segs_ok(texts1.take(i as int), segs),
            s2v@ == concat(compress_all(texts1.take(i as int), segs)),
        decreases sentences.len() - i,
    {
        let c = compress_sentence(seg, sentences[i].text.as_str());
        let cv = to_chars(c.as_str());
        crate::text::append(&mut s2v, &cv);
        proof {
            let t = texts1[i as int];
            assert(crate::algo::tokenize::sentence_ok(sentences@[i as int], t));
            let ws = choose|ws: Seq<Seq<char>>|
                #[trigger] jieba_cut_of(t, ws) && c@ == compress_words_spec(t, ws);
            let segs2 = segs.push(ws);
            assert(texts1.take(i + 1).drop_last() =~= texts1.take(i as int));
            assert forall|k: int| 0 <= k < texts1.take(i + 1).len() implies #[trigger] jieba_cut_of(
                texts1.take(i + 1)[k],
                segs2[k],
            ) by {
                if k < i {
                    assert(jieba_cut_of(texts1.take(i as int)[k], segs[k]));
                }
            }
            assert(compress_all(texts1.take(i + 1), segs2) =~= compress_all(
                texts1.take(i as int),
                segs,
            ).push(c@));
            lemma_concat_push(compress_all(texts1.take(i as int), segs), c@);
            segs = segs2;
        }
        i += 1;
    }
    assert(texts1.take(sentences.len() as int) =~= texts1);
    let s2 = from_chars(&s2v);
    let s2_chars = s2v.len();
    assert(s2@ == stage2(text@, segs));
    if s2_chars <= target_chars {
        let r = CompressStage {
            text: s2,
            after_rules: s1_chars,
            after_sentence_compress: s2_chars,
            after_textrank: s2_chars,
            used_textrank: false,
        };
        assert(stages_outcome(rank, text@, target_chars as nat, segs, stage_view(r)));
        return r;
    }
    // stage 3: TextRank selection
    let sentences2 = split_sentences(seg, s2.as_str());
    let order = rank(&sentences2);
    let selected = select(&sentences2, &order, target_chars);
    let n = to_chars(selected.as_str()).len();
    let r = if n == 0 {
        CompressStage {
            text: s2,
            after_rules: s1_chars,
            after_sentence_compress: s2_chars,
            after_textrank: s2_chars,
            used_textrank: true,
        }
    } else {
        CompressStage {
            text: selected,
            after_rules: s1_chars,
            after_sentence_compress: s2_chars,
            after_textrank: n,
            used_textrank: true,
        }
    };
    proof {
        lemma_texts_of_sentences(sentences2@, s2@);
        assert(stage_view(r) == stages_spec(text@, target_chars as nat, segs, order@));
        assert(stages_outcome(rank, text@, target_chars as nat, segs, stage_view(r)));
    }
    r
}

/// The texts of sentences that split a text are its sentence texts.
proof fn lemma_texts_of_sentences(v: Seq<Sentence>, s: Seq<char>)
    requires
        split_ok(v, s),
    ensures
        crate::algo::textrank::texts_of(v) == sentence_texts(s),
{
    assert forall|i: int| 0 <= i < v.len() implies crate::algo::textrank::texts_of(v)[i]
        == sentence_texts(s)[i] by {
        assert(crate::algo::tokenize::sentence_ok(v[i], sentence_texts(s)[i]));
    }
    assert(crate::algo::textrank::texts_of(v) =~= sentence_texts(s));
}

/// Progressive compression; returns only the final text.
pub fn compress<F: Fn(&Vec<Sentence>) -> Vec<usize>>(
    seg: &Segmenter,
    text: &str,
    target_chars: usize,
    rank: F,
) -> (r: String)
    requires
        forall|s: &Vec<Sentence>| #[trigger] rank.requires((s,)),
        forall|s: &Vec<Sentence>, o: Vec<usize>|
            #[trigger] rank.ensures((s,), o) ==> is_permutation(o@, s.len() as nat),
    ensures
        exists|out: (Seq<char>, nat, nat, nat, bool)|
            #[trigger] compressed_by(rank, text@, target_chars as nat, out) && r@ == out.0,
{
    let stage = compress_with_stages(seg, text, target_chars, rank);
    stage.text
}

/// Pipeline law: each stage stops the pipeline as soon as it meets the
/// target. Rule cleaning that meets it gives the cleaned text; otherwise
/// in-sentence compression that meets it gives its text; only then is
/// TextRank used, whatever the cuts and the ranking.
pub proof fn law_stages_stop_when_met(
    text: Seq<char>,
    target: nat,
    segs: Seq<Seq<Seq<char>>>,
    order: Seq<usize>,
)
    ensures
        stage1(text).len() <= target ==> stages_spec(text, target, segs, order).0 == stage1(text)
            && !stages_spec(text, target, segs, order).4,
        stage1(text).len() > target && stage2(text, segs).len() <= target ==> stages_spec(
            text,
            target,
            segs,
            order,
        ).0 == stage2(text, segs) && !stages_spec(text, target, segs, order).4,
        stages_spec(text, target, segs, order).4 <==> needs_ranking(text, target, segs),
{
}

/// Stage law: no stage lengthens the text. Whatever the cuts and the
/// ranking, the recorded lengths are those of the stages' texts and never
/// grow from one stage to the next, and a text that did not need TextRank
/// meets the target.
pub proof fn law_stages_never_grow(
    text: Seq<char>,
    target: nat,
    segs: Seq<Seq<Seq<char>>>,
    order: Seq<usize>,
)
    requires
        segs_ok(sentence_texts(stage1(text)), segs),
    ensures
        stages_spec(text, target, segs, order).1 == stage1(text).len(),
        stages_spec(text, target, segs, order).3 == stages_spec(text, target, segs, order).0.len(),
        stages_spec(text, target, segs, order).3 <= stages_spec(text, target, segs, order).2
            <= stages_spec(text, target, segs, order).1,
        !stages_spec(text, target, segs, order).4 ==> stages_spec(text, target, segs, order).0.len()
            <= target,
{
    let texts = sentence_texts(stage1(text));
    lemma_sentence_texts_len(stage1(text));
    let outs = compress_all(texts, segs);
    assert forall|i: int| 0 <= i < outs.len() implies #[trigger] outs[i].len() <= texts[i].len() by {
        assert(jieba_cut_of(texts[i], segs[i]));
        lemma_compress_shrinks(texts[i], segs[i]);
    }
    lemma_concat_le(outs, texts);
    let s2 = stage2(text, segs);
    lemma_select_shrinks(sentence_texts(s2), order, target);
    lemma_sentence_texts_len(s2);
}

proof fn lemma_concat_lt(a: Seq<Seq<char>>, b: Seq<Seq<char>>, i: int)
    requires
        a.len() == b.len(),
        forall|j: int| 0 <= j < a.len() ==> #[trigger] a[j].len() <= b[j].len(),
        0 <= i < a.len(),
        a[i].len() < b[i].len(),
    ensures
        concat(a).len() < concat(b).len(),
    decreases a.len(),
{
    if i == a.len() - 1 {
        lemma_concat_le(a.drop_last(), b.drop_last());
    } else {
        lemma_concat_lt(a.drop_last(), b.drop_last(), i);
    }
}

/// Stage-2 law: in-sentence compression drops the low-information words of
/// the cleaned sentences. If, in the cut of some cleaned sentence, one word
/// is low-information (blank, a stopword or a modifier) and another is kept
/// and holds a character that is neither whitespace nor leading clause
/// punctuation, the stage-2 text is strictly shorter than the cleaned text,
/// and so is the length recorded after in-sentence compression.
pub proof fn law_stage2_drops_low_info(
    text: Seq<char>,
    target: nat,
    segs: Seq<Seq<Seq<char>>>,
    order: Seq<usize>,
    i: int,
    k: int,
    m: int,
    q: int,
)
    requires
        segs_ok(sentence_texts(stage1(text)), segs),
        0 <= i < segs.len(),
        0 <= k < segs[i].len(),
        is_low_info_spec(segs[i][k]),
        0 <= m < segs[i].len(),
        !is_low_info_spec(segs[i][m]),
        0 <= q < segs[i][m].len(),
        !is_ws(segs[i][m][q]),
        !is_clause_punct(segs[i][m][q]),
    ensures
        stage2(text, segs).len() < stage1(text).len(),
        stage1(text).len() > target ==> stages_spec(text, target, segs, order).2 < stages_spec(
            text,
            target,
            segs,
            order,
        ).1,
{
    let texts = sentence_texts(stage1(text));
    lemma_sentence_texts_len(stage1(text));
    let outs = compress_all(texts, segs);
    assert forall|j: int| 0 <= j < outs.len() implies #[trigger] outs[j].len() <= texts[j].len() by {
        assert(jieba_cut_of(texts[j], segs[j]));
        lemma_compress_shrinks(texts[j], segs[j]);
    }
    assert(jieba_cut_of(texts[i], segs[i]));
    assert(segs[i][k].len() > 0);
    law_low_info_word_dropped(texts[i], segs[i], k, m, q);
    lemma_concat_lt(outs, texts, i);
}

} // verus!
