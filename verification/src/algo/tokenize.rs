//! Sentence splitting and word segmentation.
use vstd::prelude::*;

use crate::ext::{jieba_cut_of, Segmenter};
use crate::text::{concat, from_chars, lemma_concat_push, lemma_trim_shrinks, to_chars, trim, trim_exec};

verus! {

/// A sentence cut from the text, with its words.
pub struct Sentence {
    pub text: String,
    pub words: Vec<String>,
}

/// A sentence's words as plain values.
pub open spec fn words_view(s: Sentence) -> Seq<Seq<char>> {
    s.words@.map_values(|w: String| w@)
}

/// Characters that end a sentence (kept with it).
pub open spec fn is_sentence_end(c: char) -> bool {
    c == '。' || c == '！' || c == '？' || c == '；' || c == '.' || c == '!' || c == '?' || c
        == ';' || c == '\n'
}

/// Adds a piece, trimmed, unless it is blank.
pub open spec fn push_trimmed(ps: Seq<Seq<char>>, p: Seq<char>) -> Seq<Seq<char>> {
    if trim(p).len() > 0 {
        ps.push(trim(p))
    } else {
        ps
    }
}

/// Pieces finished so far and the piece being read, after reading `s`.
pub open spec fn split_state(s: Seq<char>) -> (Seq<Seq<char>>, Seq<char>)
    decreases s.len(),
{
    if s.len() == 0 {
        (Seq::empty(), Seq::empty())
    } else {
        let (ps, cur) = split_state(s.drop_last());
        let c = s.last();
        if is_sentence_end(c) {
            (push_trimmed(ps, cur.push(c)), Seq::empty())
        } else {
            (ps, cur.push(c))
        }
    }
}

/// The trimmed, non-blank sentences of `s`, each ending at its end mark.
pub open spec fn sentence_texts(s: Seq<char>) -> Seq<Seq<char>> {
    push_trimmed(split_state(s).0, split_state(s).1)
}

/// The words that are not blank.
pub open spec fn nonblank(ws: Seq<Seq<char>>) -> Seq<Seq<char>>
    decreases ws.len(),
{
    if ws.len() == 0 {
        ws
    } else {
        let r = nonblank(ws.drop_last());
        if trim(ws.last()).len() > 0 {
            r.push(ws.last())
        } else {
            r
        }
    }
}

/// `words` are the non-blank words of a cut jieba gives for `t`.
pub open spec fn words_of_text(t: Seq<char>, words: Seq<Seq<char>>) -> bool {
    exists|ws: Seq<Seq<char>>| #[trigger] jieba_cut_of(t, ws) && words == nonblank(ws)
}

/// `x` is the sentence `t`, with the non-blank words of a cut jieba gives for it.
pub open spec fn sentence_ok(x: Sentence, t: Seq<char>) -> bool {
    x.text@ == t && words_of_text(t, words_view(x))
}

/// `v` holds the sentences `ts`, in order.
pub open spec fn sentences_ok(v: Seq<Sentence>, ts: Seq<Seq<char>>) -> bool {
    &&& v.len() == ts.len()
    &&& forall|i: int| 0 <= i < v.len() ==> sentence_ok(#[trigger] v[i], ts[i])
}

/// `v` holds the sentences of `s`, in order, each with its words.
pub open spec fn split_ok(v: Seq<Sentence>, s: Seq<char>) -> bool {
    sentences_ok(v, sentence_texts(s))
}

fn is_sentence_end_exec(c: char) -> (b: bool)
    ensures
        b == is_sentence_end(c),
{
    c == '。' || c == '！' || c == '？' || c == '；' || c == '.' || c == '!' || c == '?' || c
        == ';' || c == '\n'
}

/// The words that are not blank, in order.
pub fn nonblank_words(ws: Vec<String>) -> (r: Vec<String>)
    ensures
        r@.map_values(|w: String| w@) == nonblank(ws@.map_values(|w: String| w@)),
{
    let ghost all = ws@.map_values(|w: String| w@);
    let mut r: Vec<String> = Vec::new();
    let mut i: usize = 0;
    assert(all.take(0) =~= Seq::<Seq<char>>::empty());
    while i < ws.len()
        invariant
            i <= ws.len(),
            all == ws@.map_values(|w: String| w@),
            r@.map_values(|w: String| w@) == nonblank(all.take(i as int)),
        decreases ws.len() - i,
    {
        let w = to_chars(ws[i].as_str());
        let t = trim_exec(&w);
        assert(all.take(i + 1).drop_last() =~= all.take(i as int));
        if t.len() > 0 {
            r.push(ws[i].clone());
            assert(r@.map_values(|w: String| w@) =~= nonblank(all.take(i as int)).push(all[i as int]));
        }
        i += 1;
    }
    assert(all.take(ws.len() as int) =~= all);
    r
}

/// Adds the sentence `raw` (trimmed, with its words) unless it is blank.
fn push_sentence(out: &mut Vec<Sentence>, seg: &Segmenter, raw: &Vec<char>)
    ensures
        trim(raw@).len() > 0 ==> final(out)@ == old(out)@.push(final(out)@.last()) && sentence_ok(
            final(out)@.last(),
            trim(raw@),
        ),
        trim(raw@).len() == 0 ==> final(out)@ == old(out)@,
{
    let trimmed = trim_exec(raw);
    if trimmed.len() == 0 {
        return ;
    }
    let text = from_chars(&trimmed);
    let cut = seg.cut(text.as_str());
    let ghost ws = cut@.map_values(|w: String| w@);
    let words = nonblank_words(cut);
    let x = Sentence { text, words };
    assert(jieba_cut_of(trim(raw@), ws));
    assert(sentence_ok(x, trim(raw@)));
    out.push(x);
}

proof fn lemma_sentences_push(v: Seq<Sentence>, ts: Seq<Seq<char>>, x: Sentence, t: Seq<char>)
    requires
        sentences_ok(v, ts),
        sentence_ok(x, t),
    ensures
        sentences_ok(v.push(x), ts.push(t)),
{
    assert forall|i: int| 0 <= i < v.push(x).len() implies sentence_ok(
        #[trigger] v.push(x)[i],
        ts.push(t)[i],
    ) by {
        if i < v.len() {
            assert(v.push(x)[i] == v[i]);
        }
    }
}

/// Adds `raw` to the sentences read so far, as `push_trimmed` does to their texts.
fn push_piece(out: &mut Vec<Sentence>, seg: &Segmenter, raw: &Vec<char>, Ghost(ps): Ghost<Seq<Seq<char>>>)
    requires
        sentences_ok(old(out)@, ps),
    ensures
        sentences_ok(final(out)@, push_trimmed(ps, raw@)),
{
    let ghost before = out@;
    push_sentence(out, seg, raw);
    proof {
        if trim(raw@).len() > 0 {
            lemma_sentences_push(before, ps, out@.last(), trim(raw@));
        }
    }
}

/// Splits a text at sentence ends (Chinese and English end marks and line
/// breaks); each sentence is trimmed, blank ones are dropped, and each comes
/// with the non-blank words jieba cuts it into.
pub fn split_sentences(seg: &Segmenter, text: &str) -> (r: Vec<Sentence>)
    ensures
        split_ok(r@, text@),
{
    let chars = to_chars(text);
    let mut sentences: Vec<Sentence> = Vec::new();
    let mut current: Vec<char> = Vec::new();
    let mut i: usize = 0;
    assert(chars@.take(0) =~= Seq::<char>::empty());
    while i < chars.len()
        invariant
            i <= chars.len(),
            chars@ == text@,
            sentences_ok(sentences@, split_state(chars@.take(i as int)).0),
            current@ == split_state(chars@.take(i as int)).1,
        decreases chars.len() - i,
    {
        let ch = chars[i];
        assert(chars@.take(i + 1).drop_last() =~= chars@.take(i as int));
        current.push(ch);
        if is_sentence_end_exec(ch) {
            push_piece(&mut sentences, seg, &current, Ghost(split_state(chars@.take(i as int)).0));
            current = Vec::new();
        }
        i += 1;
    }
    assert(chars@.take(chars.len() as int) =~= chars@);
    push_piece(&mut sentences, seg, &current, Ghost(split_state(chars@).0));
    sentences
}

proof fn lemma_push_trimmed_len(ps: Seq<Seq<char>>, p: Seq<char>)
    ensures
        concat(push_trimmed(ps, p)).len() <= concat(ps).len() + p.len(),
{
    if trim(p).len() > 0 {
        lemma_concat_push(ps, trim(p));
        lemma_trim_shrinks(p);
    }
}

proof fn lemma_split_state_len(s: Seq<char>)
    ensures
        concat(split_state(s).0).len() + split_state(s).1.len() <= s.len(),
    decreases s.len(),
{
    if s.len() > 0 {
        lemma_split_state_len(s.drop_last());
        let (ps, cur) = split_state(s.drop_last());
        lemma_push_trimmed_len(ps, cur.push(s.last()));
    }
}

/// The sentences of a text, put together, are no longer than the text.
pub proof fn lemma_sentence_texts_len(s: Seq<char>)
    ensures
        concat(sentence_texts(s)).len() <= s.len(),
{
    lemma_split_state_len(s);
    lemma_push_trimmed_len(split_state(s).0, split_state(s).1);
}

} // verus!
