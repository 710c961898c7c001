//! In-sentence compression: drop low-information words, keep the
//! subject-verb-object skeleton and never drop the sentence itself.
//!
//! Without part-of-speech tags, words are judged by the stopword list and a
//! list of modifiers.
use vstd::prelude::*;

use crate::algo::stopwords::{in_word_list, stopwords};
use crate::ext::{jieba_cut_of, Segmenter};
use crate::text::{
    concat, from_chars, is_ws, lemma_concat_push, lemma_replace_keeps, lemma_replace_shrinks,
    lemma_trim_keeps, lemma_trim_shrinks, replace_all, to_chars, trim, trim_exec,
};

verus! {

/// Modifiers that can be dropped without losing the skeleton: degree
/// adverbs, loose time adverbs, redundant "very X" forms, demonstratives,
/// empty verbs and modal particles.
pub open spec fn modifiers() -> Seq<Seq<char>> {
    seq!["非常"@, "十分"@, "极其"@, "相当"@, "格外"@, "尤为"@, "甚为"@, "极为"@, "特别"@, "尤其"@, "最"@, "更"@, "越"@, "太"@, "刚刚"@, "刚才"@, "突然"@, "忽然"@, "慢慢地"@, "渐渐地"@, "逐渐"@, "很大"@, "很小"@, "很高"@, "很低"@, "很多"@, "很少"@, "很快"@, "很慢"@, "很大程度"@, "很大程度上"@, "那个"@, "这个"@, "这种"@, "那种"@, "这样"@, "那样"@, "加以"@, "予以"@, "吧"@, "呢"@, "啊"@, "哦"@, "呀"@, "嘛"@, "嗯"@, "啦"@, "喽"@, "哎"@, "唉"@, "嗨"@, "喂"@]
}

fn modifier_table() -> (v: Vec<&'static str>)
    ensures
        v@.map_values(|w: &str| w@) == modifiers(),
{
    let v = vec!["非常", "十分", "极其", "相当", "格外", "尤为", "甚为", "极为", "特别", "尤其", "最", "更", "越", "太", "刚刚", "刚才", "突然", "忽然", "慢慢地", "渐渐地", "逐渐", "很大", "很小", "很高", "很低", "很多", "很少", "很快", "很慢", "很大程度", "很大程度上", "那个", "这个", "这种", "那种", "这样", "那样", "加以", "予以", "吧", "呢", "啊", "哦", "呀", "嘛", "嗯", "啦", "喽", "哎", "唉", "嗨", "喂"];
    assert(v@.map_values(|w: &str| w@) =~= modifiers());
    v
}

/// A word carries little information: blank, a stopword, or a modifier.
pub open spec fn is_low_info_spec(w: Seq<char>) -> bool {
    let t = trim(w);
    t.len() == 0 || stopwords().contains(t) || modifiers().contains(t)
}

/// The words that are kept.
pub open spec fn kept_words(ws: Seq<Seq<char>>) -> Seq<Seq<char>>
    decreases ws.len(),
{
    if ws.len() == 0 {
        ws
    } else {
        let r = kept_words(ws.drop_last());
        if is_low_info_spec(ws.last()) {
            r
        } else {
            r.push(ws.last())
        }
    }
}

/// Characters stripped from the start of a compressed sentence.
pub open spec fn is_clause_punct(c: char) -> bool {
    c == '，' || c == '。' || c == '！' || c == '？'
}

/// `s` without leading clause punctuation.
pub open spec fn strip_clause_punct(s: Seq<char>) -> Seq<char>
    decreases s.len(),
{
    if s.len() > 0 && is_clause_punct(s[0]) {
        strip_clause_punct(s.drop_first())
    } else {
        s
    }
}

/// Doubled spaces and punctuation left behind by deleted words, tidied.
pub open spec fn tidy(s: Seq<char>) -> Seq<char> {
    let a = replace_all(s, "  "@, " "@);
    let b = replace_all(a, " ，"@, "，"@);
    let c = replace_all(b, " 。"@, "。"@);
    let d = replace_all(c, "，，"@, "，"@);
    let e = replace_all(d, "。。"@, "。"@);
    let f = replace_all(e, "，。"@, "。"@);
    trim(strip_clause_punct(f))
}

/// The compressed sentence given its words: the kept words joined and
/// tidied; if nothing is left, the trimmed original.
pub open spec fn compress_words_spec(text: Seq<char>, words: Seq<Seq<char>>) -> Seq<char> {
    let cleaned = tidy(concat(kept_words(words)));
    if cleaned.len() == 0 {
        trim(text)
    } else {
        cleaned
    }
}

/// `r` is the sentence `text` compressed along a cut jieba gives for it.
pub open spec fn compressed_sentence(text: Seq<char>, r: Seq<char>) -> bool {
    exists|ws: Seq<Seq<char>>| #[trigger] jieba_cut_of(text, ws) && r == compress_words_spec(text, ws)
}

/// Whether a word carries little information.
fn is_low_info(word: &str) -> (b: bool)
    ensures
        b == is_low_info_spec(word@),
{
    let w = trim_exec(&to_chars(word));
    if w.len() == 0 {
        return true;
    }
    if in_word_list(&w, &crate::algo::stopwords::stopword_list()) {
        return true;
    }
    in_word_list(&w, &modifier_table())
}

fn strip_clause_punct_exec(s: &Vec<char>) -> (r: Vec<char>)
    ensures
        r@ == strip_clause_punct(s@),
{
    let mut start: usize = 0;
    assert(s@.skip(0) =~= s@);
    while start < s.len() && (s[start] == '，' || s[start] == '。' || s[start] == '！' || s[start]
        == '？')
        invariant
            start <= s.len(),
            strip_clause_punct(s@.skip(start as int)) == strip_clause_punct(s@),
        decreases s.len() - start,
    {
        assert(s@.skip(start as int).drop_first() =~= s@.skip(start + 1));
        start += 1;
    }
    let mut r: Vec<char> = Vec::new();
    let mut k = start;
    while k < s.len()
        invariant
            start <= k <= s.len(),
            r@ == s@.subrange(start as int, k as int),
        decreases s.len() - k,
    {
        r.push(s[k]);
        k += 1;
        assert(r@ =~= s@.subrange(start as int, k as int));
    }
    assert(r@ =~= s@.skip(start as int));
    r
}

fn tidy_exec(s: &Vec<char>) -> (r: Vec<char>)
    ensures
        r@ == tidy(s@),
{
    proof {
        reveal_strlit("  ");
        reveal_strlit(" ，");
        reveal_strlit(" 。");
        reveal_strlit("，，");
        reveal_strlit("。。");
        reveal_strlit("，。");
    }
    let a = crate::text::replace_str(s, "  ", " ");
    let b = crate::text::replace_str(&a, " ，", "，");
    let c = crate::text::replace_str(&b, " 。", "。");
    let d = crate::text::replace_str(&c, "，，", "，");
    let e = crate::text::replace_str(&d, "。。", "。");
    let f = crate::text::replace_str(&e, "，。", "。");
    trim_exec(&strip_clause_punct_exec(&f))
}

/// Compresses a sentence already cut into `words`: low-information words are
/// deleted, the rest joined and tidied; if nothing is left, the sentence is
/// kept (trimmed).
pub fn compress_words(text: &str, words: &Vec<String>) -> (r: String)
    ensures
        r@ == compress_words_spec(text@, words@.map_values(|w: String| w@)),
{
    let ghost ws = words@.map_values(|w: String| w@);
    let mut kept: Vec<char> = Vec::new();
    let mut i: usize = 0;
    assert(ws.take(0) =~= Seq::<Seq<char>>::empty());
    while i < words.len()
        invariant
            i <= words.len(),
            ws == words@.map_values(|w: String| w@),
            kept@ == concat(kept_words(ws.take(i as int))),
        decreases words.len() - i,
    {
        assert(ws.take(i + 1).drop_last() =~= ws.take(i as int));
        if !is_low_info(words[i].as_str()) {
            let w = to_chars(words[i].as_str());
            crate::text::append(&mut kept, &w);
            proof {
                crate::text::lemma_concat_push(kept_words(ws.take(i as int)), ws[i as int]);
            }
        }
        i += 1;
    }
    assert(ws.take(words.len() as int) =~= ws);
    let cleaned = tidy_exec(&kept);
    if cleaned.len() == 0 {
        from_chars(&trim_exec(&to_chars(text)))
    } else {
        from_chars(&cleaned)
    }
}

/// Compresses one sentence by deleting low-information words, cut as jieba
/// cuts it; the sentence is never deleted as a whole.
pub fn compress_sentence(seg: &Segmenter, text: &str) -> (r: String)
    ensures
        compressed_sentence(text@, r@),
{
    let words = seg.cut(text);
    let r = compress_words(text, &words);
    assert(jieba_cut_of(text@, words@.map_values(|w: String| w@)));
    r
}

/// In-sentence compression never drops a sentence: a sentence with any
/// non-blank character stays non-empty, whatever words it is cut into.
pub proof fn law_sentence_kept(text: Seq<char>, words: Seq<Seq<char>>)
    requires
        trim(text).len() > 0,
    ensures
        compress_words_spec(text, words).len() > 0,
{
}

proof fn lemma_kept_shrinks(ws: Seq<Seq<char>>)
    ensures
        concat(kept_words(ws)).len() <= concat(ws).len(),
    decreases ws.len(),
{
    if ws.len() > 0 {
        lemma_kept_shrinks(ws.drop_last());
        lemma_concat_push(ws.drop_last(), ws.last());
        assert(ws.drop_last().push(ws.last()) =~= ws);
        if !is_low_info_spec(ws.last()) {
            lemma_concat_push(kept_words(ws.drop_last()), ws.last());
        }
    }
}

proof fn lemma_strip_shrinks(s: Seq<char>)
    ensures
        strip_clause_punct(s).len() <= s.len(),
    decreases s.len(),
{
    if s.len() > 0 && is_clause_punct(s[0]) {
        lemma_strip_shrinks(s.drop_first());
    }
}

proof fn lemma_tidy_shrinks(s: Seq<char>)
    ensures
        tidy(s).len() <= s.len(),
{
    reveal_strlit("  ");
    reveal_strlit(" ");
    reveal_strlit(" ，");
    reveal_strlit("，");
    reveal_strlit(" 。");
    reveal_strlit("。");
    reveal_strlit("，，");
    reveal_strlit("。。");
    reveal_strlit("，。");
    let a = replace_all(s, "  "@, " "@);
    let b = replace_all(a, " ，"@, "，"@);
    let c = replace_all(b, " 。"@, "。"@);
    let d = replace_all(c, "，，"@, "，"@);
    let e = replace_all(d, "。。"@, "。"@);
    let f = replace_all(e, "，。"@, "。"@);
    lemma_replace_shrinks(s, "  "@, " "@);
    lemma_replace_shrinks(a, " ，"@, "，"@);
    lemma_replace_shrinks(b, " 。"@, "。"@);
    lemma_replace_shrinks(c, "，，"@, "，"@);
    lemma_replace_shrinks(d, "。。"@, "。"@);
    lemma_replace_shrinks(e, "，。"@, "。"@);
    lemma_strip_shrinks(f);
    lemma_trim_shrinks(strip_clause_punct(f));
}

/// In-sentence compression never lengthens a sentence cut into its words.
pub proof fn lemma_compress_shrinks(text: Seq<char>, words: Seq<Seq<char>>)
    requires
        concat(words) == text,
    ensures
        compress_words_spec(text, words).len() <= text.len(),
{
    lemma_kept_shrinks(words);
    lemma_tidy_shrinks(concat(kept_words(words)));
    lemma_trim_shrinks(text);
}

proof fn lemma_kept_strict(ws: Seq<Seq<char>>, k: int)
    requires
        0 <= k < ws.len(),
        is_low_info_spec(ws[k]),
    ensures
        concat(kept_words(ws)).len() + ws[k].len() <= concat(ws).len(),
    decreases ws.len(),
{
    let p = ws.drop_last();
    lemma_concat_push(p, ws.last());
    assert(p.push(ws.last()) =~= ws);
    if k == ws.len() - 1 {
        lemma_kept_shrinks(p);
    } else {
        assert(p[k] == ws[k]);
        lemma_kept_strict(p, k);
        if !is_low_info_spec(ws.last()) {
            lemma_concat_push(kept_words(p), ws.last());
        }
    }
}

proof fn lemma_kept_contains(ws: Seq<Seq<char>>, m: int, q: int)
    requires
        0 <= m < ws.len(),
        !is_low_info_spec(ws[m]),
        0 <= q < ws[m].len(),
    ensures
        concat(kept_words(ws)).contains(ws[m][q]),
    decreases ws.len(),
{
    let p = ws.drop_last();
    let c = ws[m][q];
    if m == ws.len() - 1 {
        lemma_concat_push(kept_words(p), ws.last());
        let k = concat(kept_words(p));
        assert((k + ws.last())[k.len() + q] == c);
    } else {
        assert(p[m] == ws[m]);
        lemma_kept_contains(p, m, q);
        if !is_low_info_spec(ws.last()) {
            lemma_concat_push(kept_words(p), ws.last());
            let k = concat(kept_words(p));
            let w = choose|w: int| 0 <= w < k.len() && k[w] == c;
            assert((k + ws.last())[w] == c);
        }
    }
}

proof fn lemma_strip_keeps(s: Seq<char>, c: char)
    requires
        s.contains(c),
        !is_clause_punct(c),
    ensures
        strip_clause_punct(s).contains(c),
    decreases s.len(),
{
    if s.len() > 0 && is_clause_punct(s[0]) {
        let w = choose|w: int| 0 <= w < s.len() && s[w] == c;
        assert(w > 0);
        assert(s.drop_first()[w - 1] == c);
        lemma_strip_keeps(s.drop_first(), c);
    }
}

proof fn lemma_tidy_keeps(s: Seq<char>, c: char)
    requires
        s.contains(c),
        !is_ws(c),
        !is_clause_punct(c),
    ensures
        tidy(s).contains(c),
{
    reveal_strlit("  ");
    reveal_strlit(" ，");
    reveal_strlit(" 。");
    reveal_strlit("，，");
    reveal_strlit("。。");
    reveal_strlit("，。");
    assert(is_ws(' '));
    let a = replace_all(s, "  "@, " "@);
    let b = replace_all(a, " ，"@, "，"@);
    let c2 = replace_all(b, " 。"@, "。"@);
    let d = replace_all(c2, "，，"@, "，"@);
    let e = replace_all(d, "。。"@, "。"@);
    let f = replace_all(e, "，。"@, "。"@);
    lemma_replace_keeps(s, "  "@, " "@, c);
    lemma_replace_keeps(a, " ，"@, "，"@, c);
    lemma_replace_keeps(b, " 。"@, "。"@, c);
    lemma_replace_keeps(c2, "，，"@, "，"@, c);
    lemma_replace_keeps(d, "。。"@, "。"@, c);
    lemma_replace_keeps(e, "，。"@, "。"@, c);
    lemma_strip_keeps(f, c);
    lemma_trim_keeps(strip_clause_punct(f), c);
}

/// In-sentence compression law: a sentence cut into words drops its
/// low-information words. If one word is low-information (blank, a stopword
/// or a modifier) and another is kept and holds a character that is neither
/// whitespace nor leading clause punctuation, the compressed sentence is
/// strictly shorter than the sentence, by at least that dropped word.
pub proof fn law_low_info_word_dropped(
    text: Seq<char>,
    words: Seq<Seq<char>>,
    k: int,
    m: int,
    q: int,
)
    requires
        concat(words) == text,
        0 <= k < words.len(),
        is_low_info_spec(words[k]),
        0 <= m < words.len(),
        !is_low_info_spec(words[m]),
        0 <= q < words[m].len(),
        !is_ws(words[m][q]),
        !is_clause_punct(words[m][q]),
    ensures
        compress_words_spec(text, words).len() + words[k].len() <= text.len(),
        compress_words_spec(text, words).len() > 0,
{
    let kept = concat(kept_words(words));
    lemma_kept_strict(words, k);
    lemma_kept_contains(words, m, q);
    lemma_tidy_keeps(kept, words[m][q]);
    lemma_tidy_shrinks(kept);
}

} // verus!
