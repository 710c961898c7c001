use aitxt_compressor::algo::sentence_compress::compress_sentence;
use aitxt_compressor::algo::stopwords::is_stopword;
use aitxt_compressor::algo::textrank::select;
use aitxt_compressor::algo::tokenize::{split_sentences, Sentence};
use aitxt_compressor::algo::{compress, compress_with_stages};
use aitxt_compressor::ext::Segmenter;

fn identity_rank(s: &Vec<Sentence>) -> Vec<usize> {
    (0..s.len()).collect()
}

fn sentence(text: &str) -> Sentence {
    Sentence { text: text.to_string(), words: vec![text.to_string()] }
}

#[test]
fn stopwords() {
    assert!(is_stopword("的"));
    assert!(is_stopword("我们"));
    assert!(!is_stopword("压缩"));
}

#[test]
fn sentences_are_cut_at_end_marks() {
    let seg = Segmenter::new();
    let v = split_sentences(&seg, "今天下雨。明天晴天！ Done? 最后一句");
    let texts: Vec<&str> = v.iter().map(|s| s.text.as_str()).collect();
    assert_eq!(texts, vec!["今天下雨。", "明天晴天！", "Done?", "最后一句"]);
    for s in &v {
        assert!(!s.words.is_empty());
        assert_eq!(s.words.concat(), s.text);
    }
}

#[test]
fn blank_sentences_are_dropped() {
    let seg = Segmenter::new();
    assert!(split_sentences(&seg, " 。 \n ").len() == 1);
    assert!(split_sentences(&seg, "  \n  ").is_empty());
}

#[test]
fn sentence_compression_never_empties() {
    let seg = Segmenter::new();
    let out = compress_sentence(&seg, " 的 ");
    assert_eq!(out, "的");
    let out = compress_sentence(&seg, "我们非常认真地测试了这个压缩系统。");
    assert!(!out.is_empty());
    assert!(out.chars().count() <= "我们非常认真地测试了这个压缩系统。".chars().count());
    assert!(out.contains("压缩"));
}

#[test]
fn selection_keeps_original_order() {
    let s = vec![sentence("甲甲甲。"), sentence("乙乙。"), sentence("丙丙丙丙。")];
    assert_eq!(select(&s, &vec![1, 0, 2], 7), "甲甲甲。乙乙。");
    assert_eq!(select(&s, &vec![2, 1, 0], 5), "丙丙丙丙。");
    assert_eq!(select(&s, &vec![2, 1, 0], 3), "丙丙丙丙。");
    assert_eq!(select(&s, &vec![1, 2, 0], 3), "乙乙。");
}

#[test]
fn selection_never_empty() {
    let s = vec![sentence("很长的句子一。"), sentence("很长的句子二。")];
    assert_eq!(select(&s, &vec![1, 0], 1), "很长的句子二。");
    assert_eq!(select(&vec![sentence("唯一")], &vec![0], 0), "唯一");
    assert_eq!(select(&Vec::new(), &Vec::new(), 10), "");
}

#[test]
fn selection_stays_within_target() {
    let s = vec![sentence("一二三四五六七八九。"), sentence("甲乙。"), sentence("丙。")];
    assert_eq!(select(&s, &vec![0, 1, 2], 5), "一二三四五六七八九。");
    assert_eq!(select(&s, &vec![1, 0, 2], 5), "甲乙。丙。");
}

#[test]
fn cleaning_alone_can_meet_the_target() {
    let seg = Segmenter::new();
    let r = compress_with_stages(&seg, "# 标题\n大约10公里", 100, identity_rank);
    assert_eq!(r.text, "标题 约10km");
    assert!(!r.used_textrank);
    assert_eq!(r.after_rules, 8);
    assert_eq!(r.after_sentence_compress, 8);
    assert_eq!(r.after_textrank, 8);
}

#[test]
fn ranking_is_used_when_needed() {
    let seg = Segmenter::new();
    let text = "北京是中国的首都。上海是中国最大的城市。广州是南方的重要城市。深圳是科技之城。";
    let r = compress_with_stages(&seg, text, 5, identity_rank);
    assert!(r.used_textrank);
    assert!(r.after_textrank <= r.after_sentence_compress);
    assert!(!r.text.is_empty());
    assert_eq!(compress(&seg, text, 5, identity_rank), r.text);
}

use aitxt_compressor::algo::rules::{apply_synonyms, remove_fillers, replace_units};
use aitxt_compressor::algo::sentence_compress::compress_words;
use aitxt_compressor::algo::tokenize::nonblank_words;

fn words(ws: &[&str]) -> Vec<String> {
    ws.iter().map(|w| w.to_string()).collect()
}

#[test]
fn rule_tables() {
    assert_eq!(replace_units("时速100公里每小时，重5千克"), "时速100km/h，重5kg");
    assert_eq!(apply_synonyms("但是因为这个原因"), "但因此原因");
    assert_eq!(remove_fillers("综上所述，其实很好"), "，很好");
}

#[test]
fn compress_words_drops_low_information_words() {
    let w = words(&["我们", "非常", "认真", "地", "测试", "了", "这个", "系统", "。"]);
    assert_eq!(compress_words("我们非常认真地测试了这个系统。", &w), "认真测试系统。");
    let w = words(&["的", "了"]);
    assert_eq!(compress_words(" 的了 ", &w), "的了");
}

#[test]
fn compress_words_tidies_punctuation() {
    let w = words(&["，", "好", " ", " ", "，", "。"]);
    assert_eq!(compress_words("，好  ，。", &w), "好。");
}

#[test]
fn blank_words_are_dropped() {
    assert_eq!(nonblank_words(words(&["a", " ", "", "b"])), words(&["a", "b"]));
}

#[test]
fn jieba_cuts_into_several_words() {
    let seg = Segmenter::new();
    let v = split_sentences(&seg, "我们测试压缩系统");
    assert_eq!(v.len(), 1);
    assert!(v[0].words.len() > 1);
    assert_eq!(v[0].words.concat(), "我们测试压缩系统");
}

#[test]
fn stage_lengths_never_grow() {
    let seg = Segmenter::new();
    let text = "众所周知，这个系统非常复杂。我们需要进行分析。然后我们开始进行研究。最后得出结论。";
    for target in [1usize, 5, 10, 20, 100] {
        let r = compress_with_stages(&seg, text, target, identity_rank);
        assert!(r.after_textrank <= r.after_sentence_compress);
        assert!(r.after_sentence_compress <= r.after_rules);
        assert_eq!(r.after_textrank, r.text.chars().count());
        if !r.used_textrank {
            assert!(r.text.chars().count() <= target);
        }
    }
}
