//! Chinese stopword list: function words, pronouns and particles that carry
//! little content on their own.
use vstd::prelude::*;

use crate::text::to_chars;

verus! {

/// The stopwords.
pub open spec fn stopwords() -> Seq<Seq<char>> {
    seq!["的"@, "了"@, "是"@, "在"@, "和"@, "与"@, "及"@, "也"@, "就"@, "都"@, "而"@, "又"@, "并"@, "或"@, "着"@, "过"@, "把"@, "被"@, "让"@, "给"@, "对"@, "从"@, "向"@, "于"@, "以"@, "为"@, "之"@, "其"@, "该"@, "此"@, "这"@, "那"@, "这些"@, "那些"@, "一个"@, "一些"@, "我们"@, "你们"@, "他们"@, "她们"@, "它们"@, "我"@, "你"@, "他"@, "她"@, "它"@, "自己"@, "什么"@, "怎么"@, "如何"@, "还"@, "等"@, "等等"@, "之类"@, "以及"@, "或者"@, "并且"@, "而且"@, "但"@, "则"@, "即"@, "地"@, "得"@, "个"@]
}

/// The stopwords, as a list.
pub fn stopword_list() -> (v: Vec<&'static str>)
    ensures
        v@.map_values(|w: &str| w@) == stopwords(),
{
    let v = vec!["的", "了", "是", "在", "和", "与", "及", "也", "就", "都", "而", "又", "并", "或", "着", "过", "把", "被", "让", "给", "对", "从", "向", "于", "以", "为", "之", "其", "该", "此", "这", "那", "这些", "那些", "一个", "一些", "我们", "你们", "他们", "她们", "它们", "我", "你", "他", "她", "它", "自己", "什么", "怎么", "如何", "还", "等", "等等", "之类", "以及", "或者", "并且", "而且", "但", "则", "即", "地", "得", "个"];
    assert(v@.map_values(|w: &str| w@) =~= stopwords());
    v
}

/// Whether `w` is one of the words of `list`.
pub fn in_word_list(w: &Vec<char>, list: &Vec<&'static str>) -> (b: bool)
    ensures
        b == list@.map_values(|x: &str| x@).contains(w@),
{
    let ghost l = list@.map_values(|x: &str| x@);
    let mut i: usize = 0;
    while i < list.len()
        invariant
            i <= list.len(),
            l == list@.map_values(|x: &str| x@),
            forall|k: int| 0 <= k < i ==> l[k] != w@,
        decreases list.len() - i,
    {
        let cand = to_chars(list[i]);
        if crate::text::seq_eq(&cand, w) {
            assert(l[i as int] == w@);
            return true;
        }
        i += 1;
    }
    proof {
        if l.contains(w@) {
            let k = choose|k: int| 0 <= k < l.len() && l[k] == w@;
            assert(l[k] != w@);
        }
    }
    false
}

/// Whether `w` is a stopword.
pub fn is_stopword(w: &str) -> (b: bool)
    ensures
        b == stopwords().contains(w@),
{
    in_word_list(&to_chars(w), &stopword_list())
}

} // verus!
