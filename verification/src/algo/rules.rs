//! Rule-based cleaning: Markdown symbols, broken lines, filler phrases and
//! synonyms, then punctuation and whitespace.
use vstd::prelude::*;

use crate::ext::{regex_replace, regex_replace_all};
use crate::text::{from_chars, is_ws, is_ws_exec, replace_all, replace_exec, to_chars, trim, trim_exec};

verus! {

/// One cleaning step: a regular-expression replacement (with `$n` groups) or a
/// literal replacement of every occurrence.
pub struct RuleStep {
    pub regex: bool,
    pub pattern: &'static str,
    pub replacement: &'static str,
}

/// The plain content of a step.
pub open spec fn step_view(s: RuleStep) -> (bool, Seq<char>, Seq<char>) {
    (s.regex, s.pattern@, s.replacement@)
}

/// One step applied to a text. A regular expression that does not compile
/// leaves the text as it is.
pub open spec fn apply_step(t: Seq<char>, step: (bool, Seq<char>, Seq<char>)) -> Seq<char> {
    if step.0 {
        match regex_replace_all(step.1, t, step.2) {
            Some(r) => r,
            None => t,
        }
    } else {
        replace_all(t, step.1, step.2)
    }
}

/// The steps applied in order.
pub open spec fn apply_steps(t: Seq<char>, steps: Seq<(bool, Seq<char>, Seq<char>)>) -> Seq<char>
    decreases steps.len(),
{
    if steps.len() == 0 {
        t
    } else {
        apply_step(apply_steps(t, steps.drop_last()), steps.last())
    }
}

/// The characters stripped from the start of the cleaned text.
pub open spec fn is_leading_punct(c: char) -> bool {
    c == '，' || c == '。' || c == '！' || c == '？' || c == '；' || c == ',' || c == '.' || c
        == '!' || c == '?' || c == ';' || c == ':'
}

/// `s` without leading punctuation.
pub open spec fn strip_leading_punct(s: Seq<char>) -> Seq<char>
    decreases s.len(),
{
    if s.len() > 0 && is_leading_punct(s[0]) {
        strip_leading_punct(s.drop_first())
    } else {
        s
    }
}

/// Punctuation that a deleted filler can leave at the start of a line.
pub open spec fn is_line_punct(c: char) -> bool {
    is_leading_punct(c) || c == '、'
}

/// Position `p` of `s` begins a line.
pub open spec fn line_start(s: Seq<char>, p: int) -> bool {
    p == 0 || s[p - 1] == '\n'
}

/// The first position at or after `q` that is not whitespace (or the end).
pub open spec fn ws_end(s: Seq<char>, q: int) -> int
    decreases s.len() - q,
{
    if 0 <= q < s.len() && is_ws(s[q]) {
        ws_end(s, q + 1)
    } else {
        q
    }
}

/// The end of the whitespace run lies between its start and the end.
pub proof fn lemma_ws_end_bounds(s: Seq<char>, q: int)
    requires
        0 <= q <= s.len(),
    ensures
        q <= ws_end(s, q) <= s.len(),
    decreases s.len() - q,
{
    if q < s.len() && is_ws(s[q]) {
        lemma_ws_end_bounds(s, q + 1);
    }
}

/// `s` from position `p` on, each line that begins with punctuation losing
/// that mark and the whitespace after it (positions are those of `s`, so a
/// line begins only after a line break of `s`).
pub open spec fn strip_lines_from(s: Seq<char>, p: int) -> Seq<char>
    decreases s.len() - p,
{
    if p < 0 || p >= s.len() {
        Seq::empty()
    } else if line_start(s, p) && is_line_punct(s[p]) {
        proof {
            lemma_ws_end_bounds(s, p + 1);
        }
        strip_lines_from(s, ws_end(s, p + 1))
    } else {
        seq![s[p]] + strip_lines_from(s, p + 1)
    }
}

/// `s` with the punctuation that begins a line (and the whitespace after it)
/// removed.
pub open spec fn strip_line_punct(s: Seq<char>) -> Seq<char> {
    strip_lines_from(s, 0)
}

/// The text after Markdown, units, adverbs, fillers and synonyms.
pub open spec fn words_cleaned(text: Seq<char>) -> Seq<char> {
    let t1 = apply_steps(text, markdown_steps());
    let t2 = apply_steps(apply_steps(t1, unit_steps()), adverb_steps());
    apply_steps(apply_steps(t2, filler_steps()), synonym_steps())
}

/// The rest of the cleaning: punctuation left at line starts removed, the
/// punctuation steps, trimmed, and without leading punctuation.
pub open spec fn finish_cleaning(t: Seq<char>) -> Seq<char> {
    let t4 = apply_steps(strip_line_punct(t), punctuation_steps());
    strip_leading_punct(trim(t4))
}

/// The cleaned text: every table of steps in order, punctuation left at line
/// starts removed, then trimmed, then without leading punctuation.
pub open spec fn rules_apply(text: Seq<char>) -> Seq<char> {
    finish_cleaning(words_cleaned(text))
}

/// Markdown symbols, arrows, broken lines, spaces before punctuation and percentages, in order.
pub open spec fn markdown_steps() -> Seq<(bool, Seq<char>, Seq<char>)> {
    seq![
        (true, "```[a-zA-Z]*\\r?\\n?"@, ""@),
        (false, "```"@, ""@),
        (true, "`([^`\\n]+)`"@, "$1"@),
        (true, "(?m)^#{1,6}\\s+"@, ""@),
        (true, "(?m)^---+\\s*$"@, ""@),
        (true, "(?m)^[*+\\-]\\s+"@, ""@),
        (true, "(?m)^>\\s?"@, ""@),
        (true, "\\*\\*([^*\\n]+)\\*\\*"@, "$1"@),
        (false, "\r\n↓\r\n"@, " → "@),
        (false, "\r\n↓\n"@, " → "@),
        (false, "\n↓\r\n"@, " → "@),
        (false, "\n↓\n"@, " → "@),
        (false, "↓"@, "→"@),
        (false, "：\r\n"@, ""@),
        (false, "：\n"@, ""@),
        (false, "。\r\n"@, "。"@),
        (false, "。\n"@, "。"@),
        (true, "\\s+([，。！？；,\\.!?;:、])"@, "$1"@),
        (true, "百分之(\\d+)"@, "$1%"@),
    ]
}

fn markdown_table() -> (v: Vec<RuleStep>)
    ensures
        v@.map_values(|s: RuleStep| step_view(s)) == markdown_steps(),
{
    let v = vec![
        RuleStep { regex: true, pattern: "```[a-zA-Z]*\\r?\\n?", replacement: "" },
        RuleStep { regex: false, pattern: "```", replacement: "" },
        RuleStep { regex: true, pattern: "`([^`\\n]+)`", replacement: "$1" },
        RuleStep { regex: true, pattern: "(?m)^#{1,6}\\s+", replacement: "" },
        RuleStep { regex: true, pattern: "(?m)^---+\\s*$", replacement: "" },
        RuleStep { regex: true, pattern: "(?m)^[*+\\-]\\s+", replacement: "" },
        RuleStep { regex: true, pattern: "(?m)^>\\s?", replacement: "" },
        RuleStep { regex: true, pattern: "\\*\\*([^*\\n]+)\\*\\*", replacement: "$1" },
        RuleStep { regex: false, pattern: "\r\n↓\r\n", replacement: " → " },
        RuleStep { regex: false, pattern: "\r\n↓\n", replacement: " → " },
        RuleStep { regex: false, pattern: "\n↓\r\n", replacement: " → " },
        RuleStep { regex: false, pattern: "\n↓\n", replacement: " → " },
        RuleStep { regex: false, pattern: "↓", replacement: "→" },
        RuleStep { regex: false, pattern: "：\r\n", replacement: "" },
        RuleStep { regex: false, pattern: "：\n", replacement: "" },
        RuleStep { regex: false, pattern: "。\r\n", replacement: "。" },
        RuleStep { regex: false, pattern: "。\n", replacement: "。" },
        RuleStep { regex: true, pattern: "\\s+([，。！？；,\\.!?;:、])", replacement: "$1" },
        RuleStep { regex: true, pattern: "百分之(\\d+)", replacement: "$1%" },
    ];
    assert(v@.map_values(|s: RuleStep| step_view(s)) =~= markdown_steps());
    v
}

/// Unit names to symbols; "公里每小时" before "公里" so the longer name wins.
pub open spec fn unit_steps() -> Seq<(bool, Seq<char>, Seq<char>)> {
    seq![
        (false, "公里每小时"@, "km/h"@),
        (false, "公里"@, "km"@),
        (false, "公斤"@, "kg"@),
        (false, "千克"@, "kg"@),
        (false, "毫升"@, "ml"@),
        (false, "厘米"@, "cm"@),
        (false, "毫米"@, "mm"@),
    ]
}

fn unit_table() -> (v: Vec<RuleStep>)
    ensures
        v@.map_values(|s: RuleStep| step_view(s)) == unit_steps(),
{
    let v = vec![
        RuleStep { regex: false, pattern: "公里每小时", replacement: "km/h" },
        RuleStep { regex: false, pattern: "公里", replacement: "km" },
        RuleStep { regex: false, pattern: "公斤", replacement: "kg" },
        RuleStep { regex: false, pattern: "千克", replacement: "kg" },
        RuleStep { regex: false, pattern: "毫升", replacement: "ml" },
        RuleStep { regex: false, pattern: "厘米", replacement: "cm" },
        RuleStep { regex: false, pattern: "毫米", replacement: "mm" },
    ];
    assert(v@.map_values(|s: RuleStep| step_view(s)) =~= unit_steps());
    v
}

/// Degree adverbs right before punctuation are deleted, the punctuation kept.
pub open spec fn adverb_steps() -> Seq<(bool, Seq<char>, Seq<char>)> {
    seq![
        (true, "(?:非常|十分|极其|相当|格外|尤为|甚为|极为)([，。、！？；])"@, "$1"@),
    ]
}

fn adverb_table() -> (v: Vec<RuleStep>)
    ensures
        v@.map_values(|s: RuleStep| step_view(s)) == adverb_steps(),
{
    let v = vec![
        RuleStep { regex: true, pattern: "(?:非常|十分|极其|相当|格外|尤为|甚为|极为)([，。、！？；])", replacement: "$1" },
    ];
    assert(v@.map_values(|s: RuleStep| step_view(s)) =~= adverb_steps());
    v
}

/// Synonym replacements, longer phrases first so that a short one does not eat a longer one's prefix.
pub open spec fn synonym_steps() -> Seq<(bool, Seq<char>, Seq<char>)> {
    seq![
        (false, "到目前为止"@, "至今"@),
        (false, "截至目前为止"@, "至今"@),
        (false, "目前为止"@, "至今"@),
        (false, "截至目前"@, "至今"@),
        (false, "除此之外"@, "此外"@),
        (false, "在此之外"@, "此外"@),
        (false, "在此之中"@, "其中"@),
        (false, "没有任何"@, "无"@),
        (false, "已经完成了"@, "完成"@),
        (false, "已经开始"@, "已开始"@),
        (false, "开始进行"@, "开始"@),
        (false, "继续进行"@, "继续"@),
        (false, "正在进行"@, "正在"@),
        (false, "目前正在"@, "正在"@),
        (false, "进行了"@, "进行"@),
        (false, "做出了"@, "做出"@),
        (false, "提出了"@, "提出"@),
        (false, "表示了"@, "表示"@),
        (false, "强调了"@, "强调"@),
        (false, "指出了"@, "指出"@),
        (false, "进行讨论"@, "讨论"@),
        (false, "进行研究"@, "研究"@),
        (false, "进行分析"@, "分析"@),
        (false, "进行调查"@, "调查"@),
        (false, "认为应该"@, "应"@),
        (false, "不能够"@, "不能"@),
        (false, "大约"@, "约"@),
        (false, "差不多"@, "约"@),
        (false, "大概"@, "约"@),
        (false, "因此"@, "故"@),
        (false, "然而"@, "但"@),
        (false, "不仅"@, "且"@),
        (false, "而且"@, "且"@),
        (false, "另外"@, "又"@),
        (false, "这些"@, "此"@),
        (false, "这个"@, "此"@),
        (false, "但是"@, "但"@),
        (false, "因为"@, "因"@),
        (false, "所以"@, "故"@),
        (false, "如果"@, "若"@),
        (false, "虽然"@, "虽"@),
        (false, "能够"@, "能"@),
        (false, "已经"@, "已"@),
        (false, "进行"@, "做"@),
        (false, "使用"@, "用"@),
        (false, "需要"@, "需"@),
        (false, "通过"@, "经"@),
        (false, "以及"@, "及"@),
        (false, "并且"@, "并"@),
        (false, "或者"@, "或"@),
        (false, "然后"@, "后"@),
        (false, "非常"@, "很"@),
        (false, "比较"@, "较"@),
        (false, "此外"@, "又"@),
        (false, "可以"@, "可"@),
        (false, "认为"@, "认"@),
        (false, "开始"@, "始"@),
        (false, "结束"@, "终"@),
        (false, "目前"@, "现"@),
        (false, "现在"@, "现"@),
        (false, "之间"@, "间"@),
        (false, "左右"@, ""@),
        (false, "上下"@, ""@),
    ]
}

fn synonym_table() -> (v: Vec<RuleStep>)
    ensures
        v@.map_values(|s: RuleStep| step_view(s)) == synonym_steps(),
{
    let v = vec![
        RuleStep { regex: false, pattern: "到目前为止", replacement: "至今" },
        RuleStep { regex: false, pattern: "截至目前为止", replacement: "至今" },
        RuleStep { regex: false, pattern: "目前为止", replacement: "至今" },
        RuleStep { regex: false, pattern: "截至目前", replacement: "至今" },
        RuleStep { regex: false, pattern: "除此之外", replacement: "此外" },
        RuleStep { regex: false, pattern: "在此之外", replacement: "此外" },
        RuleStep { regex: false, pattern: "在此之中", replacement: "其中" },
        RuleStep { regex: false, pattern: "没有任何", replacement: "无" },
        RuleStep { regex: false, pattern: "已经完成了", replacement: "完成" },
        RuleStep { regex: false, pattern: "已经开始", replacement: "已开始" },
        RuleStep { regex: false, pattern: "开始进行", replacement: "开始" },
        RuleStep { regex: false, pattern: "继续进行", replacement: "继续" },
        RuleStep { regex: false, pattern: "正在进行", replacement: "正在" },
        RuleStep { regex: false, pattern: "目前正在", replacement: "正在" },
        RuleStep { regex: false, pattern: "进行了", replacement: "进行" },
        RuleStep { regex: false, pattern: "做出了", replacement: "做出" },
        RuleStep { regex: false, pattern: "提出了", replacement: "提出" },
        RuleStep { regex: false, pattern: "表示了", replacement: "表示" },
        RuleStep { regex: false, pattern: "强调了", replacement: "强调" },
        RuleStep { regex: false, pattern: "指出了", replacement: "指出" },
        RuleStep { regex: false, pattern: "进行讨论", replacement: "讨论" },
        RuleStep { regex: false, pattern: "进行研究", replacement: "研究" },
        RuleStep { regex: false, pattern: "进行分析", replacement: "分析" },
        RuleStep { regex: false, pattern: "进行调查", replacement: "调查" },
        RuleStep { regex: false, pattern: "认为应该", replacement: "应" },
        RuleStep { regex: false, pattern: "不能够", replacement: "不能" },
        RuleStep { regex: false, pattern: "大约", replacement: "约" },
        RuleStep { regex: false, pattern: "差不多", replacement: "约" },
        RuleStep { regex: false, pattern: "大概", replacement: "约" },
        RuleStep { regex: false, pattern: "因此", replacement: "故" },
        RuleStep { regex: false, pattern: "然而", replacement: "但" },
        RuleStep { regex: false, pattern: "不仅", replacement: "且" },
        RuleStep { regex: false, pattern: "而且", replacement: "且" },
        RuleStep { regex: false, pattern: "另外", replacement: "又" },
        RuleStep { regex: false, pattern: "这些", replacement: "此" },
        RuleStep { regex: false, pattern: "这个", replacement: "此" },
        RuleStep { regex: false, pattern: "但是", replacement: "但" },
        RuleStep { regex: false, pattern: "因为", replacement: "因" },
        RuleStep { regex: false, pattern: "所以", replacement: "故" },
        RuleStep { regex: false, pattern: "如果", replacement: "若" },
        RuleStep { regex: false, pattern: "虽然", replacement: "虽" },
        RuleStep { regex: false, pattern: "能够", replacement: "能" },
        RuleStep { regex: false, pattern: "已经", replacement: "已" },
        RuleStep { regex: false, pattern: "进行", replacement: "做" },
        RuleStep { regex: false, pattern: "使用", replacement: "用" },
        RuleStep { regex: false, pattern: "需要", replacement: "需" },
        RuleStep { regex: false, pattern: "通过", replacement: "经" },
        RuleStep { regex: false, pattern: "以及", replacement: "及" },
        RuleStep { regex: false, pattern: "并且", replacement: "并" },
        RuleStep { regex: false, pattern: "或者", replacement: "或" },
        RuleStep { regex: false, pattern: "然后", replacement: "后" },
        RuleStep { regex: false, pattern: "非常", replacement: "很" },
        RuleStep { regex: false, pattern: "比较", replacement: "较" },
        RuleStep { regex: false, pattern: "此外", replacement: "又" },
        RuleStep { regex: false, pattern: "可以", replacement: "可" },
        RuleStep { regex: false, pattern: "认为", replacement: "认" },
        RuleStep { regex: false, pattern: "开始", replacement: "始" },
        RuleStep { regex: false, pattern: "结束", replacement: "终" },
        RuleStep { regex: false, pattern: "目前", replacement: "现" },
        RuleStep { regex: false, pattern: "现在", replacement: "现" },
        RuleStep { regex: false, pattern: "之间", replacement: "间" },
        RuleStep { regex: false, pattern: "左右", replacement: "" },
        RuleStep { regex: false, pattern: "上下", replacement: "" },
    ];
    assert(v@.map_values(|s: RuleStep| step_view(s)) =~= synonym_steps());
    v
}

/// Filler phrases, deleted; longer phrases first.
pub open spec fn filler_steps() -> Seq<(bool, Seq<char>, Seq<char>)> {
    seq![
        (false, "从某种意义上来说"@, ""@),
        (false, "值得一提的是"@, ""@),
        (false, "需要注意的是"@, ""@),
        (false, "有必要指出"@, ""@),
        (false, "毋庸置疑"@, ""@),
        (false, "毫无疑问"@, ""@),
        (false, "众所周知"@, ""@),
        (false, "不言而喻"@, ""@),
        (false, "不可否认"@, ""@),
        (false, "理所当然"@, ""@),
        (false, "显而易见"@, ""@),
        (false, "由此看来"@, ""@),
        (false, "与此同时"@, ""@),
        (false, "在此期间"@, ""@),
        (false, "就目前来看"@, ""@),
        (false, "从目前来看"@, ""@),
        (false, "相比之下"@, ""@),
        (false, "顺带一提"@, ""@),
        (false, "顺便说一下"@, ""@),
        (false, "综上所述"@, ""@),
        (false, "总而言之"@, ""@),
        (false, "总的来说"@, ""@),
        (false, "一般来说"@, ""@),
        (false, "换句话说"@, ""@),
        (false, "也就是说"@, ""@),
        (false, "换言之"@, ""@),
        (false, "由此可见"@, ""@),
        (false, "不难看出"@, ""@),
        (false, "不难发现"@, ""@),
        (false, "需要指出的是"@, ""@),
        (false, "必须指出的是"@, ""@),
        (false, "应该指出的是"@, ""@),
        (false, "值得注意的是"@, ""@),
        (false, "有趣的是"@, ""@),
        (false, "重要的是"@, ""@),
        (false, "据了解"@, ""@),
        (false, "实际上"@, ""@),
        (false, "基本上"@, ""@),
        (false, "可以说"@, ""@),
        (false, "当然了"@, ""@),
        (false, "当然啦"@, ""@),
        (false, "事实上"@, ""@),
        (false, "其实"@, ""@),
        (false, "首先"@, ""@),
        (false, "其次"@, ""@),
        (false, "再次"@, ""@),
        (false, "最后"@, ""@),
    ]
}

fn filler_table() -> (v: Vec<RuleStep>)
    ensures
        v@.map_values(|s: RuleStep| step_view(s)) == filler_steps(),
{
    let v = vec![
        RuleStep { regex: false, pattern: "从某种意义上来说", replacement: "" },
        RuleStep { regex: false, pattern: "值得一提的是", replacement: "" },
        RuleStep { regex: false, pattern: "需要注意的是", replacement: "" },
        RuleStep { regex: false, pattern: "有必要指出", replacement: "" },
        RuleStep { regex: false, pattern: "毋庸置疑", replacement: "" },
        RuleStep { regex: false, pattern: "毫无疑问", replacement: "" },
        RuleStep { regex: false, pattern: "众所周知", replacement: "" },
        RuleStep { regex: false, pattern: "不言而喻", replacement: "" },
        RuleStep { regex: false, pattern: "不可否认", replacement: "" },
        RuleStep { regex: false, pattern: "理所当然", replacement: "" },
        RuleStep { regex: false, pattern: "显而易见", replacement: "" },
        RuleStep { regex: false, pattern: "由此看来", replacement: "" },
        RuleStep { regex: false, pattern: "与此同时", replacement: "" },
        RuleStep { regex: false, pattern: "在此期间", replacement: "" },
        RuleStep { regex: false, pattern: "就目前来看", replacement: "" },
        RuleStep { regex: false, pattern: "从目前来看", replacement: "" },
        RuleStep { regex: false, pattern: "相比之下", replacement: "" },
        RuleStep { regex: false, pattern: "顺带一提", replacement: "" },
        RuleStep { regex: false, pattern: "顺便说一下", replacement: "" },
        RuleStep { regex: false, pattern: "综上所述", replacement: "" },
        RuleStep { regex: false, pattern: "总而言之", replacement: "" },
        RuleStep { regex: false, pattern: "总的来说", replacement: "" },
        RuleStep { regex: false, pattern: "一般来说", replacement: "" },
        RuleStep { regex: false, pattern: "换句话说", replacement: "" },
        RuleStep { regex: false, pattern: "也就是说", replacement: "" },
        RuleStep { regex: false, pattern: "换言之", replacement: "" },
        RuleStep { regex: false, pattern: "由此可见", replacement: "" },
        RuleStep { regex: false, pattern: "不难看出", replacement: "" },
        RuleStep { regex: false, pattern: "不难发现", replacement: "" },
        RuleStep { regex: false, pattern: "需要指出的是", replacement: "" },
        RuleStep { regex: false, pattern: "必须指出的是", replacement: "" },
        RuleStep { regex: false, pattern: "应该指出的是", replacement: "" },
        RuleStep { regex: false, pattern: "值得注意的是", replacement: "" },
        RuleStep { regex: false, pattern: "有趣的是", replacement: "" },
        RuleStep { regex: false, pattern: "重要的是", replacement: "" },
        RuleStep { regex: false, pattern: "据了解", replacement: "" },
        RuleStep { regex: false, pattern: "实际上", replacement: "" },
        RuleStep { regex: false, pattern: "基本上", replacement: "" },
        RuleStep { regex: false, pattern: "可以说", replacement: "" },
        RuleStep { regex: false, pattern: "当然了", replacement: "" },
        RuleStep { regex: false, pattern: "当然啦", replacement: "" },
        RuleStep { regex: false, pattern: "事实上", replacement: "" },
        RuleStep { regex: false, pattern: "其实", replacement: "" },
        RuleStep { regex: false, pattern: "首先", replacement: "" },
        RuleStep { regex: false, pattern: "其次", replacement: "" },
        RuleStep { regex: false, pattern: "再次", replacement: "" },
        RuleStep { regex: false, pattern: "最后", replacement: "" },
    ];
    assert(v@.map_values(|s: RuleStep| step_view(s)) =~= filler_steps());
    v
}

/// Punctuation left at line starts, runs of punctuation, and whitespace runs.
pub open spec fn punctuation_steps() -> Seq<(bool, Seq<char>, Seq<char>)> {
    seq![
        (true, "([，。！？；,\\.!?;:、])[，。！？；,\\.!?;:、]+"@, "$1"@),
        (true, "[\\r\\n]+"@, " "@),
        (true, "[ \\t]+"@, " "@),
    ]
}

fn punctuation_table() -> (v: Vec<RuleStep>)
    ensures
        v@.map_values(|s: RuleStep| step_view(s)) == punctuation_steps(),
{
    let v = vec![
        RuleStep { regex: true, pattern: "([，。！？；,\\.!?;:、])[，。！？；,\\.!?;:、]+", replacement: "$1" },
        RuleStep { regex: true, pattern: "[\\r\\n]+", replacement: " " },
        RuleStep { regex: true, pattern: "[ \\t]+", replacement: " " },
    ];
    assert(v@.map_values(|s: RuleStep| step_view(s)) =~= punctuation_steps());
    v
}

fn apply_step_exec(t: &Vec<char>, step: &RuleStep) -> (r: Vec<char>)
    ensures
        r@ == apply_step(t@, step_view(*step)),
{
    if step.regex {
        let s = from_chars(t);
        match regex_replace(step.pattern, s.as_str(), step.replacement) {
            Some(out) => to_chars(out.as_str()),
            None => t.clone(),
        }
    } else {
        let p = to_chars(step.pattern);
        if p.len() == 0 {
            t.clone()
        } else {
            replace_exec(t, &p, &to_chars(step.replacement))
        }
    }
}

fn apply_table(t: &Vec<char>, table: &Vec<RuleStep>) -> (r: Vec<char>)
    ensures
        r@ == apply_steps(t@, table@.map_values(|s: RuleStep| step_view(s))),
{
    let ghost steps = table@.map_values(|s: RuleStep| step_view(s));
    let mut cur = t.clone();
    let mut i: usize = 0;
    assert(steps.take(0) =~= Seq::<(bool, Seq<char>, Seq<char>)>::empty());
    while i < table.len()
        invariant
            i <= table.len(),
            steps == table@.map_values(|s: RuleStep| step_view(s)),
            cur@ == apply_steps(t@, steps.take(i as int)),
        decreases table.len() - i,
    {
        cur = apply_step_exec(&cur, &table[i]);
        assert(steps.take(i + 1).drop_last() =~= steps.take(i as int));
        i += 1;
    }
    assert(steps.take(table.len() as int) =~= steps);
    cur
}

fn is_leading_punct_exec(c: char) -> (b: bool)
    ensures
        b == is_leading_punct(c),
{
    c == '，' || c == '。' || c == '！' || c == '？' || c == '；' || c == ',' || c == '.' || c
        == '!' || c == '?' || c == ';' || c == ':'
}

fn strip_leading_punct_exec(s: &Vec<char>) -> (r: Vec<char>)
    ensures
        r@ == strip_leading_punct(s@),
{
    let mut start: usize = 0;
    assert(s@.skip(0) =~= s@);
    while start < s.len() && is_leading_punct_exec(s[start])
        invariant
            start <= s.len(),
            strip_leading_punct(s@.skip(start as int)) == strip_leading_punct(s@),
        decreases s.len() - start,
    {
        assert(s@.skip(start as int).drop_first() =~= s@.skip(start + 1));
        start += 1;
    }
    let mut r: Vec<char> = Vec::new();
    let mut k = start;
    while k < s.len()
        invariant
            start <= k <= s.len(),
            r@ == s@.subrange(start as int, k as int),
        decreases s.len() - k,
    {
        r.push(s[k]);
        k += 1;
        assert(r@ =~= s@.subrange(start as int, k as int));
    }
    assert(r@ =~= s@.skip(start as int));
    r
}

/// Unit names replaced by their symbols, longer names first ("公里每小时"
/// before "公里").
pub fn replace_units(t: &str) -> (r: String)
    ensures
        r@ == apply_steps(t@, unit_steps()),
{
    from_chars(&apply_table(&to_chars(t), &unit_table()))
}

/// Synonyms replaced by their shorter forms, longer phrases first.
pub fn apply_synonyms(t: &str) -> (r: String)
    ensures
        r@ == apply_steps(t@, synonym_steps()),
{
    from_chars(&apply_table(&to_chars(t), &synonym_table()))
}

/// Filler phrases deleted, longer phrases first.
pub fn remove_fillers(t: &str) -> (r: String)
    ensures
        r@ == apply_steps(t@, filler_steps()),
{
    from_chars(&apply_table(&to_chars(t), &filler_table()))
}

fn is_line_punct_exec(c: char) -> (b: bool)
    ensures
        b == is_line_punct(c),
{
    is_leading_punct_exec(c) || c == '、'
}

/// Removes the punctuation that begins a line, with the whitespace after it.
fn strip_line_punct_exec(s: &Vec<char>) -> (r: Vec<char>)
    ensures
        r@ == strip_line_punct(s@),
{
    let mut r: Vec<char> = Vec::new();
    let mut p: usize = 0;
    while p < s.len()
        invariant
            p <= s.len(),
            strip_line_punct(s@) == r@ + strip_lines_from(s@, p as int),
        decreases s.len() - p,
    {
        if (p == 0 || s[p - 1] == '\n') && is_line_punct_exec(s[p]) {
            let mut q = p + 1;
            while q < s.len() && is_ws_exec(s[q])
                invariant
                    p < q <= s.len(),
                    ws_end(s@, (p + 1) as int) == ws_end(s@, q as int),
                decreases s.len() - q,
            {
                q += 1;
            }
            p = q;
        } else {
            let ghost before = r@;
            r.push(s[p]);
            assert(before + strip_lines_from(s@, p as int) =~= r@ + strip_lines_from(s@, p + 1));
            p += 1;
        }
    }
    assert(r@ + Seq::<char>::empty() =~= r@);
    r
}

/// Runs the cleaning rules on a text.
pub fn apply(text: &str) -> (r: String)
    ensures
        r@ == rules_apply(text@),
{
    let t0 = to_chars(text);
    let t1 = apply_table(&t0, &markdown_table());
    let t2 = apply_table(&apply_table(&t1, &unit_table()), &adverb_table());
    let t3 = apply_table(&apply_table(&t2, &filler_table()), &synonym_table());
    let t4 = apply_table(&strip_line_punct_exec(&t3), &punctuation_table());
    let t5 = trim_exec(&t4);
    let t6 = strip_leading_punct_exec(&t5);
    from_chars(&t6)
}

proof fn lemma_strip_leading(s: Seq<char>)
    ensures
        strip_leading_punct(s).len() > 0 ==> !is_leading_punct(strip_leading_punct(s)[0]),
    decreases s.len(),
{
    if s.len() > 0 && is_leading_punct(s[0]) {
        lemma_strip_leading(s.drop_first());
    }
}

/// Cleaning law: the cleaned text never starts with one of the leading
/// punctuation marks that fillers leave behind.
pub proof fn law_no_leading_punct(text: Seq<char>)
    ensures
        rules_apply(text).len() > 0 ==> !is_leading_punct(rules_apply(text)[0]),
{
    lemma_strip_leading(trim(apply_steps(strip_line_punct(words_cleaned(text)), punctuation_steps())));
}

proof fn lemma_ws_end_shift(x: Seq<char>, y: Seq<char>, q: int)
    requires
        0 <= q <= y.len(),
    ensures
        ws_end(x + y, x.len() + q) == x.len() + ws_end(y, q),
    decreases y.len() - q,
{
    if q < y.len() {
        assert((x + y)[x.len() + q] == y[q]);
        if is_ws(y[q]) {
            lemma_ws_end_shift(x, y, q + 1);
        }
    }
}

proof fn lemma_ws_end_prefix(x: Seq<char>, y: Seq<char>, q: int)
    requires
        0 <= q <= x.len(),
        y.len() > 0,
        !is_ws(y[0]),
    ensures
        ws_end(x + y, q) == ws_end(x, q),
    decreases x.len() - q,
{
    if q < x.len() {
        assert((x + y)[q] == x[q]);
        if is_ws(x[q]) {
            lemma_ws_end_prefix(x, y, q + 1);
        }
    } else {
        assert((x + y)[q] == y[0]);
    }
}

/// Past its first character, a text is cut the same whatever precedes it.
proof fn lemma_strip_shift(x: Seq<char>, y: Seq<char>, j: int)
    requires
        1 <= j <= y.len(),
    ensures
        strip_lines_from(x + y, x.len() + j) == strip_lines_from(y, j),
    decreases y.len() - j,
{
    let s = x + y;
    let p = x.len() + j;
    if j < y.len() {
        assert(s[p] == y[j]);
        assert(s[p - 1] == y[j - 1]);
        if line_start(y, j) && is_line_punct(y[j]) {
            lemma_ws_end_shift(x, y, j + 1);
            lemma_ws_end_bounds(y, j + 1);
            let e = ws_end(y, j + 1);
            if e < y.len() {
                lemma_strip_shift(x, y, e);
            }
        } else {
            lemma_strip_shift(x, y, j + 1);
        }
    }
}

/// A text followed by more is cut as the text alone and then the rest, when
/// the rest begins with a character that is not whitespace.
proof fn lemma_strip_prefix(x: Seq<char>, y: Seq<char>, p: int)
    requires
        0 <= p <= x.len(),
        y.len() > 0,
        !is_ws(y[0]),
    ensures
        strip_lines_from(x + y, p) == strip_lines_from(x, p) + strip_lines_from(x + y, x.len() as int),
    decreases x.len() - p,
{
    let s = x + y;
    if p == x.len() {
        assert(Seq::<char>::empty() + strip_lines_from(s, p) =~= strip_lines_from(s, p));
    } else {
        assert(s[p] == x[p]);
        if p > 0 {
            assert(s[p - 1] == x[p - 1]);
        }
        if line_start(x, p) && is_line_punct(x[p]) {
            lemma_ws_end_prefix(x, y, p + 1);
            lemma_ws_end_bounds(x, p + 1);
            lemma_strip_prefix(x, y, ws_end(x, p + 1));
        } else {
            lemma_strip_prefix(x, y, p + 1);
            assert(seq![x[p]] + (strip_lines_from(x, p + 1) + strip_lines_from(s, x.len() as int))
                =~= (seq![x[p]] + strip_lines_from(x, p + 1)) + strip_lines_from(s, x.len() as int));
        }
    }
}

/// Line-start law: a punctuation mark that begins a line once the fillers
/// are deleted (as "，" does where "首先，" began the line) is dropped, with
/// the whitespace after it: the rest of the cleaning gives the same text as
/// without that mark, after a line break as at the very start, when the line
/// goes on with a character that is neither whitespace nor such a mark.
pub proof fn law_line_leading_punct_dropped(a: Seq<char>, c: char, b: Seq<char>)
    requires
        is_line_punct(c),
        b.len() > 0,
        !is_ws(b[0]),
        !is_line_punct(b[0]),
    ensures
        finish_cleaning(a + seq!['\n', c] + b) == finish_cleaning(a + seq!['\n'] + b),
        finish_cleaning(seq![c] + b) == finish_cleaning(b),
        forall|text: Seq<char>| #[trigger] rules_apply(text) == finish_cleaning(words_cleaned(text)),
{
    assert(!is_ws(c));
    let x = a + seq!['\n'];
    let yc = seq![c] + b;
    // with the mark
    let s1 = a + seq!['\n', c] + b;
    assert(s1 =~= x + yc);
    lemma_strip_prefix(x, yc, 0);
    assert(s1[x.len() as int] == c && s1[x.len() - 1] == '\n');
    assert(s1[x.len() as int + 1] == b[0]);
    assert(ws_end(s1, x.len() as int + 1) == x.len() + 1);
    let xc = x + seq![c];
    assert(s1 =~= xc + b);
    lemma_strip_shift(xc, b, 1);
    let n = x.len() as int;
    assert(line_start(s1, n) && is_line_punct(s1[n]));
    assert(strip_lines_from(s1, n) == strip_lines_from(s1, n + 1));
    assert(!line_start(s1, n + 1));
    assert(strip_lines_from(s1, n + 1) == seq![s1[n + 1]] + strip_lines_from(s1, n + 2));
    assert(strip_lines_from(s1, n + 2) == strip_lines_from(b, 1));
    assert(strip_lines_from(s1, x.len() as int) =~= seq![b[0]] + strip_lines_from(b, 1));
    // without it
    let s2 = a + seq!['\n'] + b;
    assert(s2 =~= x + b);
    lemma_strip_prefix(x, b, 0);
    assert(s2[x.len() as int] == b[0] && s2[x.len() - 1] == '\n');
    lemma_strip_shift(x, b, 1);
    assert(strip_lines_from(s2, x.len() as int) =~= seq![b[0]] + strip_lines_from(b, 1));
    assert(strip_line_punct(s1) == strip_line_punct(s2));
    // at the very start
    let s3 = seq![c] + b;
    assert(s3[0] == c && s3[1] == b[0]);
    assert(ws_end(s3, 1) == 1);
    lemma_strip_shift(seq![c], b, 1);
    assert(!line_start(s3, 1));
    assert(strip_lines_from(s3, 1) == seq![s3[1]] + strip_lines_from(s3, 2));
    assert(strip_lines_from(s3, 1) =~= seq![b[0]] + strip_lines_from(b, 1));
    assert(strip_lines_from(b, 0) =~= seq![b[0]] + strip_lines_from(b, 1));
    assert(strip_line_punct(s3) == strip_line_punct(b));
}

} // verus!
