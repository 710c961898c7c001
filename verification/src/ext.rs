//! The library's calls into the `regex` and `jieba-rs` crates.
//!
//! A regular-expression engine takes pages to describe and is a
//! deterministic function of its inputs, so its results are named, not
//! restated. Of the word segmenter, its dictionary and its HMM cut are named;
//! how it builds its words from them is stated, except for the route it
//! picks by comparing floating-point scores, of which only what holds of
//! every outcome is stated.
use vstd::prelude::*;

use crate::text::concat;

verus! {

// ==================== regex ====================

/// What the `regex` crate computes for `Regex::new(pattern)` followed by
/// `replace_all(text, rep)`: `None` when the pattern does not compile,
/// otherwise the text with every match replaced (with `$n` expanded to the
/// capture groups).
pub uninterp spec fn regex_replace_all(pattern: Seq<char>, text: Seq<char>, rep: Seq<char>) -> Option<
    Seq<char>,
>;

/// What the `regex` crate computes for `Regex::new(pattern)` followed by
/// `find_iter(text)`: `None` when the pattern does not compile, otherwise
/// each match's text with its byte start and end, in order.
pub uninterp spec fn regex_find_all(pattern: Seq<char>, text: Seq<char>) -> Option<
    Seq<(Seq<char>, usize, usize)>,
>;

/// Compiles `pattern` with `regex::Regex::new` and applies
/// `Regex::replace_all` to `text` with the replacement `rep`.
///
/// Trusted: the contract claims only that the result is the named value
/// `regex_replace_all(pattern, text, rep)`; what the engine matches is not
/// stated here.
#[verifier::external_body]
pub(crate) fn regex_replace(pattern: &str, text: &str, rep: &str) -> (r: Option<String>)
    ensures
        match r {
            Some(s) => regex_replace_all(pattern@, text@, rep@) == Some(s@),
            None => regex_replace_all(pattern@, text@, rep@) is None,
        },
{
    match regex::Regex::new(pattern) {
        Ok(re) => Some(re.replace_all(text, rep).into_owned()),
        Err(_) => None,
    }
}

/// Compiles `pattern` with `regex::Regex::new` and collects
/// `Regex::find_iter(text)` as (match text, byte start, byte end).
///
/// Trusted: the contract claims only that the result is the named value
/// `regex_find_all(pattern, text)`.
#[verifier::external_body]
pub(crate) fn regex_find(pattern: &str, text: &str) -> (r: Option<Vec<(String, usize, usize)>>)
    ensures
        match r {
            Some(v) => regex_find_all(pattern@, text@) == Some(
                v@.map_values(|m: (String, usize, usize)| (m.0@, m.1, m.2)),
            ),
            None => regex_find_all(pattern@, text@) is None,
        },
{
    match regex::Regex::new(pattern) {
        Ok(re) => Some(
            re.find_iter(text).map(|m| (m.as_str().to_string(), m.start(), m.end())).collect(),
        ),
        Err(_) => None,
    }
}

// ==================== jieba ====================

#[verifier::external_type_specification]
#[verifier::external_body]
pub struct ExJieba(jieba_rs::Jieba);

/// `words` is a segmentation of `text`: no word is empty and the words,
/// joined in order, give the text back.
pub open spec fn is_segmentation(words: Seq<Seq<char>>, text: Seq<char>) -> bool {
    &&& forall|i: int| 0 <= i < words.len() ==> #[trigger] words[i].len() > 0
    &&& concat(words) == text
}

/// Whether `jieba_rs::Jieba::has_word(w)` holds for a segmenter built by
/// `Jieba::new()`: `w` is a word of the dictionary built into the crate.
pub uninterp spec fn jieba_dict_word(w: Seq<char>) -> bool;

/// The words that jieba's HMM cut (`hmm::cut`, a Viterbi pass over constant
/// tables) gives for `run`.
pub uninterp spec fn jieba_hmm_cut(run: Seq<char>) -> Seq<Seq<char>>;

/// A character that jieba cuts with its dictionary (the class of its
/// `RE_HAN_DEFAULT`): CJK ideographs of the listed blocks, ASCII letters and
/// digits, and `+ # & . _ % -`.
pub open spec fn is_dict_class(c: char) -> bool {
    ||| ('\u{3400}' <= c && c <= '\u{4DBF}')
    ||| ('\u{4E00}' <= c && c <= '\u{9FFF}')
    ||| ('\u{F900}' <= c && c <= '\u{FAFF}')
    ||| ('\u{20000}' <= c && c <= '\u{2A6DF}')
    ||| ('\u{2A700}' <= c && c <= '\u{2B73F}')
    ||| ('\u{2B740}' <= c && c <= '\u{2B81F}')
    ||| ('\u{2B820}' <= c && c <= '\u{2CEAF}')
    ||| ('\u{2CEB0}' <= c && c <= '\u{2EBEF}')
    ||| ('\u{2F800}' <= c && c <= '\u{2FA1F}')
    ||| ('a' <= c && c <= 'z')
    ||| ('A' <= c && c <= 'Z')
    ||| ('0' <= c && c <= '9')
    ||| c == '+' || c == '#' || c == '&' || c == '.' || c == '_' || c == '%' || c == '-'
}

/// The blocks jieba cuts a text into: maximal runs of dictionary-class
/// characters and maximal runs of the other characters, in order.
pub open spec fn jieba_blocks(s: Seq<char>) -> Seq<Seq<char>>
    decreases s.len(),
{
    if s.len() == 0 {
        Seq::empty()
    } else {
        let bs = jieba_blocks(s.drop_last());
        let c = s.last();
        if bs.len() > 0 && is_dict_class(bs.last().last()) == is_dict_class(c) {
            bs.update(bs.len() - 1, bs.last().push(c))
        } else {
            bs.push(seq![c])
        }
    }
}

/// The words of a block of other characters: `\r\n` together, every other
/// character on its own.
pub open spec fn other_block_words(b: Seq<char>) -> Seq<Seq<char>>
    decreases b.len(),
{
    if b.len() == 0 {
        Seq::empty()
    } else if b.len() >= 2 && b[0] == '\r' && b[1] == '\n' {
        seq![b.take(2)] + other_block_words(b.skip(2))
    } else {
        seq![b.take(1)] + other_block_words(b.skip(1))
    }
}

/// A route through a dictionary-class block: steps that join to the block,
/// each a single character or a word of the dictionary `dict`.
pub open spec fn is_route(b: Seq<char>, route: Seq<Seq<char>>, dict: spec_fn(Seq<char>) -> bool) -> bool {
    &&& concat(route) == b
    &&& forall|i: int|
        0 <= i < route.len() ==> (#[trigger] route[i]).len() == 1 || (route[i].len() > 1
            && dict(route[i]))
}

/// The characters of `s`, each a word of its own.
pub open spec fn single_chars(s: Seq<char>) -> Seq<Seq<char>> {
    Seq::new(s.len(), |i: int| seq![s[i]])
}

/// The words jieba gives for a run of single-character steps: the character
/// itself; each character, if the run is a dictionary word; the HMM cut
/// otherwise.
pub open spec fn run_words(
    run: Seq<char>,
    dict: spec_fn(Seq<char>) -> bool,
    hmm: spec_fn(Seq<char>) -> Seq<Seq<char>>,
) -> Seq<Seq<char>> {
    if run.len() == 0 {
        Seq::empty()
    } else if run.len() == 1 {
        seq![run]
    } else if dict(run) {
        single_chars(run)
    } else {
        hmm(run)
    }
}

/// The words jieba gives along a route: every longer step is a word; the
/// single-character steps between them are gathered into runs (`run` holds
/// the one not yet emitted).
pub open spec fn route_words(
    route: Seq<Seq<char>>,
    run: Seq<char>,
    dict: spec_fn(Seq<char>) -> bool,
    hmm: spec_fn(Seq<char>) -> Seq<Seq<char>>,
) -> Seq<Seq<char>>
    decreases route.len(),
{
    if route.len() == 0 {
        run_words(run, dict, hmm)
    } else if route[0].len() == 1 {
        route_words(route.drop_first(), run + route[0], dict, hmm)
    } else {
        run_words(run, dict, hmm) + seq![route[0]] + route_words(
            route.drop_first(),
            Seq::empty(),
            dict,
            hmm,
        )
    }
}

/// `routes` gives a route through each dictionary-class block of `blocks`.
pub open spec fn routes_fit(
    blocks: Seq<Seq<char>>,
    routes: Seq<Seq<Seq<char>>>,
    dict: spec_fn(Seq<char>) -> bool,
) -> bool {
    &&& routes.len() == blocks.len()
    &&& forall|i: int|
        0 <= i < blocks.len() && is_dict_class(blocks[i][0]) ==> #[trigger] is_route(
            blocks[i],
            routes[i],
            dict,
        )
}

/// The words of the blocks, each dictionary-class block cut along its route.
pub open spec fn cut_along(
    blocks: Seq<Seq<char>>,
    routes: Seq<Seq<Seq<char>>>,
    dict: spec_fn(Seq<char>) -> bool,
    hmm: spec_fn(Seq<char>) -> Seq<Seq<char>>,
) -> Seq<Seq<char>>
    decreases blocks.len(),
{
    if blocks.len() == 0 {
        Seq::empty()
    } else {
        cut_along(blocks.drop_last(), routes.drop_last(), dict, hmm) + if is_dict_class(
            blocks.last()[0],
        ) {
            route_words(routes.last(), Seq::empty(), dict, hmm)
        } else {
            other_block_words(blocks.last())
        }
    }
}

/// `words` is a cut jieba's method gives for `text` with the dictionary
/// `dict` and the HMM cut `hmm`: a segmentation of it that cuts each
/// dictionary-class block along some route of dictionary words and single
/// characters, and the other blocks character by character.
pub open spec fn cut_with(
    text: Seq<char>,
    words: Seq<Seq<char>>,
    dict: spec_fn(Seq<char>) -> bool,
    hmm: spec_fn(Seq<char>) -> Seq<Seq<char>>,
) -> bool {
    &&& is_segmentation(words, text)
    &&& exists|routes: Seq<Seq<Seq<char>>>|
        #[trigger] routes_fit(jieba_blocks(text), routes, dict) && words == cut_along(
            jieba_blocks(text),
            routes,
            dict,
            hmm,
        )
}

/// `words` is a cut jieba gives for `text`, with its built-in dictionary.
pub open spec fn jieba_cut_of(text: Seq<char>, words: Seq<Seq<char>>) -> bool {
    cut_with(text, words, |w: Seq<char>| jieba_dict_word(w), |r: Seq<char>| jieba_hmm_cut(r))
}

/// A Chinese word segmenter with jieba's built-in dictionary.
///
/// The segmenter is only ever built by `Segmenter::new`, so every value of
/// this type segments with the built-in dictionary.
pub struct Segmenter {
    jieba: jieba_rs::Jieba,
}

/// Builds a segmenter with `jieba_rs::Jieba::new()` (loads the built-in
/// dictionary). Trusted: nothing is claimed of the result.
#[verifier::external_body]
fn jieba_new() -> jieba_rs::Jieba {
    jieba_rs::Jieba::new()
}

/// Cuts `text` into words with `jieba_rs::Jieba::cut(text, true)` on the
/// segmenter's `Jieba`.
///
/// Trusted: the contract claims what the crate's `cut_internal` and
/// `cut_dag_hmm` build. The text is split into dictionary-class blocks and
/// other blocks (`RE_HAN_DEFAULT`); other blocks are cut per character, with
/// `\r\n` kept together (`RE_SKIP_DEFAULT`); a dictionary-class block is cut
/// along a route whose steps are dictionary words (the DAG's edges) or single
/// characters, runs of single-character steps going to the HMM cut unless
/// they are a dictionary word (then per character) or one character. The
/// words are non-empty and join to the text. Which route comes out is left
/// open: it is the best by `f64` sums of logarithms, whose rounding std does
/// not fix.
#[verifier::external_body]
fn jieba_cut_words(seg: &Segmenter, text: &str) -> (r: Vec<String>)
    ensures
        cut_with(
            text@,
            r@.map_values(|w: String| w@),
            |x: Seq<char>| jieba_dict_word(x),
            |x: Seq<char>| jieba_hmm_cut(x),
        ),
{
    seg.jieba.cut(text, true).into_iter().map(|w| w.to_string()).collect()
}

impl Segmenter {
    /// A segmenter with the built-in dictionary.
    pub fn new() -> Segmenter {
        Segmenter { jieba: jieba_new() }
    }

    /// The words of `text`, as jieba cuts them (see `jieba_cut_of`).
    pub fn cut(&self, text: &str) -> (r: Vec<String>)
        ensures
            jieba_cut_of(text@, r@.map_values(|w: String| w@)),
    {
        jieba_cut_words(self, text)
    }
}

} // verus!

verus! {

// ==================== std: Unicode classes ====================

/// Whether std's `char::is_alphanumeric` holds of `c` (Unicode `Alphabetic`
/// or `Numeric`).
pub uninterp spec fn unicode_alphanumeric(c: char) -> bool;

/// Calls `char::is_alphanumeric`.
///
/// Trusted: the contract claims only that the result is the named value
/// `unicode_alphanumeric(c)`; the Unicode tables are not restated.
#[verifier::external_body]
pub(crate) fn is_alphanumeric(c: char) -> (b: bool)
    ensures
        b == unicode_alphanumeric(c),
{
    c.is_alphanumeric()
}

} // verus!
