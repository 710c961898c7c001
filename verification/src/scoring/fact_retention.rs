//! Fact retention by type.
//!
//! Six extractors: number / unit / path / version / error code / proper noun.
//! Each span counts once, by type priority: unit > path > version > error
//! code > proper noun > number. A match that overlaps a match of a
//! higher-priority type is not counted; overlap is judged on byte ranges.
use vstd::prelude::*;

use crate::ext::{regex_find, regex_find_all};
use crate::text::{
    contains, contains_exec, dedup_sort_exec, dedup_sort_spec, from_chars, replace_all,
    sort_exec, sort_spec, to_chars,
};

verus! {

/// Numbers, with an optional decimal part.
pub const RE_NUMBER: &'static str = "\\d+(?:\\.\\d+)?";

/// A number followed by a unit; longer units first ("分钟" before "分").
pub const RE_UNIT: &'static str = "\\d+(?:\\.\\d+)?\\s*(?:分钟|小时|秒|天|字|个|条|MB|GB|KB|ms|token|B|b)";

/// Source paths and file names with a known extension.
pub const RE_PATH: &'static str = "(?:compressor/src/[\\w./-]+|[\\w./-]+\\.(?:rs|toml|html|js|json|md|sh))";

/// Version numbers such as v1.2.3 or 2.0.
pub const RE_VERSION: &'static str = "v?\\d+\\.\\d+(?:\\.\\d+)?";

/// Error codes such as E404, and three-digit 4xx / 5xx HTTP statuses.
pub const RE_ERROR_CODE: &'static str = "\\bE\\d+\\b|\\b[45]\\d{2}\\b";

/// Capitalised English words, possibly followed by digits (Qwen3, DeepSeek, M1).
pub const RE_PROPER_NOUN: &'static str = "\\b[A-Z][a-zA-Z]*\\d*\\b";

/// A match: its text, byte start and byte end.
pub type Entity = (String, usize, usize);

/// The plain content of a match.
pub open spec fn entity_view(e: Entity) -> (Seq<char>, usize, usize) {
    (e.0@, e.1, e.2)
}

/// The matches of a pattern (none if it does not compile).
pub open spec fn matches_of(pattern: Seq<char>, text: Seq<char>) -> Seq<(Seq<char>, usize, usize)> {
    match regex_find_all(pattern, text) {
        Some(v) => v,
        None => Seq::empty(),
    }
}

/// Unit matches with the spaces between number and unit removed.
pub open spec fn unit_matches(text: Seq<char>) -> Seq<(Seq<char>, usize, usize)> {
    matches_of(RE_UNIT@, text).map_values(
        |e: (Seq<char>, usize, usize)| (replace_all(e.0, " "@, ""@), e.1, e.2),
    )
}

/// The texts of some matches.
pub open spec fn match_texts(es: Seq<(Seq<char>, usize, usize)>) -> Seq<Seq<char>> {
    es.map_values(|e: (Seq<char>, usize, usize)| e.0)
}

/// The byte ranges of some matches.
pub open spec fn ranges(es: Seq<(Seq<char>, usize, usize)>) -> Seq<(usize, usize)> {
    es.map_values(|e: (Seq<char>, usize, usize)| (e.1, e.2))
}

/// The matches of every type found in a text, before any filtering.
pub struct MatchSets {
    pub numbers: Seq<(Seq<char>, usize, usize)>,
    pub units: Seq<(Seq<char>, usize, usize)>,
    pub paths: Seq<(Seq<char>, usize, usize)>,
    pub versions: Seq<(Seq<char>, usize, usize)>,
    pub error_codes: Seq<(Seq<char>, usize, usize)>,
    pub proper_nouns: Seq<(Seq<char>, usize, usize)>,
}

/// The matches of every type in `text`.
pub open spec fn matches_in(text: Seq<char>) -> MatchSets {
    MatchSets {
        numbers: matches_of(RE_NUMBER@, text),
        units: unit_matches(text),
        paths: matches_of(RE_PATH@, text),
        versions: matches_of(RE_VERSION@, text),
        error_codes: matches_of(RE_ERROR_CODE@, text),
        proper_nouns: matches_of(RE_PROPER_NOUN@, text),
    }
}

/// The match ranges of the `k` highest-priority types, in the order units,
/// paths, versions, error codes, proper nouns.
pub open spec fn ranges_above(m: MatchSets, k: nat) -> Seq<(usize, usize)>
    decreases k,
{
    if k == 0 {
        Seq::empty()
    } else if k == 1 {
        ranges(m.units)
    } else if k == 2 {
        ranges_above(m, 1) + ranges(m.paths)
    } else if k == 3 {
        ranges_above(m, 2) + ranges(m.versions)
    } else if k == 4 {
        ranges_above(m, 3) + ranges(m.error_codes)
    } else {
        ranges_above(m, 4) + ranges(m.proper_nouns)
    }
}

/// The range `[s, e)` overlaps some blocked range.
pub open spec fn overlaps(s: usize, e: usize, blocked: Seq<(usize, usize)>) -> bool {
    exists|j: int| 0 <= j < blocked.len() && s < blocked[j].1 && blocked[j].0 < e
}

/// The matches that overlap no blocked range.
pub open spec fn outside(
    es: Seq<(Seq<char>, usize, usize)>,
    blocked: Seq<(usize, usize)>,
) -> Seq<(Seq<char>, usize, usize)>
    decreases es.len(),
{
    if es.len() == 0 {
        es
    } else {
        let r = outside(es.drop_last(), blocked);
        if overlaps(es.last().1, es.last().2, blocked) {
            r
        } else {
            r.push(es.last())
        }
    }
}

/// The facts not found in `compressed` (case-sensitive substring test).
pub open spec fn missing(facts: Seq<Seq<char>>, compressed: Seq<char>) -> Seq<Seq<char>>
    decreases facts.len(),
{
    if facts.len() == 0 {
        facts
    } else {
        let r = missing(facts.drop_last(), compressed);
        if contains(compressed, facts.last()) {
            r
        } else {
            r.push(facts.last())
        }
    }
}

/// The facts of each type, each list distinct and sorted.
pub struct FactsByType {
    pub number: Vec<String>,
    pub unit: Vec<String>,
    pub path: Vec<String>,
    pub version: Vec<String>,
    pub error_code: Vec<String>,
    pub proper_noun: Vec<String>,
}

impl Default for FactsByType {
    /// No facts of any type.
    fn default() -> (f: Self)
        ensures
            f.number@.len() == 0 && f.unit@.len() == 0 && f.path@.len() == 0 && f.version@.len()
                == 0 && f.error_code@.len() == 0 && f.proper_noun@.len() == 0,
    {
        FactsByType {
            number: Vec::new(),
            unit: Vec::new(),
            path: Vec::new(),
            version: Vec::new(),
            error_code: Vec::new(),
            proper_noun: Vec::new(),
        }
    }
}

/// Fact retention of a compression; the retention rate is
/// `retained_facts / total_facts` (1 when there are no facts).
pub struct FactRetention {
    pub total_facts: usize,
    pub retained_facts: usize,
    pub lost_facts: Vec<String>,
    pub facts_by_type: FactsByType,
}

/// The plain content of a list of strings.
pub open spec fn strs(v: Seq<String>) -> Seq<Seq<char>> {
    v.map_values(|s: String| s@)
}

/// The facts of each type in `original`, in the order number, unit, path,
/// version, error code, proper noun.
pub open spec fn facts_spec(original: Seq<char>) -> Seq<Seq<Seq<char>>> {
    facts_of(matches_in(original))
}

/// The facts of each type given the matches: a match overlapping one of a
/// higher-priority type dropped, then every list made distinct and sorted.
pub open spec fn facts_of(m: MatchSets) -> Seq<Seq<Seq<char>>> {
    seq![
        dedup_sort_spec(match_texts(outside(m.numbers, ranges_above(m, 5)))),
        dedup_sort_spec(match_texts(m.units)),
        dedup_sort_spec(match_texts(outside(m.paths, ranges_above(m, 1)))),
        dedup_sort_spec(match_texts(outside(m.versions, ranges_above(m, 2)))),
        dedup_sort_spec(match_texts(outside(m.error_codes, ranges_above(m, 3)))),
        dedup_sort_spec(match_texts(outside(m.proper_nouns, ranges_above(m, 4)))),
    ]
}

/// All facts given the matches, the lists of every type one after the other.
pub open spec fn all_facts_of(m: MatchSets) -> Seq<Seq<char>> {
    let f = facts_of(m);
    f[0] + f[1] + f[2] + f[3] + f[4] + f[5]
}

/// All facts, the lists of every type one after the other.
pub open spec fn all_facts(original: Seq<char>) -> Seq<Seq<char>> {
    all_facts_of(matches_in(original))
}

// ---- extraction ----

fn entities(pattern: &str, text: &str) -> (r: Vec<Entity>)
    ensures
        r@.map_values(|e: Entity| entity_view(e)) == matches_of(pattern@, text@),
{
    match regex_find(pattern, text) {
        Some(v) => {
            assert(v@.map_values(|e: Entity| entity_view(e)) =~= v@.map_values(
                |m: (String, usize, usize)| (m.0@, m.1, m.2),
            ));
            v
        },
        None => {
            let v: Vec<Entity> = Vec::new();
            assert(v@.map_values(|e: Entity| entity_view(e)) =~= Seq::<
                (Seq<char>, usize, usize),
            >::empty());
            v
        },
    }
}

fn extract_numbers_pos(text: &str) -> (r: Vec<Entity>)
    ensures
        r@.map_values(|e: Entity| entity_view(e)) == matches_of(RE_NUMBER@, text@),
{
    entities(RE_NUMBER, text)
}

fn extract_units_pos(text: &str) -> (r: Vec<Entity>)
    ensures
        r@.map_values(|e: Entity| entity_view(e)) == unit_matches(text@),
{
    proof {
        reveal_strlit(" ");
    }
    let raw = entities(RE_UNIT, text);
    let ghost rv = raw@.map_values(|e: Entity| entity_view(e));
    let mut out: Vec<Entity> = Vec::new();
    let mut i: usize = 0;
    while i < raw.len()
        invariant
            i <= raw.len(),
            rv == raw@.map_values(|e: Entity| entity_view(e)),
            rv == matches_of(RE_UNIT@, text@),
            out@.len() == i,
            forall|k: int|
                0 <= k < i ==> entity_view(#[trigger] out@[k]) == (
                    replace_all(rv[k].0, " "@, ""@),
                    rv[k].1,
                    rv[k].2,
                ),
        decreases raw.len() - i,
    {
        let (ref s, a, b) = raw[i];
        proof {
            reveal_strlit(" ");
        }
        let normalized = crate::text::replace_str(&to_chars(s.as_str()), " ", "");
        out.push((from_chars(&normalized), a, b));
        i += 1;
    }
    assert(out@.map_values(|e: Entity| entity_view(e)) =~= unit_matches(text@));
    out
}

fn extract_paths_pos(text: &str) -> (r: Vec<Entity>)
    ensures
        r@.map_values(|e: Entity| entity_view(e)) == matches_of(RE_PATH@, text@),
{
    entities(RE_PATH, text)
}

fn extract_versions_pos(text: &str) -> (r: Vec<Entity>)
    ensures
        r@.map_values(|e: Entity| entity_view(e)) == matches_of(RE_VERSION@, text@),
{
    entities(RE_VERSION, text)
}

fn extract_error_codes_pos(text: &str) -> (r: Vec<Entity>)
    ensures
        r@.map_values(|e: Entity| entity_view(e)) == matches_of(RE_ERROR_CODE@, text@),
{
    entities(RE_ERROR_CODE, text)
}

fn extract_proper_nouns_pos(text: &str) -> (r: Vec<Entity>)
    ensures
        r@.map_values(|e: Entity| entity_view(e)) == matches_of(RE_PROPER_NOUN@, text@),
{
    entities(RE_PROPER_NOUN, text)
}

/// The distinct texts of the matches, sorted.
pub fn dedupe_sort(items: &Vec<Entity>) -> (r: Vec<String>)
    ensures
        strs(r@) == dedup_sort_spec(match_texts(items@.map_values(|e: Entity| entity_view(e)))),
{
    let ghost ts = match_texts(items@.map_values(|e: Entity| entity_view(e)));
    let mut cs: Vec<Vec<char>> = Vec::new();
    let mut i: usize = 0;
    while i < items.len()
        invariant
            i <= items.len(),
            ts == match_texts(items@.map_values(|e: Entity| entity_view(e))),
            cs@.len() == i,
            forall|k: int| 0 <= k < i ==> #[trigger] cs@[k]@ == ts[k],
        decreases items.len() - i,
    {
        cs.push(to_chars(items[i].0.as_str()));
        i += 1;
    }
    assert(cs@.map_values(|v: Vec<char>| v@) =~= ts);
    let sorted = dedup_sort_exec(&cs);
    strings_of(&sorted)
}

/// Strings holding the given character vectors.
fn strings_of(v: &Vec<Vec<char>>) -> (r: Vec<String>)
    ensures
        strs(r@) == v@.map_values(|x: Vec<char>| x@),
{
    let mut r: Vec<String> = Vec::new();
    let mut i: usize = 0;
    while i < v.len()
        invariant
            i <= v.len(),
            r@.len() == i,
            forall|k: int| 0 <= k < i ==> #[trigger] r@[k]@ == v@[k]@,
        decreases v.len() - i,
    {
        r.push(from_chars(&v[i]));
        i += 1;
    }
    assert(strs(r@) =~= v@.map_values(|x: Vec<char>| x@));
    r
}

/// The distinct numbers in `text`, sorted.
pub fn extract_numbers(text: &str) -> (r: Vec<String>)
    ensures
        strs(r@) == dedup_sort_spec(match_texts(matches_of(RE_NUMBER@, text@))),
{
    dedupe_sort(&extract_numbers_pos(text))
}

/// The distinct numbers with units in `text` (spaces removed), sorted.
pub fn extract_units(text: &str) -> (r: Vec<String>)
    ensures
        strs(r@) == dedup_sort_spec(match_texts(unit_matches(text@))),
{
    dedupe_sort(&extract_units_pos(text))
}

/// The distinct paths in `text`, sorted.
pub fn extract_paths(text: &str) -> (r: Vec<String>)
    ensures
        strs(r@) == dedup_sort_spec(match_texts(matches_of(RE_PATH@, text@))),
{
    dedupe_sort(&extract_paths_pos(text))
}

/// The distinct versions in `text`, sorted.
pub fn extract_versions(text: &str) -> (r: Vec<String>)
    ensures
        strs(r@) == dedup_sort_spec(match_texts(matches_of(RE_VERSION@, text@))),
{
    dedupe_sort(&extract_versions_pos(text))
}

/// The distinct error codes in `text`, sorted.
pub fn extract_error_codes(text: &str) -> (r: Vec<String>)
    ensures
        strs(r@) == dedup_sort_spec(match_texts(matches_of(RE_ERROR_CODE@, text@))),
{
    dedupe_sort(&extract_error_codes_pos(text))
}

/// The distinct proper nouns in `text`, sorted.
pub fn extract_proper_nouns(text: &str) -> (r: Vec<String>)
    ensures
        strs(r@) == dedup_sort_spec(match_texts(matches_of(RE_PROPER_NOUN@, text@))),
{
    dedupe_sort(&extract_proper_nouns_pos(text))
}

// ---- retention ----

/// The ranges of some matches.
fn ranges_of(es: &Vec<Entity>, out: &mut Vec<(usize, usize)>)
    ensures
        final(out)@ == old(out)@ + ranges(es@.map_values(|e: Entity| entity_view(e))),
{
    let ghost start = out@;
    let mut i: usize = 0;
    while i < es.len()
        invariant
            i <= es.len(),
            out@ == start + ranges(es@.map_values(|e: Entity| entity_view(e))).take(i as int),
        decreases es.len() - i,
    {
        out.push((es[i].1, es[i].2));
        i += 1;
        assert(out@ =~= start + ranges(es@.map_values(|e: Entity| entity_view(e))).take(
            i as int,
        ));
    }
    assert(ranges(es@.map_values(|e: Entity| entity_view(e))).take(es.len() as int) =~= ranges(
        es@.map_values(|e: Entity| entity_view(e)),
    ));
}

fn overlaps_exec(s: usize, e: usize, blocked: &Vec<(usize, usize)>) -> (r: bool)
    ensures
        r == overlaps(s, e, blocked@),
{
    let mut j: usize = 0;
    while j < blocked.len()
        invariant
            j <= blocked.len(),
            forall|k: int| 0 <= k < j ==> !(s < blocked@[k].1 && blocked@[k].0 < e),
        decreases blocked.len() - j,
    {
        if s < blocked[j].1 && blocked[j].0 < e {
            return true;
        }
        j += 1;
    }
    false
}

fn append_strings(dst: &mut Vec<Vec<char>>, src: &Vec<String>)
    ensures
        final(dst)@.map_values(|v: Vec<char>| v@) == old(dst)@.map_values(|v: Vec<char>| v@) + strs(
            src@,
        ),
{
    let ghost start = dst@.map_values(|v: Vec<char>| v@);
    let mut i: usize = 0;
    while i < src.len()
        invariant
            i <= src.len(),
            dst@.map_values(|v: Vec<char>| v@) == start + strs(src@).take(i as int),
        decreases src.len() - i,
    {
        let ghost before = dst@.map_values(|v: Vec<char>| v@);
        dst.push(to_chars(src[i].as_str()));
        assert(dst@.map_values(|v: Vec<char>| v@) =~= before.push(src@[i as int]@));
        assert(strs(src@).take(i + 1) =~= strs(src@).take(i as int).push(src@[i as int]@));
        i += 1;
    }
    assert(strs(src@).take(src.len() as int) =~= strs(src@));
}

/// The matches that overlap no blocked range.
fn keep_outside(es: &Vec<Entity>, blocked: &Vec<(usize, usize)>) -> (r: Vec<Entity>)
    ensures
        r@.map_values(|e: Entity| entity_view(e)) == outside(
            es@.map_values(|e: Entity| entity_view(e)),
            blocked@,
        ),
{
    let ghost ev = es@.map_values(|e: Entity| entity_view(e));
    let mut kept: Vec<Entity> = Vec::new();
    let mut i: usize = 0;
    assert(ev.take(0) =~= Seq::<(Seq<char>, usize, usize)>::empty());
    while i < es.len()
        invariant
            i <= es.len(),
            ev == es@.map_values(|e: Entity| entity_view(e)),
            kept@.map_values(|e: Entity| entity_view(e)) == outside(ev.take(i as int), blocked@),
        decreases es.len() - i,
    {
        assert(ev.take(i + 1).drop_last() =~= ev.take(i as int));
        if !overlaps_exec(es[i].1, es[i].2, blocked) {
            let ghost before = kept@.map_values(|e: Entity| entity_view(e));
            let (ref s, a, b) = es[i];
            kept.push((s.clone(), a, b));
            assert(kept@.map_values(|e: Entity| entity_view(e)) =~= before.push(ev[i as int]));
        }
        i += 1;
    }
    assert(ev.take(es.len() as int) =~= ev);
    kept
}

/// The plain content of a report: total, retained, lost facts, and the facts
/// of each type.
pub open spec fn retention_view(r: FactRetention) -> (nat, nat, Seq<Seq<char>>, Seq<Seq<Seq<char>>>) {
    (
        r.total_facts as nat,
        r.retained_facts as nat,
        strs(r.lost_facts@),
        seq![
            strs(r.facts_by_type.number@),
            strs(r.facts_by_type.unit@),
            strs(r.facts_by_type.path@),
            strs(r.facts_by_type.version@),
            strs(r.facts_by_type.error_code@),
            strs(r.facts_by_type.proper_noun@),
        ],
    )
}

/// The plain content of some matches.
pub open spec fn entities_view(v: Seq<Entity>) -> Seq<(Seq<char>, usize, usize)> {
    v.map_values(|e: Entity| entity_view(e))
}

/// Which facts survive in `compressed`, given the matches of every type found
/// in the original: a fact survives when it occurs in `compressed`.
pub fn retention_of(
    numbers: &Vec<Entity>,
    units: &Vec<Entity>,
    paths: &Vec<Entity>,
    versions: &Vec<Entity>,
    error_codes: &Vec<Entity>,
    proper_nouns: &Vec<Entity>,
    compressed: &str,
) -> (r: FactRetention)
    ensures
        ({
            let m = MatchSets {
                numbers: entities_view(numbers@),
                units: entities_view(units@),
                paths: entities_view(paths@),
                versions: entities_view(versions@),
                error_codes: entities_view(error_codes@),
                proper_nouns: entities_view(proper_nouns@),
            };
            let all = all_facts_of(m);
            let lost = sort_spec(missing(all, compressed@));
            retention_view(r) == (all.len(), (all.len() - lost.len()) as nat, lost, facts_of(m))
        }),
{
    let ghost m = MatchSets {
        numbers: entities_view(numbers@),
        units: entities_view(units@),
        paths: entities_view(paths@),
        versions: entities_view(versions@),
        error_codes: entities_view(error_codes@),
        proper_nouns: entities_view(proper_nouns@),
    };
    // each type without the spans of higher-priority types
    let mut blocked: Vec<(usize, usize)> = Vec::new();
    ranges_of(units, &mut blocked);
    assert(blocked@ =~= ranges_above(m, 1));
    let paths_kept = keep_outside(paths, &blocked);
    ranges_of(paths, &mut blocked);
    assert(blocked@ =~= ranges_above(m, 2));
    let versions_kept = keep_outside(versions, &blocked);
    ranges_of(versions, &mut blocked);
    assert(blocked@ =~= ranges_above(m, 3));
    let error_codes_kept = keep_outside(error_codes, &blocked);
    ranges_of(error_codes, &mut blocked);
    assert(blocked@ =~= ranges_above(m, 4));
    let proper_nouns_kept = keep_outside(proper_nouns, &blocked);
    ranges_of(proper_nouns, &mut blocked);
    assert(blocked@ =~= ranges_above(m, 5));
    let numbers_kept = keep_outside(numbers, &blocked);
    // each type distinct and sorted
    let number_facts = dedupe_sort(&numbers_kept);
    let unit_facts = dedupe_sort(units);
    let path_facts = dedupe_sort(&paths_kept);
    let version_facts = dedupe_sort(&versions_kept);
    let error_code_facts = dedupe_sort(&error_codes_kept);
    let proper_noun_facts = dedupe_sort(&proper_nouns_kept);
    // all facts
    let mut all: Vec<Vec<char>> = Vec::new();
    append_strings(&mut all, &number_facts);
    append_strings(&mut all, &unit_facts);
    append_strings(&mut all, &path_facts);
    append_strings(&mut all, &version_facts);
    append_strings(&mut all, &error_code_facts);
    append_strings(&mut all, &proper_noun_facts);
    let ghost av = all@.map_values(|v: Vec<char>| v@);
    assert(av =~= all_facts_of(m));
    let total_facts = all.len();
    // facts not found in the compressed text
    let comp = to_chars(compressed);
    let mut missing_v: Vec<Vec<char>> = Vec::new();
    let mut k: usize = 0;
    assert(av.take(0) =~= Seq::<Seq<char>>::empty());
    while k < all.len()
        invariant
            k <= all.len(),
            av == all@.map_values(|v: Vec<char>| v@),
            comp@ == compressed@,
            missing_v@.map_values(|v: Vec<char>| v@) == missing(av.take(k as int), compressed@),
            missing_v.len() <= k,
        decreases all.len() - k,
    {
        assert(av.take(k + 1).drop_last() =~= av.take(k as int));
        if !contains_exec(&comp, &all[k]) {
            let ghost before = missing_v@.map_values(|v: Vec<char>| v@);
            missing_v.push(all[k].clone());
            assert(missing_v@.map_values(|v: Vec<char>| v@) =~= before.push(av[k as int]));
        }
        k += 1;
    }
    assert(av.take(all.len() as int) =~= av);
    let lost_sorted = sort_exec(&missing_v);
    proof {
        lemma_sort_len(missing_v@.map_values(|v: Vec<char>| v@));
    }
    let lost_facts = strings_of(&lost_sorted);
    let retained_facts = total_facts - lost_facts.len();
    let r = FactRetention {
        total_facts,
        retained_facts,
        lost_facts,
        facts_by_type: FactsByType {
            number: number_facts,
            unit: unit_facts,
            path: path_facts,
            version: version_facts,
            error_code: error_code_facts,
            proper_noun: proper_noun_facts,
        },
    };
    assert(retention_view(r).3 =~= facts_of(m));
    r
}

/// Which facts of `original` survive in `compressed`.
pub fn compute(original: &str, compressed: &str) -> (r: FactRetention)
    ensures
        ({
            let all = all_facts(original@);
            let lost = sort_spec(missing(all, compressed@));
            retention_view(r) == (all.len(), (all.len() - lost.len()) as nat, lost, facts_spec(original@))
        }),
{
    let numbers = extract_numbers_pos(original);
    let units = extract_units_pos(original);
    let paths = extract_paths_pos(original);
    let versions = extract_versions_pos(original);
    let error_codes = extract_error_codes_pos(original);
    let proper_nouns = extract_proper_nouns_pos(original);
    let r = retention_of(&numbers, &units, &paths, &versions, &error_codes, &proper_nouns, compressed);
    assert(matches_in(original@) == (MatchSets {
        numbers: entities_view(numbers@),
        units: entities_view(units@),
        paths: entities_view(paths@),
        versions: entities_view(versions@),
        error_codes: entities_view(error_codes@),
        proper_nouns: entities_view(proper_nouns@),
    }));
    r
}

/// Sorting keeps the length.
pub proof fn lemma_sort_len(s: Seq<Seq<char>>)
    ensures
        sort_spec(s).len() == s.len(),
    decreases s.len(),
{
    if s.len() > 0 {
        lemma_sort_len(s.drop_last());
        lemma_insert_pos_bound(sort_spec(s.drop_last()), s.last(), 0);
    }
}

proof fn lemma_insert_pos_bound(r: Seq<Seq<char>>, x: Seq<char>, k: int)
    requires
        0 <= k,
    ensures
        k <= crate::text::insert_pos(r, x, k) <= r.len() || (k > r.len()
            && crate::text::insert_pos(r, x, k) == r.len()),
    decreases r.len() - k,
{
    if k < r.len() && crate::text::lex_lt(r[k], x) {
        lemma_insert_pos_bound(r, x, k + 1);
    }
}

/// Fact-retention law: no fact is lost exactly when every fact of the
/// original occurs in the compressed text.
pub proof fn law_full_retention(facts: Seq<Seq<char>>, compressed: Seq<char>)
    ensures
        missing(facts, compressed).len() == 0 <==> forall|k: int|
            0 <= k < facts.len() ==> contains(compressed, #[trigger] facts[k]),
    decreases facts.len(),
{
    if facts.len() > 0 {
        let p = facts.drop_last();
        law_full_retention(p, compressed);
        lemma_missing_len(p, compressed);
        if forall|k: int| 0 <= k < facts.len() ==> contains(compressed, #[trigger] facts[k]) {
            assert forall|k: int| 0 <= k < p.len() implies contains(compressed, #[trigger] p[k]) by {
                assert(p[k] == facts[k]);
            }
            assert(contains(compressed, facts[facts.len() - 1]));
        }
        if missing(facts, compressed).len() == 0 {
            assert forall|k: int| 0 <= k < facts.len() implies contains(
                compressed,
                #[trigger] facts[k],
            ) by {
                if k < p.len() {
                    assert(p[k] == facts[k]);
                }
            }
        }
    }
}

proof fn lemma_missing_len(facts: Seq<Seq<char>>, compressed: Seq<char>)
    ensures
        missing(facts, compressed).len() <= facts.len(),
    decreases facts.len(),
{
    if facts.len() > 0 {
        lemma_missing_len(facts.drop_last(), compressed);
    }
}

} // verus!
