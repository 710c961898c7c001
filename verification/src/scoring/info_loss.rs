//! Information loss at sentence level.
//!
//! Each original sentence is compared with every compressed sentence by the
//! Jaccard similarity of their token sets; a sentence whose best similarity is
//! below 0.3 counts as lost.
use vstd::prelude::*;

use crate::ext::{is_alphanumeric, unicode_alphanumeric};
use crate::text::{from_chars, to_chars, trim, trim_exec};

verus! {

/// Sentence end marks that stay with their sentence.
pub open spec fn is_end_mark(c: char) -> bool {
    c == '。' || c == '！' || c == '？'
}

/// Adds a piece, trimmed, unless it is blank.
pub open spec fn push_piece(ps: Seq<Seq<char>>, p: Seq<char>) -> Seq<Seq<char>> {
    if trim(p).len() > 0 {
        ps.push(trim(p))
    } else {
        ps
    }
}

/// Sentences finished so far and the sentence being read, after reading `s`.
pub open spec fn sentence_state(s: Seq<char>) -> (Seq<Seq<char>>, Seq<char>)
    decreases s.len(),
{
    if s.len() == 0 {
        (Seq::empty(), Seq::empty())
    } else {
        let (ps, cur) = sentence_state(s.drop_last());
        let c = s.last();
        if is_end_mark(c) {
            (push_piece(ps, cur.push(c)), Seq::empty())
        } else if c == '\n' {
            (push_piece(ps, cur), Seq::empty())
        } else {
            (ps, cur.push(c))
        }
    }
}

/// The sentences of `s`: cut after `。！？` (kept) and at line breaks
/// (dropped), trimmed, blank ones left out.
pub open spec fn sentences_spec(s: Seq<char>) -> Seq<Seq<char>> {
    push_piece(sentence_state(s).0, sentence_state(s).1)
}

/// ASCII letters and digits.
pub open spec fn is_ascii_alnum(c: char) -> bool {
    ('a' <= c && c <= 'z') || ('A' <= c && c <= 'Z') || ('0' <= c && c <= '9')
}

/// ASCII lower-casing.
pub open spec fn ascii_lower(c: char) -> char {
    if 'A' <= c && c <= 'Z' {
        ((c as u32) + 32) as char
    } else {
        c
    }
}

/// Tokens finished so far and the ASCII word being read, after reading `s`.
pub open spec fn token_state(s: Seq<char>) -> (Seq<Seq<char>>, Seq<char>)
    decreases s.len(),
{
    if s.len() == 0 {
        (Seq::empty(), Seq::empty())
    } else {
        let (ts, cur) = token_state(s.drop_last());
        let c = s.last();
        if is_ascii_alnum(c) {
            (ts, cur.push(ascii_lower(c)))
        } else {
            let ts1 = if cur.len() > 0 { ts.push(cur) } else { ts };
            if unicode_alphanumeric(c) {
                (ts1.push(seq![c]), Seq::empty())
            } else {
                (ts1, Seq::empty())
            }
        }
    }
}

/// The tokens of `s`: runs of ASCII letters and digits, lower-cased; every
/// other alphanumeric character (such as a Chinese character) on its own;
/// punctuation and whitespace separate tokens and are dropped.
pub open spec fn tokens_spec(s: Seq<char>) -> Seq<Seq<char>> {
    let (ts, cur) = token_state(s);
    if cur.len() > 0 {
        ts.push(cur)
    } else {
        ts
    }
}

/// The distinct elements of `s`, in order of first occurrence.
pub open spec fn distinct(s: Seq<Seq<char>>) -> Seq<Seq<char>>
    decreases s.len(),
{
    if s.len() == 0 {
        s
    } else {
        let d = distinct(s.drop_last());
        if d.contains(s.last()) {
            d
        } else {
            d.push(s.last())
        }
    }
}

/// How many elements of `d` occur in `b`.
pub open spec fn count_in(d: Seq<Seq<char>>, b: Seq<Seq<char>>) -> nat
    decreases d.len(),
{
    if d.len() == 0 {
        0
    } else {
        count_in(d.drop_last(), b) + if b.contains(d.last()) {
            1nat
        } else {
            0nat
        }
    }
}

/// How many elements of `d` do not occur in `a`.
pub open spec fn count_not_in(d: Seq<Seq<char>>, a: Seq<Seq<char>>) -> nat
    decreases d.len(),
{
    if d.len() == 0 {
        0
    } else {
        count_not_in(d.drop_last(), a) + if a.contains(d.last()) {
            0nat
        } else {
            1nat
        }
    }
}

/// The sizes of the intersection and of the union of the token sets of `a`
/// and `b`: |A ∩ B| and |A| + |B \ A|.
pub open spec fn jaccard_counts(a: Seq<Seq<char>>, b: Seq<Seq<char>>) -> (nat, nat) {
    let da = distinct(a);
    let db = distinct(b);
    (count_in(da, b), da.len() + count_not_in(db, a))
}

/// The similarity of `a` and `b` is below 0.3 (0 when either is empty).
pub open spec fn below_threshold(a: Seq<Seq<char>>, b: Seq<Seq<char>>) -> bool {
    let (i, u) = jaccard_counts(a, b);
    a.len() == 0 || b.len() == 0 || u == 0 || 10 * i < 3 * u
}

/// A sentence is lost when it is below the threshold against every
/// compressed sentence.
pub open spec fn is_lost(sentence: Seq<char>, compressed: Seq<Seq<char>>) -> bool {
    forall|j: int|
        0 <= j < compressed.len() ==> below_threshold(
            tokens_spec(sentence),
            tokens_spec(#[trigger] compressed[j]),
        )
}

/// The lost sentences among `orig`, in order.
pub open spec fn lost_spec(orig: Seq<Seq<char>>, compressed: Seq<Seq<char>>) -> Seq<Seq<char>>
    decreases orig.len(),
{
    if orig.len() == 0 {
        orig
    } else {
        let r = lost_spec(orig.drop_last(), compressed);
        if is_lost(orig.last(), compressed) {
            r.push(orig.last())
        } else {
            r
        }
    }
}

/// Sentence-level information loss; the loss rate is
/// `lost_sentence_count / total_sentence_count` (0 when there are no sentences).
pub struct InformationLoss {
    pub lost_sentence_count: usize,
    pub total_sentence_count: usize,
    pub lost_sentences: Vec<String>,
}

fn is_end_mark_exec(c: char) -> (b: bool)
    ensures
        b == is_end_mark(c),
{
    c == '。' || c == '！' || c == '？'
}

/// Adds the trimmed piece unless it is blank.
fn push_piece_exec(out: &mut Vec<String>, cur: &Vec<char>)
    ensures
        final(out)@.map_values(|s: String| s@) == push_piece(
            old(out)@.map_values(|s: String| s@),
            cur@,
        ),
{
    let t = trim_exec(cur);
    if t.len() > 0 {
        let ghost before = old(out)@.map_values(|s: String| s@);
        out.push(from_chars(&t));
        assert(out@.map_values(|s: String| s@) =~= before.push(trim(cur@)));
    }
}

/// Splits text into sentences after `。！？` (kept) and at line breaks
/// (dropped); sentences are trimmed and blank ones left out. An English text
/// without these marks is one sentence.
pub fn split_sentences(text: &str) -> (r: Vec<String>)
    ensures
        r@.map_values(|s: String| s@) == sentences_spec(text@),
{
    let chars = to_chars(text);
    let mut result: Vec<String> = Vec::new();
    let mut current: Vec<char> = Vec::new();
    let mut i: usize = 0;
    assert(chars@.take(0) =~= Seq::<char>::empty());
    while i < chars.len()
        invariant
            i <= chars.len(),
            chars@ == text@,
            result@.map_values(|s: String| s@) == sentence_state(chars@.take(i as int)).0,
            current@ == sentence_state(chars@.take(i as int)).1,
        decreases chars.len() - i,
    {
        let ch = chars[i];
        assert(chars@.take(i + 1).drop_last() =~= chars@.take(i as int));
        if is_end_mark_exec(ch) {
            current.push(ch);
            push_piece_exec(&mut result, &current);
            current = Vec::new();
        } else if ch == '\n' {
            push_piece_exec(&mut result, &current);
            current = Vec::new();
        } else {
            current.push(ch);
        }
        i += 1;
    }
    assert(chars@.take(chars.len() as int) =~= chars@);
    push_piece_exec(&mut result, &current);
    result
}

fn is_ascii_alnum_exec(c: char) -> (b: bool)
    ensures
        b == is_ascii_alnum(c),
{
    ('a' <= c && c <= 'z') || ('A' <= c && c <= 'Z') || ('0' <= c && c <= '9')
}

fn ascii_lower_exec(c: char) -> (r: char)
    ensures
        r == ascii_lower(c),
{
    if 'A' <= c && c <= 'Z' {
        let b: u8 = (c as u32 + 32) as u8;
        b as char
    } else {
        c
    }
}

/// Splits text into tokens: runs of ASCII letters and digits (lower-cased),
/// and each other alphanumeric character alone; everything else separates.
pub fn tokenize(text: &str) -> (r: Vec<String>)
    ensures
        r@.map_values(|s: String| s@) == tokens_spec(text@),
{
    let chars = to_chars(text);
    let mut result: Vec<String> = Vec::new();
    let mut current: Vec<char> = Vec::new();
    let mut i: usize = 0;
    assert(chars@.take(0) =~= Seq::<char>::empty());
    while i < chars.len()
        invariant
            i <= chars.len(),
            chars@ == text@,
            result@.map_values(|s: String| s@) == token_state(chars@.take(i as int)).0,
            current@ == token_state(chars@.take(i as int)).1,
        decreases chars.len() - i,
    {
        let ch = chars[i];
        assert(chars@.take(i + 1).drop_last() =~= chars@.take(i as int));
        let ghost before = result@.map_values(|s: String| s@);
        if is_ascii_alnum_exec(ch) {
            current.push(ascii_lower_exec(ch));
        } else {
            if current.len() > 0 {
                result.push(from_chars(&current));
                assert(result@.map_values(|s: String| s@) =~= before.push(current@));
                current = Vec::new();
            }
            let ghost mid = result@.map_values(|s: String| s@);
            if is_alphanumeric(ch) {
                let mut one: Vec<char> = Vec::new();
                one.push(ch);
                result.push(from_chars(&one));
                assert(one@ =~= seq![ch]);
                assert(result@.map_values(|s: String| s@) =~= mid.push(seq![ch]));
            }
        }
        i += 1;
    }
    assert(chars@.take(chars.len() as int) =~= chars@);
    if current.len() > 0 {
        let ghost before = result@.map_values(|s: String| s@);
        result.push(from_chars(&current));
        assert(result@.map_values(|s: String| s@) =~= before.push(current@));
    }
    result
}

/// Whether `v` holds a token equal to `w`.
fn holds(v: &Vec<Vec<char>>, w: &Vec<char>) -> (b: bool)
    ensures
        b == v@.map_values(|x: Vec<char>| x@).contains(w@),
{
    let ghost vv = v@.map_values(|x: Vec<char>| x@);
    let mut i: usize = 0;
    while i < v.len()
        invariant
            i <= v.len(),
            vv == v@.map_values(|x: Vec<char>| x@),
            forall|k: int| 0 <= k < i ==> vv[k] != w@,
        decreases v.len() - i,
    {
        if crate::text::seq_eq(&v[i], w) {
            assert(vv[i as int] == w@);
            return true;
        }
        i += 1;
    }
    proof {
        if vv.contains(w@) {
            let k = choose|k: int| 0 <= k < vv.len() && vv[k] == w@;
            assert(vv[k] != w@);
        }
    }
    false
}

/// The tokens as character vectors.
fn token_chars(a: &Vec<String>) -> (r: Vec<Vec<char>>)
    ensures
        r@.map_values(|x: Vec<char>| x@) == a@.map_values(|s: String| s@),
{
    let mut r: Vec<Vec<char>> = Vec::new();
    let mut i: usize = 0;
    while i < a.len()
        invariant
            i <= a.len(),
            r@.len() == i,
            forall|k: int| 0 <= k < i ==> #[trigger] r@[k]@ == a@[k]@,
        decreases a.len() - i,
    {
        r.push(to_chars(a[i].as_str()));
        i += 1;
    }
    assert(r@.map_values(|x: Vec<char>| x@) =~= a@.map_values(|s: String| s@));
    r
}

/// The distinct tokens, in order of first occurrence.
fn distinct_exec(a: &Vec<Vec<char>>) -> (r: Vec<Vec<char>>)
    ensures
        r@.map_values(|x: Vec<char>| x@) == distinct(a@.map_values(|x: Vec<char>| x@)),
{
    let ghost av = a@.map_values(|x: Vec<char>| x@);
    let mut r: Vec<Vec<char>> = Vec::new();
    let mut i: usize = 0;
    assert(av.take(0) =~= Seq::<Seq<char>>::empty());
    while i < a.len()
        invariant
            i <= a.len(),
            av == a@.map_values(|x: Vec<char>| x@),
            r@.map_values(|x: Vec<char>| x@) == distinct(av.take(i as int)),
        decreases a.len() - i,
    {
        assert(av.take(i + 1).drop_last() =~= av.take(i as int));
        if !holds(&r, &a[i]) {
            let ghost before = r@.map_values(|x: Vec<char>| x@);
            r.push(a[i].clone());
            assert(r@.map_values(|x: Vec<char>| x@) =~= before.push(av[i as int]));
        }
        i += 1;
    }
    assert(av.take(a.len() as int) =~= av);
    r
}

/// The sizes of the intersection of the two token sets, of the first set,
/// and of the second set without the first: the union's size is the sum of
/// the last two.
pub fn jaccard_parts(a: &Vec<String>, b: &Vec<String>) -> (r: (usize, usize, usize))
    ensures
        ({
            let av = a@.map_values(|s: String| s@);
            let bv = b@.map_values(|s: String| s@);
            let (i, u) = jaccard_counts(av, bv);
            &&& r.0 == i
            &&& r.1 == distinct(av).len()
            &&& r.2 == count_not_in(distinct(bv), av)
            &&& r.1 + r.2 == u
        }),
{
    let ac = token_chars(a);
    let bc = token_chars(b);
    let da = distinct_exec(&ac);
    let db = distinct_exec(&bc);
    let ghost dav = da@.map_values(|x: Vec<char>| x@);
    let ghost bv = b@.map_values(|s: String| s@);
    let mut inter: usize = 0;
    let mut i: usize = 0;
    assert(dav.take(0) =~= Seq::<Seq<char>>::empty());
    while i < da.len()
        invariant
            i <= da.len(),
            dav == da@.map_values(|x: Vec<char>| x@),
            bv == bc@.map_values(|x: Vec<char>| x@),
            inter as nat == count_in(dav.take(i as int), bv),
            inter <= i,
        decreases da.len() - i,
    {
        assert(dav.take(i + 1).drop_last() =~= dav.take(i as int));
        if holds(&bc, &da[i]) {
            inter += 1;
        }
        i += 1;
    }
    assert(dav.take(da.len() as int) =~= dav);
    let ghost dbv = db@.map_values(|x: Vec<char>| x@);
    let ghost av = a@.map_values(|s: String| s@);
    let mut extra: usize = 0;
    let mut j: usize = 0;
    assert(dbv.take(0) =~= Seq::<Seq<char>>::empty());
    while j < db.len()
        invariant
            j <= db.len(),
            dbv == db@.map_values(|x: Vec<char>| x@),
            av == ac@.map_values(|x: Vec<char>| x@),
            extra as nat == count_not_in(dbv.take(j as int), av),
            extra <= j,
        decreases db.len() - j,
    {
        assert(dbv.take(j + 1).drop_last() =~= dbv.take(j as int));
        if !holds(&ac, &db[j]) {
            extra += 1;
        }
        j += 1;
    }
    assert(dbv.take(db.len() as int) =~= dbv);
    (inter, da.len(), extra)
}

/// The plain content of an information-loss report.
pub open spec fn loss_view(l: InformationLoss) -> (nat, nat, Seq<Seq<char>>) {
    (
        l.lost_sentence_count as nat,
        l.total_sentence_count as nat,
        l.lost_sentences@.map_values(|s: String| s@),
    )
}

/// Whether the similarity of two token lists is below 0.3.
fn below_threshold_exec(a: &Vec<String>, b: &Vec<String>) -> (r: bool)
    ensures
        r == below_threshold(a@.map_values(|s: String| s@), b@.map_values(|s: String| s@)),
{
    if a.len() == 0 || b.len() == 0 {
        return true;
    }
    let (inter, da, extra) = jaccard_parts(a, b);
    let union = (da as u128) + (extra as u128);
    if union == 0 {
        return true;
    }
    10 * (inter as u128) < 3 * union
}

/// Information loss of `compressed` relative to `original`.
pub fn compute(original: &str, compressed: &str) -> (r: InformationLoss)
    ensures
        ({
            let orig = sentences_spec(original@);
            let lost = lost_spec(orig, sentences_spec(compressed@));
            loss_view(r) == (lost.len(), orig.len(), lost)
        }),
{
    let orig = split_sentences(original);
    let comp = split_sentences(compressed);
    let ghost ov = orig@.map_values(|s: String| s@);
    let ghost cv = comp@.map_values(|s: String| s@);
    let mut comp_tokens: Vec<Vec<String>> = Vec::new();
    let mut j: usize = 0;
    while j < comp.len()
        invariant
            j <= comp.len(),
            cv == comp@.map_values(|s: String| s@),
            comp_tokens@.len() == j,
            forall|k: int|
                0 <= k < j ==> (#[trigger] comp_tokens@[k])@.map_values(|s: String| s@)
                    == tokens_spec(cv[k]),
        decreases comp.len() - j,
    {
        comp_tokens.push(tokenize(comp[j].as_str()));
        j += 1;
    }
    let mut lost: Vec<String> = Vec::new();
    let mut i: usize = 0;
    assert(ov.take(0) =~= Seq::<Seq<char>>::empty());
    while i < orig.len()
        invariant
            i <= orig.len(),
            ov == orig@.map_values(|s: String| s@),
            cv == comp@.map_values(|s: String| s@),
            comp_tokens@.len() == comp.len(),
            forall|k: int|
                0 <= k < comp.len() ==> (#[trigger] comp_tokens@[k])@.map_values(|s: String| s@)
                    == tokens_spec(cv[k]),
            lost@.map_values(|s: String| s@) == lost_spec(ov.take(i as int), cv),
            lost.len() <= i,
        decreases orig.len() - i,
    {
        let tokens = tokenize(orig[i].as_str());
        let mut all_below = true;
        let mut k: usize = 0;
        while k < comp_tokens.len()
            invariant
                k <= comp_tokens.len(),
                comp_tokens@.len() == comp.len(),
                cv == comp@.map_values(|s: String| s@),
                forall|m: int|
                    0 <= m < comp.len() ==> (#[trigger] comp_tokens@[m])@.map_values(
                        |s: String| s@,
                    ) == tokens_spec(cv[m]),
                tokens@.map_values(|s: String| s@) == tokens_spec(ov[i as int]),
                ov == orig@.map_values(|s: String| s@),
                i < orig.len(),
                all_below == forall|m: int|
                    0 <= m < k ==> below_threshold(
                        tokens_spec(ov[i as int]),
                        tokens_spec(#[trigger] cv[m]),
                    ),
            decreases comp_tokens.len() - k,
        {
            let b = below_threshold_exec(&tokens, &comp_tokens[k]);
            proof {
                if !b {
                    assert(!below_threshold(tokens_spec(ov[i as int]), tokens_spec(cv[k as int])));
                }
            }
            all_below = all_below && b;
            k += 1;
        }
        assert(all_below == is_lost(ov[i as int], cv));
        assert(ov.take(i + 1).drop_last() =~= ov.take(i as int));
        if all_below {
            let ghost before = lost@.map_values(|s: String| s@);
            lost.push(orig[i].clone());
            assert(lost@.map_values(|s: String| s@) =~= before.push(ov[i as int]));
        }
        i += 1;
    }
    assert(ov.take(orig.len() as int) =~= ov);
    InformationLoss {
        lost_sentence_count: lost.len(),
        total_sentence_count: orig.len(),
        lost_sentences: lost,
    }
}

// ==================== laws ====================

proof fn lemma_distinct_from(a: Seq<Seq<char>>)
    ensures
        forall|k: int| 0 <= k < distinct(a).len() ==> a.contains(#[trigger] distinct(a)[k]),
        a.len() > 0 ==> distinct(a).len() > 0,
    decreases a.len(),
{
    if a.len() > 0 {
        let p = a.drop_last();
        lemma_distinct_from(p);
        let d = distinct(p);
        assert forall|k: int| 0 <= k < distinct(a).len() implies a.contains(
            #[trigger] distinct(a)[k],
        ) by {
            if k < d.len() {
                let x = d[k];
                let w = choose|w: int| 0 <= w < p.len() && p[w] == x;
                assert(a[w] == x);
            } else {
                assert(a[a.len() - 1] == a.last());
            }
        }
        if !d.contains(a.last()) {
            assert(distinct(a).len() == d.len() + 1);
        } else {
            assert(d.len() > 0);
        }
    }
}

proof fn lemma_counts_all_in(d: Seq<Seq<char>>, a: Seq<Seq<char>>)
    requires
        forall|k: int| 0 <= k < d.len() ==> a.contains(#[trigger] d[k]),
    ensures
        count_in(d, a) == d.len(),
        count_not_in(d, a) == 0,
    decreases d.len(),
{
    if d.len() > 0 {
        let p = d.drop_last();
        assert forall|k: int| 0 <= k < p.len() implies a.contains(#[trigger] p[k]) by {
            assert(p[k] == d[k]);
        }
        lemma_counts_all_in(p, a);
        assert(a.contains(d[d.len() - 1]));
    }
}

/// A sentence compared with itself is similar enough (as soon as it has a
/// token): its similarity is 1.
pub proof fn law_self_similar(a: Seq<Seq<char>>)
    requires
        a.len() > 0,
    ensures
        !below_threshold(a, a),
{
    lemma_distinct_from(a);
    lemma_counts_all_in(distinct(a), a);
}

/// Information-loss law: an original sentence that the compressed text keeps
/// verbatim, as one of its sentences, is never counted as lost (provided it
/// has a token at all).
pub proof fn law_verbatim_sentence_kept(sentence: Seq<char>, compressed: Seq<Seq<char>>)
    requires
        compressed.contains(sentence),
        tokens_spec(sentence).len() > 0,
    ensures
        !is_lost(sentence, compressed),
{
    let j = choose|j: int| 0 <= j < compressed.len() && compressed[j] == sentence;
    law_self_similar(tokens_spec(sentence));
    assert(!below_threshold(tokens_spec(sentence), tokens_spec(compressed[j])));
}

/// Never more sentences are lost than there are: the loss rate is at most 1.
pub proof fn law_lost_at_most_total(orig: Seq<Seq<char>>, compressed: Seq<Seq<char>>)
    ensures
        lost_spec(orig, compressed).len() <= orig.len(),
    decreases orig.len(),
{
    if orig.len() > 0 {
        law_lost_at_most_total(orig.drop_last(), compressed);
    }
}

/// Information-loss law for a whole text: when every original sentence has a
/// token and is kept verbatim among the compressed sentences (as when a text
/// is compared with itself), no sentence is lost.
pub proof fn law_all_kept_none_lost(orig: Seq<Seq<char>>, compressed: Seq<Seq<char>>)
    requires
        forall|i: int| 0 <= i < orig.len() ==> compressed.contains(#[trigger] orig[i]),
        forall|i: int| 0 <= i < orig.len() ==> tokens_spec(#[trigger] orig[i]).len() > 0,
    ensures
        lost_spec(orig, compressed).len() == 0,
    decreases orig.len(),
{
    if orig.len() > 0 {
        let p = orig.drop_last();
        assert forall|i: int| 0 <= i < p.len() implies compressed.contains(#[trigger] p[i]) by {
            assert(p[i] == orig[i]);
        }
        assert forall|i: int| 0 <= i < p.len() implies tokens_spec(#[trigger] p[i]).len() > 0 by {
            assert(p[i] == orig[i]);
        }
        law_all_kept_none_lost(p, compressed);
        assert(orig[orig.len() - 1] == orig.last());
        law_verbatim_sentence_kept(orig.last(), compressed);
    }
}

proof fn lemma_distinct_set(a: Seq<Seq<char>>)
    ensures
        distinct(a).no_duplicates(),
        distinct(a).to_set() == a.to_set(),
    decreases a.len(),
{
    if a.len() == 0 {
        assert(distinct(a).to_set() =~= a.to_set());
    } else {
        let p = a.drop_last();
        let x = a.last();
        lemma_distinct_set(p);
        let d = distinct(p);
        assert(a =~= p.push(x));
        p.lemma_push_to_set_commute(x);
        if d.contains(x) {
            assert(p.to_set().contains(x));
            assert(a.to_set() =~= p.to_set());
        } else {
            d.lemma_push_to_set_commute(x);
            assert(d.push(x).to_set() =~= a.to_set());
            assert forall|i: int, j: int|
                0 <= i < d.push(x).len() && 0 <= j < d.push(x).len() && i != j implies d.push(x)[i]
                != d.push(x)[j] by {
                if i < d.len() && j < d.len() {
                } else if i < d.len() {
                    assert(d.contains(d[i]));
                } else if j < d.len() {
                    assert(d.contains(d[j]));
                }
            }
        }
    }
}

proof fn lemma_count_in_set(d: Seq<Seq<char>>, b: Seq<Seq<char>>)
    requires
        d.no_duplicates(),
    ensures
        count_in(d, b) == d.to_set().intersect(b.to_set()).len(),
    decreases d.len(),
{
    broadcast use vstd::seq_lib::seq_to_set_is_finite;
    if d.len() == 0 {
        assert(d.to_set().intersect(b.to_set()) =~= Set::<Seq<char>>::empty());
    } else {
        let p = d.drop_last();
        let x = d.last();
        assert(d =~= p.push(x));
        assert forall|i: int, j: int| 0 <= i < p.len() && 0 <= j < p.len() && i != j implies p[i]
            != p[j] by {
            assert(p[i] == d[i] && p[j] == d[j]);
        }
        lemma_count_in_set(p, b);
        p.lemma_push_to_set_commute(x);
        let pb = p.to_set().intersect(b.to_set());
        assert(pb.finite());
        assert(!p.to_set().contains(x)) by {
            if p.contains(x) {
                let w = choose|w: int| 0 <= w < p.len() && p[w] == x;
                assert(d[w] == d[d.len() - 1]);
            }
        }
        if b.contains(x) {
            assert(d.to_set().intersect(b.to_set()) =~= pb.insert(x));
        } else {
            assert(d.to_set().intersect(b.to_set()) =~= pb);
        }
    }
}

proof fn lemma_count_not_in_set(d: Seq<Seq<char>>, a: Seq<Seq<char>>)
    requires
        d.no_duplicates(),
    ensures
        count_not_in(d, a) == d.to_set().difference(a.to_set()).len(),
    decreases d.len(),
{
    broadcast use vstd::seq_lib::seq_to_set_is_finite;
    if d.len() == 0 {
        assert(d.to_set().difference(a.to_set()) =~= Set::<Seq<char>>::empty());
    } else {
        let p = d.drop_last();
        let x = d.last();
        assert(d =~= p.push(x));
        assert forall|i: int, j: int| 0 <= i < p.len() && 0 <= j < p.len() && i != j implies p[i]
            != p[j] by {
            assert(p[i] == d[i] && p[j] == d[j]);
        }
        lemma_count_not_in_set(p, a);
        p.lemma_push_to_set_commute(x);
        let pa = p.to_set().difference(a.to_set());
        assert(pa.finite());
        assert(!p.to_set().contains(x)) by {
            if p.contains(x) {
                let w = choose|w: int| 0 <= w < p.len() && p[w] == x;
                assert(d[w] == d[d.len() - 1]);
            }
        }
        if a.contains(x) {
            assert(d.to_set().difference(a.to_set()) =~= pa);
        } else {
            assert(d.to_set().difference(a.to_set()) =~= pa.insert(x));
        }
    }
}

/// Jaccard law: the counts compared with the threshold are the sizes of the
/// intersection and of the union of the two token sets, so two token lists
/// are below the threshold exactly when their Jaccard similarity
/// `|A ∩ B| / |A ∪ B|` is below 0.3 (an empty union counting as 0).
pub proof fn law_below_threshold_is_jaccard(a: Seq<Seq<char>>, b: Seq<Seq<char>>)
    ensures
        below_threshold(a, b) <==> ({
            let sa = a.to_set();
            let sb = b.to_set();
            sa.union(sb).len() == 0 || 10 * sa.intersect(sb).len() < 3 * sa.union(sb).len()
        }),
{
    broadcast use vstd::seq_lib::seq_to_set_is_finite;
    let sa = a.to_set();
    let sb = b.to_set();
    lemma_distinct_set(a);
    lemma_distinct_set(b);
    lemma_count_in_set(distinct(a), b);
    lemma_count_not_in_set(distinct(b), a);
    distinct(a).unique_seq_to_set();
    let diff = sb.difference(sa);
    assert(sa.union(sb) =~= sa + diff);
    assert(sa.disjoint(diff));
    vstd::set_lib::lemma_set_disjoint_lens(sa, diff);
    if a.len() == 0 {
        assert(sa.intersect(sb) =~= Set::<Seq<char>>::empty());
    }
    if b.len() == 0 {
        assert(sa.intersect(sb) =~= Set::<Seq<char>>::empty());
    }
    if a.len() > 0 {
        assert(sa.contains(a[0]));
        assert(sa.union(sb).contains(a[0]));
        vstd::set_lib::lemma_set_empty_equivalency_len(sa.union(sb));
    }
}

/// Information-loss law: an original sentence is lost exactly when, against
/// every compressed sentence, the Jaccard similarity of their token sets is
/// below 0.3 (`10 |A ∩ B| < 3 |A ∪ B|`, an empty union counting as 0). A
/// sentence sharing 3 of its 4 distinct tokens with a compressed sentence of
/// no other token is therefore kept.
pub proof fn law_lost_iff_dissimilar(sentence: Seq<char>, compressed: Seq<Seq<char>>)
    ensures
        is_lost(sentence, compressed) <==> forall|j: int|
            0 <= j < compressed.len() ==> {
                let sa = tokens_spec(sentence).to_set();
                let sb = tokens_spec(#[trigger] compressed[j]).to_set();
                sa.union(sb).len() == 0 || 10 * sa.intersect(sb).len() < 3 * sa.union(sb).len()
            },
{
    assert forall|j: int| 0 <= j < compressed.len() implies below_threshold(
        tokens_spec(sentence),
        tokens_spec(#[trigger] compressed[j]),
    ) == ({
        let sa = tokens_spec(sentence).to_set();
        let sb = tokens_spec(compressed[j]).to_set();
        sa.union(sb).len() == 0 || 10 * sa.intersect(sb).len() < 3 * sa.union(sb).len()
    }) by {
        law_below_threshold_is_jaccard(tokens_spec(sentence), tokens_spec(compressed[j]));
    }
}

/// Lost-sentence law: the lost sentences are exactly the original sentences
/// that are lost against the compressed ones, in their original order.
pub proof fn law_lost_are_the_dissimilar(orig: Seq<Seq<char>>, compressed: Seq<Seq<char>>)
    ensures
        forall|k: int|
            0 <= k < lost_spec(orig, compressed).len() ==> orig.contains(
                #[trigger] lost_spec(orig, compressed)[k],
            ) && is_lost(lost_spec(orig, compressed)[k], compressed),
        forall|i: int|
            0 <= i < orig.len() && is_lost(#[trigger] orig[i], compressed) ==> lost_spec(
                orig,
                compressed,
            ).contains(orig[i]),
    decreases orig.len(),
{
    if orig.len() > 0 {
        let p = orig.drop_last();
        law_lost_are_the_dissimilar(p, compressed);
        let r = lost_spec(p, compressed);
        let l = lost_spec(orig, compressed);
        assert forall|k: int| 0 <= k < l.len() implies orig.contains(#[trigger] l[k]) && is_lost(
            l[k],
            compressed,
        ) by {
            if k < r.len() {
                assert(l[k] == r[k]);
                let w = choose|w: int| 0 <= w < p.len() && p[w] == r[k];
                assert(orig[w] == p[w]);
            } else {
                assert(orig[orig.len() - 1] == orig.last());
            }
        }
        assert forall|i: int| 0 <= i < orig.len() && is_lost(#[trigger] orig[i], compressed) implies l.contains(
            orig[i],
        ) by {
            if i < p.len() {
                assert(orig[i] == p[i]);
                assert(r.contains(p[i]));
                let w = choose|w: int| 0 <= w < r.len() && r[w] == p[i];
                assert(l[w] == r[w]);
            } else {
                assert(orig[i] == orig.last());
                assert(l[l.len() - 1] == orig.last());
            }
        }
    }
}

} // verus!
