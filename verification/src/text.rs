//! Character-sequence utilities shared by the whole library.
//!
//! Text is handled as `Vec<char>` inside the library; a `String` or `&str`
//! has the same view (`Seq<char>`), so conversions keep the view unchanged.
use vstd::prelude::*;

verus! {

// ===================== specifications =====================

/// `pat` occurs in `s` starting at position `i`.
pub open spec fn occurs_at(s: Seq<char>, pat: Seq<char>, i: int) -> bool {
    0 <= i && i + pat.len() <= s.len() && s.subrange(i, i + pat.len()) == pat
}

/// `s` starts with `pat`.
pub open spec fn starts_with(s: Seq<char>, pat: Seq<char>) -> bool {
    occurs_at(s, pat, 0)
}

/// `s` ends with `pat`.
pub open spec fn ends_with(s: Seq<char>, pat: Seq<char>) -> bool {
    pat.len() <= s.len() && s.subrange(s.len() - pat.len(), s.len() as int) == pat
}

/// `pat` occurs somewhere in `s` (the empty pattern occurs everywhere).
pub open spec fn contains(s: Seq<char>, pat: Seq<char>) -> bool {
    exists|i: int| occurs_at(s, pat, i)
}

/// The first position at or after `from` where `pat` occurs in `s`, if any.
pub open spec fn find_from(s: Seq<char>, pat: Seq<char>, from: int) -> Option<int>
    decreases s.len() + 1 - from,
{
    if from < 0 || from + pat.len() > s.len() {
        None
    } else if occurs_at(s, pat, from) {
        Some(from)
    } else {
        find_from(s, pat, from + 1)
    }
}

/// The first position where `pat` occurs in `s`, as `str::find` reports it.
pub open spec fn find(s: Seq<char>, pat: Seq<char>) -> Option<int> {
    find_from(s, pat, 0)
}

/// Every non-overlapping occurrence of `pat`, scanning from the left, replaced
/// by `rep` (what `str::replace` does for a non-empty pattern).
pub open spec fn replace_all(s: Seq<char>, pat: Seq<char>, rep: Seq<char>) -> Seq<char>
    decreases s.len(),
{
    if s.len() == 0 || pat.len() == 0 {
        s
    } else if starts_with(s, pat) {
        rep + replace_all(s.skip(pat.len() as int), pat, rep)
    } else {
        seq![s[0]] + replace_all(s.skip(1), pat, rep)
    }
}

/// Unicode `White_Space`, the set that `char::is_whitespace` tests.
pub open spec fn is_ws(c: char) -> bool {
    ||| ('\u{9}' <= c && c <= '\u{d}')
    ||| c == ' '
    ||| c == '\u{85}'
    ||| c == '\u{a0}'
    ||| c == '\u{1680}'
    ||| ('\u{2000}' <= c && c <= '\u{200a}')
    ||| c == '\u{2028}'
    ||| c == '\u{2029}'
    ||| c == '\u{202f}'
    ||| c == '\u{205f}'
    ||| c == '\u{3000}'
}

/// `s` without its leading whitespace.
pub open spec fn trim_start(s: Seq<char>) -> Seq<char>
    decreases s.len(),
{
    if s.len() > 0 && is_ws(s[0]) {
        trim_start(s.drop_first())
    } else {
        s
    }
}

/// `s` without its trailing whitespace.
pub open spec fn trim_end(s: Seq<char>) -> Seq<char>
    decreases s.len(),
{
    if s.len() > 0 && is_ws(s.last()) {
        trim_end(s.drop_last())
    } else {
        s
    }
}

/// `s` without leading and trailing whitespace (`str::trim`).
pub open spec fn trim(s: Seq<char>) -> Seq<char> {
    trim_end(trim_start(s))
}

/// Every character of `s` is whitespace.
pub open spec fn all_ws(s: Seq<char>) -> bool {
    forall|i: int| 0 <= i < s.len() ==> is_ws(#[trigger] s[i])
}

/// The digit character for `d < 10`.
pub open spec fn digit_char(d: nat) -> char {
    if d == 0 { '0' }
    else if d == 1 { '1' }
    else if d == 2 { '2' }
    else if d == 3 { '3' }
    else if d == 4 { '4' }
    else if d == 5 { '5' }
    else if d == 6 { '6' }
    else if d == 7 { '7' }
    else if d == 8 { '8' }
    else { '9' }
}

/// The decimal representation of `n`, as `to_string` writes an unsigned integer.
pub open spec fn decimal(n: nat) -> Seq<char>
    decreases n,
{
    if n < 10 {
        seq![digit_char(n)]
    } else {
        decimal(n / 10).push(digit_char(n % 10))
    }
}

/// The concatenation of all pieces, in order.
pub open spec fn concat(pieces: Seq<Seq<char>>) -> Seq<char>
    decreases pieces.len(),
{
    if pieces.len() == 0 {
        Seq::empty()
    } else {
        concat(pieces.drop_last()) + pieces.last()
    }
}

// ===================== lemmas =====================

pub proof fn lemma_skip_skip(s: Seq<char>, a: int, b: int)
    requires
        0 <= a,
        0 <= b,
        a + b <= s.len(),
    ensures
        s.skip(a).skip(b) == s.skip(a + b),
{
    assert(s.skip(a).skip(b) =~= s.skip(a + b));
}

pub proof fn lemma_occurs_skip(s: Seq<char>, pat: Seq<char>, i: int)
    requires
        0 <= i <= s.len(),
    ensures
        starts_with(s.skip(i), pat) == occurs_at(s, pat, i),
{
    if i + pat.len() <= s.len() {
        assert(s.skip(i).subrange(0, pat.len() as int) =~= s.subrange(i, i + pat.len()));
    }
}

pub proof fn lemma_concat_push(pieces: Seq<Seq<char>>, p: Seq<char>)
    ensures
        concat(pieces.push(p)) == concat(pieces) + p,
{
    assert(pieces.push(p).drop_last() =~= pieces);
}

pub proof fn lemma_trim_start_ws(s: Seq<char>)
    ensures
        all_ws(s) <==> trim_start(s).len() == 0,
    decreases s.len(),
{
    if s.len() > 0 {
        lemma_trim_start_ws(s.drop_first());
        if is_ws(s[0]) {
            if all_ws(s.drop_first()) {
                assert forall|i: int| 0 <= i < s.len() implies is_ws(#[trigger] s[i]) by {
                    if i > 0 {
                        assert(s[i] == s.drop_first()[i - 1]);
                    }
                }
            }
            if all_ws(s) {
                assert forall|i: int| 0 <= i < s.drop_first().len() implies is_ws(
                    #[trigger] s.drop_first()[i],
                ) by {
                    assert(s.drop_first()[i] == s[i + 1]);
                }
            }
        } else {
            assert(!is_ws(s[0]));
        }
    }
}

pub proof fn lemma_trim_end_len(s: Seq<char>)
    ensures
        trim_end(s).len() == 0 <==> all_ws(s),
    decreases s.len(),
{
    if s.len() > 0 {
        lemma_trim_end_len(s.drop_last());
        if is_ws(s.last()) {
            if all_ws(s.drop_last()) {
                assert forall|i: int| 0 <= i < s.len() implies is_ws(#[trigger] s[i]) by {
                    if i < s.len() - 1 {
                        assert(s[i] == s.drop_last()[i]);
                    }
                }
            }
            if all_ws(s) {
                assert forall|i: int| 0 <= i < s.drop_last().len() implies is_ws(
                    #[trigger] s.drop_last()[i],
                ) by {
                    assert(s.drop_last()[i] == s[i]);
                }
            }
        } else {
            assert(!is_ws(s[s.len() - 1]));
        }
    }
}

/// The trimmed text is empty exactly when the text is all whitespace.
pub proof fn lemma_trim_empty(s: Seq<char>)
    ensures
        trim(s).len() == 0 <==> all_ws(s),
    decreases s.len(),
{
    lemma_trim_start_ws(s);
    lemma_trim_end_len(trim_start(s));
    lemma_trim_start_suffix(s);
    let t = trim_start(s);
    if all_ws(t) && t.len() > 0 {
        // t's first character is not whitespace by construction
        lemma_trim_start_head(s);
        assert(is_ws(t[0]));
    }
}

pub proof fn lemma_trim_start_head(s: Seq<char>)
    ensures
        trim_start(s).len() > 0 ==> !is_ws(trim_start(s)[0]),
    decreases s.len(),
{
    if s.len() > 0 && is_ws(s[0]) {
        lemma_trim_start_head(s.drop_first());
    }
}

pub proof fn lemma_trim_start_suffix(s: Seq<char>)
    ensures
        trim_start(s).len() <= s.len(),
        trim_start(s) == s.skip(s.len() - trim_start(s).len()),
    decreases s.len(),
{
    if s.len() > 0 && is_ws(s[0]) {
        lemma_trim_start_suffix(s.drop_first());
        let t = trim_start(s.drop_first());
        assert(s.drop_first().skip(s.drop_first().len() - t.len()) =~= s.skip(s.len() - t.len()));
    } else {
        assert(s.skip(0) =~= s);
    }
}

/// Replacing a pattern by something no longer never lengthens a text.
pub proof fn lemma_replace_shrinks(s: Seq<char>, pat: Seq<char>, rep: Seq<char>)
    requires
        rep.len() <= pat.len(),
    ensures
        replace_all(s, pat, rep).len() <= s.len(),
    decreases s.len(),
{
    if s.len() == 0 || pat.len() == 0 {
    } else if starts_with(s, pat) {
        lemma_replace_shrinks(s.skip(pat.len() as int), pat, rep);
    } else {
        lemma_replace_shrinks(s.skip(1), pat, rep);
    }
}

/// Trimming never lengthens a text.
pub proof fn lemma_trim_shrinks(s: Seq<char>)
    ensures
        trim(s).len() <= s.len(),
{
    lemma_trim_start_suffix(s);
    lemma_trim_end_shrinks(trim_start(s));
}

proof fn lemma_trim_end_shrinks(s: Seq<char>)
    ensures
        trim_end(s).len() <= s.len(),
    decreases s.len(),
{
    if s.len() > 0 && is_ws(s.last()) {
        lemma_trim_end_shrinks(s.drop_last());
    }
}

/// Pieces each no longer than their counterparts concatenate to no more.
pub proof fn lemma_concat_le(a: Seq<Seq<char>>, b: Seq<Seq<char>>)
    requires
        a.len() == b.len(),
        forall|i: int| 0 <= i < a.len() ==> #[trigger] a[i].len() <= b[i].len(),
    ensures
        concat(a).len() <= concat(b).len(),
    decreases a.len(),
{
    if a.len() > 0 {
        lemma_concat_le(a.drop_last(), b.drop_last());
    }
}

/// Replacing a pattern that does not hold `c` keeps every `c`.
pub proof fn lemma_replace_keeps(s: Seq<char>, pat: Seq<char>, rep: Seq<char>, c: char)
    requires
        s.contains(c),
        !pat.contains(c),
    ensures
        replace_all(s, pat, rep).contains(c),
    decreases s.len(),
{
    if s.len() == 0 || pat.len() == 0 {
    } else if starts_with(s, pat) {
        let w = choose|w: int| 0 <= w < s.len() && s[w] == c;
        if w < pat.len() {
            assert(s.subrange(0, pat.len() as int)[w] == s[w]);
            assert(pat[w] == c);
        }
        let rest = s.skip(pat.len() as int);
        assert(rest[w - pat.len()] == c);
        lemma_replace_keeps(rest, pat, rep, c);
        let r = replace_all(rest, pat, rep);
        let v = choose|v: int| 0 <= v < r.len() && r[v] == c;
        assert((rep + r)[rep.len() + v] == c);
    } else {
        let w = choose|w: int| 0 <= w < s.len() && s[w] == c;
        if w == 0 {
            assert((seq![s[0]] + replace_all(s.skip(1), pat, rep))[0] == c);
        } else {
            assert(s.skip(1)[w - 1] == c);
            lemma_replace_keeps(s.skip(1), pat, rep, c);
            let r = replace_all(s.skip(1), pat, rep);
            let v = choose|v: int| 0 <= v < r.len() && r[v] == c;
            assert((seq![s[0]] + r)[1 + v] == c);
        }
    }
}

/// Trimming keeps every character that is not whitespace.
pub proof fn lemma_trim_keeps(s: Seq<char>, c: char)
    requires
        s.contains(c),
        !is_ws(c),
    ensures
        trim(s).contains(c),
{
    lemma_trim_start_keeps(s, c);
    lemma_trim_end_keeps(trim_start(s), c);
}

proof fn lemma_trim_start_keeps(s: Seq<char>, c: char)
    requires
        s.contains(c),
        !is_ws(c),
    ensures
        trim_start(s).contains(c),
    decreases s.len(),
{
    if s.len() > 0 && is_ws(s[0]) {
        let w = choose|w: int| 0 <= w < s.len() && s[w] == c;
        assert(w > 0);
        assert(s.drop_first()[w - 1] == c);
        lemma_trim_start_keeps(s.drop_first(), c);
    }
}

proof fn lemma_trim_end_keeps(s: Seq<char>, c: char)
    requires
        s.contains(c),
        !is_ws(c),
    ensures
        trim_end(s).contains(c),
    decreases s.len(),
{
    if s.len() > 0 && is_ws(s.last()) {
        let w = choose|w: int| 0 <= w < s.len() && s[w] == c;
        assert(w < s.len() - 1);
        assert(s.drop_last()[w] == c);
        lemma_trim_end_keeps(s.drop_last(), c);
    }
}

// ===================== executable functions =====================

/// The characters of `s`, in order.
pub fn to_chars(s: &str) -> (v: Vec<char>)
    ensures
        v@ == s@,
{
    let mut v: Vec<char> = Vec::new();
    for c in it: s.chars()
        invariant
            v@ == it.seq().take(it.index() as int),
            it.seq() == s@,
    {
        v.push(c);
    }
    v
}

/// A `String` holding the characters of `v`.
///
/// Trusted: calls std's `FromIterator<&char> for String`, which appends the
/// characters in order; the contract claims the string's characters are `v`'s.
#[verifier::external_body]
pub(crate) fn from_chars(v: &Vec<char>) -> (s: String)
    ensures
        s@ == v@,
{
    v.iter().collect::<String>()
}

/// Whether two character sequences are equal.
pub fn seq_eq(a: &Vec<char>, b: &Vec<char>) -> (r: bool)
    ensures
        r == (a@ == b@),
{
    if a.len() != b.len() {
        return false;
    }
    let mut i: usize = 0;
    while i < a.len()
        invariant
            a.len() == b.len(),
            i <= a.len(),
            forall|k: int| 0 <= k < i ==> a@[k] == b@[k],
        decreases a.len() - i,
    {
        if a[i] != b[i] {
            return false;
        }
        i += 1;
    }
    assert(a@ =~= b@);
    true
}

/// Appends all of `src` to `dst`.
pub fn append(dst: &mut Vec<char>, src: &Vec<char>)
    ensures
        final(dst)@ == old(dst)@ + src@,
{
    let mut i: usize = 0;
    while i < src.len()
        invariant
            i <= src.len(),
            dst@ == old(dst)@ + src@.take(i as int),
        decreases src.len() - i,
    {
        dst.push(src[i]);
        i += 1;
        assert(src@.take(i as int) =~= src@.take(i - 1).push(src@[i - 1]));
    }
    assert(src@.take(src.len() as int) =~= src@);
}

/// `s` followed by `t`.
pub fn concat2(s: &Vec<char>, t: &Vec<char>) -> (r: Vec<char>)
    ensures
        r@ == s@ + t@,
{
    let mut r = s.clone();
    append(&mut r, t);
    r
}

/// Whether `pat` occurs in `s` at position `i`.
pub fn matches_at(s: &Vec<char>, pat: &Vec<char>, i: usize) -> (b: bool)
    ensures
        b == occurs_at(s@, pat@, i as int),
{
    if i > s.len() || pat.len() > s.len() - i {
        return false;
    }
    let mut j: usize = 0;
    while j < pat.len()
        invariant
            i + pat.len() <= s.len(),
            j <= pat.len(),
            forall|k: int| 0 <= k < j ==> s@[i + k] == pat@[k],
        decreases pat.len() - j,
    {
        if s[i + j] != pat[j] {
            assert(s@.subrange(i as int, i + pat.len())[j as int] != pat@[j as int]);
            return false;
        }
        j += 1;
    }
    assert(s@.subrange(i as int, i + pat.len()) =~= pat@);
    true
}

/// Whether `s` starts with `pat`.
pub fn has_prefix(s: &Vec<char>, pat: &Vec<char>) -> (b: bool)
    ensures
        b == starts_with(s@, pat@),
{
    matches_at(s, pat, 0)
}

/// Whether `s` ends with `pat`.
pub fn has_suffix(s: &Vec<char>, pat: &Vec<char>) -> (b: bool)
    ensures
        b == ends_with(s@, pat@),
{
    if pat.len() > s.len() {
        return false;
    }
    let b = matches_at(s, pat, s.len() - pat.len());
    b
}

/// The first position where `pat` occurs in `s` at or after `from`.
pub fn find_from_exec(s: &Vec<char>, pat: &Vec<char>, from: usize) -> (r: Option<usize>)
    ensures
        match r {
            Some(p) => find_from(s@, pat@, from as int) == Some(p as int),
            None => find_from(s@, pat@, from as int) is None,
        },
{
    let mut i = from;
    while i <= s.len() && pat.len() <= s.len() - i
        invariant
            from <= i,
            find_from(s@, pat@, from as int) == find_from(s@, pat@, i as int),
        decreases s.len() + 1 - i,
    {
        if matches_at(s, pat, i) {
            return Some(i);
        }
        if i == s.len() {
            assert(find_from(s@, pat@, i + 1) is None);
            return None;
        }
        i += 1;
    }
    None
}

/// The first position where `pat` occurs in `s`.
pub fn find_exec(s: &Vec<char>, pat: &Vec<char>) -> (r: Option<usize>)
    ensures
        match r {
            Some(p) => find(s@, pat@) == Some(p as int),
            None => find(s@, pat@) is None,
        },
{
    find_from_exec(s, pat, 0)
}

pub proof fn lemma_find_from_some(s: Seq<char>, pat: Seq<char>, from: int)
    requires
        0 <= from,
    ensures
        find_from(s, pat, from) matches Some(p) ==> from <= p && occurs_at(s, pat, p) && forall|
            k: int,
        |
            from <= k < p ==> !occurs_at(s, pat, k),
        find_from(s, pat, from) is None ==> forall|k: int| from <= k ==> !occurs_at(s, pat, k),
    decreases s.len() + 1 - from,
{
    if from + pat.len() > s.len() {
    } else if !occurs_at(s, pat, from) {
        lemma_find_from_some(s, pat, from + 1);
    }
}

/// A first occurrence at or after `from` is what `find_from` reports.
pub proof fn lemma_find_first(s: Seq<char>, pat: Seq<char>, from: int, p: int)
    requires
        0 <= from <= p,
        occurs_at(s, pat, p),
        forall|k: int| from <= k < p ==> !occurs_at(s, pat, k),
    ensures
        find_from(s, pat, from) == Some(p),
    decreases p - from,
{
    if from < p {
        lemma_find_first(s, pat, from + 1, p);
    }
}

/// Whether `pat` occurs anywhere in `s`.
pub fn contains_exec(s: &Vec<char>, pat: &Vec<char>) -> (b: bool)
    ensures
        b == contains(s@, pat@),
{
    let r = find_exec(s, pat);
    proof {
        lemma_find_from_some(s@, pat@, 0);
    }
    match r {
        Some(_) => true,
        None => {
            assert forall|i: int| !occurs_at(s@, pat@, i) by {
                if i < 0 {
                }
            }
            false
        },
    }
}

/// `s` with every occurrence of `pat` replaced by `rep` (`str::replace`).
pub fn replace_exec(s: &Vec<char>, pat: &Vec<char>, rep: &Vec<char>) -> (r: Vec<char>)
    requires
        pat.len() > 0,
    ensures
        r@ == replace_all(s@, pat@, rep@),
{
    let mut out: Vec<char> = Vec::new();
    let mut i: usize = 0;
    assert(s@.skip(0) =~= s@);
    while i < s.len()
        invariant
            pat.len() > 0,
            i <= s.len(),
            out@ + replace_all(s@.skip(i as int), pat@, rep@) == replace_all(s@, pat@, rep@),
        decreases s.len() - i,
    {
        let ghost t = s@.skip(i as int);
        proof {
            lemma_occurs_skip(s@, pat@, i as int);
        }
        if matches_at(s, pat, i) {
            append(&mut out, rep);
            proof {
                lemma_skip_skip(s@, i as int, pat.len() as int);
                assert(out@ + replace_all(s@.skip(i + pat.len()), pat@, rep@) =~= old_out_helper(
                    out@,
                    rep@,
                    replace_all(t.skip(pat.len() as int), pat@, rep@),
                ));
            }
            i = i + pat.len();
        } else {
            out.push(s[i]);
            proof {
                lemma_skip_skip(s@, i as int, 1);
                assert(t[0] == s@[i as int]);
            }
            i = i + 1;
        }
    }
    assert(s@.skip(s.len() as int) =~= Seq::<char>::empty());
    out
}

spec fn old_out_helper(a: Seq<char>, b: Seq<char>, c: Seq<char>) -> Seq<char> {
    a + c
}

/// `s` with every occurrence of the literal `pat` replaced by the literal `rep`.
pub fn replace_str(s: &Vec<char>, pat: &str, rep: &str) -> (r: Vec<char>)
    requires
        pat@.len() > 0,
    ensures
        r@ == replace_all(s@, pat@, rep@),
{
    let p = to_chars(pat);
    let q = to_chars(rep);
    replace_exec(s, &p, &q)
}

/// Whether `c` is whitespace (`char::is_whitespace`).
pub fn is_ws_exec(c: char) -> (b: bool)
    ensures
        b == is_ws(c),
{
    ('\u{9}' <= c && c <= '\u{d}') || c == ' ' || c == '\u{85}' || c == '\u{a0}' || c
        == '\u{1680}' || ('\u{2000}' <= c && c <= '\u{200a}') || c == '\u{2028}' || c
        == '\u{2029}' || c == '\u{202f}' || c == '\u{205f}' || c == '\u{3000}'
}

/// `s` without leading and trailing whitespace (`str::trim`).
pub fn trim_exec(s: &Vec<char>) -> (r: Vec<char>)
    ensures
        r@ == trim(s@),
{
    let mut start: usize = 0;
    assert(s@.skip(0) =~= s@);
    while start < s.len() && is_ws_exec(s[start])
        invariant
            start <= s.len(),
            trim_start(s@.skip(start as int)) == trim_start(s@),
        decreases s.len() - start,
    {
        assert(s@.skip(start as int).drop_first() =~= s@.skip(start + 1));
        start += 1;
    }
    let ghost t = s@.skip(start as int);
    let mut end: usize = s.len();
    assert(t.subrange(0, (end - start) as int) =~= t);
    while end > start && is_ws_exec(s[end - 1])
        invariant
            start <= end <= s.len(),
            t == s@.skip(start as int),
            trim_end(t.subrange(0, end - start)) == trim_end(t),
        decreases end,
    {
        assert(t.subrange(0, end - start).drop_last() =~= t.subrange(0, end - 1 - start));
        end -= 1;
    }
    let mut r: Vec<char> = Vec::new();
    let mut k: usize = start;
    while k < end
        invariant
            start <= k <= end <= s.len(),
            r@ == s@.subrange(start as int, k as int),
        decreases end - k,
    {
        r.push(s[k]);
        k += 1;
        assert(r@ =~= s@.subrange(start as int, k as int));
    }
    assert(r@ =~= t.subrange(0, end - start));
    r
}

/// The decimal representation of `n` (`n.to_string()`).
pub fn decimal_exec(n: usize) -> (r: Vec<char>)
    ensures
        r@ == decimal(n as nat),
    decreases n,
{
    let d = n % 10;
    let c = if d == 0 {
        '0'
    } else if d == 1 {
        '1'
    } else if d == 2 {
        '2'
    } else if d == 3 {
        '3'
    } else if d == 4 {
        '4'
    } else if d == 5 {
        '5'
    } else if d == 6 {
        '6'
    } else if d == 7 {
        '7'
    } else if d == 8 {
        '8'
    } else {
        '9'
    };
    if n < 10 {
        let mut v = Vec::new();
        v.push(c);
        v
    } else {
        let mut v = decimal_exec(n / 10);
        v.push(c);
        v
    }
}

// ===================== ordering and sorting =====================

/// `a` sorts before `b`: code-point lexicographic order, which is the order
/// in which std compares `String`s (byte order of UTF-8 agrees with it).
pub open spec fn lex_lt(a: Seq<char>, b: Seq<char>) -> bool
    decreases a.len(),
{
    if a.len() == 0 {
        b.len() > 0
    } else if b.len() == 0 {
        false
    } else if a[0] < b[0] {
        true
    } else if a[0] == b[0] {
        lex_lt(a.drop_first(), b.drop_first())
    } else {
        false
    }
}

/// The first position in `r`, from `k` on, holding an element not before `x`.
pub open spec fn insert_pos(r: Seq<Seq<char>>, x: Seq<char>, k: int) -> int
    decreases r.len() - k,
{
    if k >= r.len() {
        r.len() as int
    } else if lex_lt(r[k], x) {
        insert_pos(r, x, k + 1)
    } else {
        k
    }
}

/// `x` inserted into `r` before the first element that does not sort before it.
pub open spec fn insert_sorted(r: Seq<Seq<char>>, x: Seq<char>) -> Seq<Seq<char>> {
    r.insert(insert_pos(r, x, 0), x)
}

/// `s` sorted (insertion sort; equal elements are identical, so their order
/// is immaterial).
pub open spec fn sort_spec(s: Seq<Seq<char>>) -> Seq<Seq<char>>
    decreases s.len(),
{
    if s.len() == 0 {
        s
    } else {
        insert_sorted(sort_spec(s.drop_last()), s.last())
    }
}

/// The distinct elements of `s`, sorted.
pub open spec fn dedup_sort_spec(s: Seq<Seq<char>>) -> Seq<Seq<char>>
    decreases s.len(),
{
    if s.len() == 0 {
        s
    } else {
        let r = dedup_sort_spec(s.drop_last());
        if r.contains(s.last()) {
            r
        } else {
            insert_sorted(r, s.last())
        }
    }
}

/// Every element sorts strictly before every later one.
pub open spec fn strictly_sorted(r: Seq<Seq<char>>) -> bool {
    forall|i: int, j: int| 0 <= i < j < r.len() ==> lex_lt(#[trigger] r[i], #[trigger] r[j])
}

/// The order is transitive.
pub proof fn lemma_lex_transitive(a: Seq<char>, b: Seq<char>, c: Seq<char>)
    requires
        lex_lt(a, b),
        lex_lt(b, c),
    ensures
        lex_lt(a, c),
    decreases a.len(),
{
    if a.len() > 0 && b.len() > 0 && c.len() > 0 && a[0] == b[0] && b[0] == c[0] {
        lemma_lex_transitive(a.drop_first(), b.drop_first(), c.drop_first());
    }
}

/// Two different texts are ordered one way or the other.
pub proof fn lemma_lex_total(a: Seq<char>, b: Seq<char>)
    requires
        a != b,
    ensures
        lex_lt(a, b) || lex_lt(b, a),
    decreases a.len(),
{
    if a.len() > 0 && b.len() > 0 && a[0] == b[0] {
        if a.drop_first() == b.drop_first() {
            assert(a =~= seq![a[0]] + a.drop_first());
            assert(b =~= seq![b[0]] + b.drop_first());
        }
        lemma_lex_total(a.drop_first(), b.drop_first());
    } else if a.len() == 0 && b.len() == 0 {
        assert(a =~= b);
    }
}

proof fn lemma_insert_pos(r: Seq<Seq<char>>, x: Seq<char>, k: int)
    requires
        0 <= k <= r.len(),
    ensures
        k <= insert_pos(r, x, k) <= r.len(),
        forall|i: int| k <= i < insert_pos(r, x, k) ==> lex_lt(#[trigger] r[i], x),
        insert_pos(r, x, k) < r.len() ==> !lex_lt(r[insert_pos(r, x, k)], x),
    decreases r.len() - k,
{
    if k < r.len() && lex_lt(r[k], x) {
        lemma_insert_pos(r, x, k + 1);
    }
}

/// Inserting a new element into a strictly sorted list keeps it strictly
/// sorted.
pub proof fn lemma_insert_sorted(r: Seq<Seq<char>>, x: Seq<char>)
    requires
        strictly_sorted(r),
        !r.contains(x),
    ensures
        strictly_sorted(insert_sorted(r, x)),
        forall|y: Seq<char>| insert_sorted(r, x).contains(y) <==> (r.contains(y) || y == x),
{
    lemma_insert_pos(r, x, 0);
    let p = insert_pos(r, x, 0);
    let t = insert_sorted(r, x);
    if p < r.len() {
        lemma_lex_total(r[p], x);
    }
    assert forall|i: int, j: int| 0 <= i < j < t.len() implies lex_lt(#[trigger] t[i], #[trigger] t[j]) by {
        if j < p {
            assert(t[i] == r[i] && t[j] == r[j]);
        } else if j == p {
            assert(t[i] == r[i] && t[j] == x);
        } else if i < p {
            assert(t[i] == r[i] && t[j] == r[j - 1]);
            lemma_lex_transitive(r[i], x, r[p]);
            if j - 1 > p {
                lemma_lex_transitive(r[i], r[p], r[j - 1]);
            }
        } else if i == p {
            assert(t[i] == x && t[j] == r[j - 1]);
            if j - 1 > p {
                lemma_lex_transitive(x, r[p], r[j - 1]);
            }
        } else {
            assert(t[i] == r[i - 1] && t[j] == r[j - 1]);
        }
    }
    assert forall|y: Seq<char>| t.contains(y) <==> (r.contains(y) || y == x) by {
        if t.contains(y) {
            let k = choose|k: int| 0 <= k < t.len() && t[k] == y;
            if k < p {
                assert(r[k] == y);
            } else if k > p {
                assert(r[k - 1] == y);
            }
        }
        if r.contains(y) {
            let k = choose|k: int| 0 <= k < r.len() && r[k] == y;
            if k < p {
                assert(t[k] == y);
            } else {
                assert(t[k + 1] == y);
            }
        }
        if y == x {
            assert(t[p] == x);
        }
    }
}

/// The distinct sorted elements hold exactly the elements of `s`, each once,
/// in strictly increasing order.
pub proof fn law_dedup_sort(s: Seq<Seq<char>>)
    ensures
        strictly_sorted(dedup_sort_spec(s)),
        forall|y: Seq<char>| dedup_sort_spec(s).contains(y) <==> s.contains(y),
    decreases s.len(),
{
    if s.len() > 0 {
        let p = s.drop_last();
        law_dedup_sort(p);
        let r = dedup_sort_spec(p);
        if !r.contains(s.last()) {
            lemma_insert_sorted(r, s.last());
        }
        assert forall|y: Seq<char>| dedup_sort_spec(s).contains(y) <==> s.contains(y) by {
            if s.contains(y) {
                let k = choose|k: int| 0 <= k < s.len() && s[k] == y;
                if k < p.len() {
                    assert(p[k] == y);
                }
            }
            if p.contains(y) {
                let k = choose|k: int| 0 <= k < p.len() && p[k] == y;
                assert(s[k] == y);
            }
            assert(s[s.len() - 1] == s.last());
        }
    }
}

/// Whether `a` sorts before `b`.
pub fn lex_less(a: &Vec<char>, b: &Vec<char>) -> (r: bool)
    ensures
        r == lex_lt(a@, b@),
{
    let mut i: usize = 0;
    assert(a@.skip(0) =~= a@);
    assert(b@.skip(0) =~= b@);
    while i < a.len() && i < b.len() && a[i] == b[i]
        invariant
            i <= a.len(),
            i <= b.len(),
            lex_lt(a@.skip(i as int), b@.skip(i as int)) == lex_lt(a@, b@),
        decreases a.len() - i,
    {
        assert(a@.skip(i as int).drop_first() =~= a@.skip(i + 1));
        assert(b@.skip(i as int).drop_first() =~= b@.skip(i + 1));
        i += 1;
    }
    if i == a.len() {
        i < b.len()
    } else if i == b.len() {
        false
    } else {
        a[i] < b[i]
    }
}

/// Inserts `x` into the sorted vector `r`.
pub fn insert_sorted_exec(r: &mut Vec<Vec<char>>, x: Vec<char>)
    ensures
        final(r)@.map_values(|v: Vec<char>| v@) == insert_sorted(
            old(r)@.map_values(|v: Vec<char>| v@),
            x@,
        ),
{
    let ghost rv = r@.map_values(|v: Vec<char>| v@);
    let mut k: usize = 0;
    while k < r.len() && lex_less(&r[k], &x)
        invariant
            k <= r.len(),
            rv == r@.map_values(|v: Vec<char>| v@),
            insert_pos(rv, x@, k as int) == insert_pos(rv, x@, 0),
        decreases r.len() - k,
    {
        k += 1;
    }
    let ghost xv = x@;
    r.insert(k, x);
    assert(r@.map_values(|v: Vec<char>| v@) =~= rv.insert(k as int, xv));
}

/// Whether `r` holds an element equal to `w`.
pub fn holds_chars(r: &Vec<Vec<char>>, w: &Vec<char>) -> (b: bool)
    ensures
        b == r@.map_values(|x: Vec<char>| x@).contains(w@),
{
    let ghost vv = r@.map_values(|x: Vec<char>| x@);
    let mut i: usize = 0;
    while i < r.len()
        invariant
            i <= r.len(),
            vv == r@.map_values(|x: Vec<char>| x@),
            forall|k: int| 0 <= k < i ==> vv[k] != w@,
        decreases r.len() - i,
    {
        if seq_eq(&r[i], w) {
            assert(vv[i as int] == w@);
            return true;
        }
        i += 1;
    }
    proof {
        if vv.contains(w@) {
            let k = choose|k: int| 0 <= k < vv.len() && vv[k] == w@;
            assert(vv[k] != w@);
        }
    }
    false
}

/// The elements sorted.
pub fn sort_exec(s: &Vec<Vec<char>>) -> (r: Vec<Vec<char>>)
    ensures
        r@.map_values(|v: Vec<char>| v@) == sort_spec(s@.map_values(|v: Vec<char>| v@)),
{
    let ghost sv = s@.map_values(|v: Vec<char>| v@);
    let mut r: Vec<Vec<char>> = Vec::new();
    let mut i: usize = 0;
    assert(sv.take(0) =~= Seq::<Seq<char>>::empty());
    while i < s.len()
        invariant
            i <= s.len(),
            sv == s@.map_values(|v: Vec<char>| v@),
            r@.map_values(|v: Vec<char>| v@) == sort_spec(sv.take(i as int)),
        decreases s.len() - i,
    {
        assert(sv.take(i + 1).drop_last() =~= sv.take(i as int));
        insert_sorted_exec(&mut r, s[i].clone());
        i += 1;
    }
    assert(sv.take(s.len() as int) =~= sv);
    r
}

/// The distinct elements sorted.
pub fn dedup_sort_exec(s: &Vec<Vec<char>>) -> (r: Vec<Vec<char>>)
    ensures
        r@.map_values(|v: Vec<char>| v@) == dedup_sort_spec(s@.map_values(|v: Vec<char>| v@)),
{
    let ghost sv = s@.map_values(|v: Vec<char>| v@);
    let mut r: Vec<Vec<char>> = Vec::new();
    let mut i: usize = 0;
    assert(sv.take(0) =~= Seq::<Seq<char>>::empty());
    while i < s.len()
        invariant
            i <= s.len(),
            sv == s@.map_values(|v: Vec<char>| v@),
            r@.map_values(|v: Vec<char>| v@) == dedup_sort_spec(sv.take(i as int)),
        decreases s.len() - i,
    {
        assert(sv.take(i + 1).drop_last() =~= sv.take(i as int));
        if !holds_chars(&r, &s[i]) {
            insert_sorted_exec(&mut r, s[i].clone());
        }
        i += 1;
    }
    assert(sv.take(s.len() as int) =~= sv);
    r
}

} // verus!
