//! Streaming separation of a model's reasoning from its answer.
//!
//! Text between an opening and a closing think tag is reasoning; everything else
//! is answer. Chunks arrive in arbitrary pieces, so a tag may be split across
//! chunks: the parser keeps back the shortest tail that could still be the start
//! of a tag and emits everything before it at once.
use vstd::prelude::*;

use crate::text::{
    all_ws, concat, find, find_exec, from_chars, is_ws, lemma_concat_push, lemma_find_from_some,
    occurs_at, starts_with, to_chars,
};

verus! {

/// The opening tag `<think>`.
pub open spec fn open_tag() -> Seq<char> {
    seq!['<', 't', 'h', 'i', 'n', 'k', '>']
}

/// The closing tag `</think>`.
pub open spec fn close_tag() -> Seq<char> {
    seq!['<', '/', 't', 'h', 'i', 'n', 'k', '>']
}

/// The tag that ends the current state: the closing tag inside reasoning,
/// the opening tag outside it.
pub open spec fn tag_for(thinking: bool) -> Seq<char> {
    if thinking { close_tag() } else { open_tag() }
}

/// What a whole text means: its answer part and its reasoning part, starting
/// in state `thinking`. Tags are dropped and switch the state.
pub open spec fn route(s: Seq<char>, thinking: bool) -> (Seq<char>, Seq<char>)
    decreases s.len(),
{
    if s.len() == 0 {
        (Seq::empty(), Seq::empty())
    } else if starts_with(s, tag_for(thinking)) {
        route(s.skip(tag_for(thinking).len() as int), !thinking)
    } else {
        let (o, r) = route(s.skip(1), thinking);
        if thinking {
            (o, seq![s[0]] + r)
        } else {
            (seq![s[0]] + o, r)
        }
    }
}

/// The first position `i >= from` at which the rest of `buf` is a non-empty
/// prefix of `tag`, or `buf.len()` if there is none.
pub open spec fn safe_from(buf: Seq<char>, tag: Seq<char>, from: int) -> int
    decreases buf.len() - from,
{
    if from >= buf.len() {
        buf.len() as int
    } else if starts_with(tag, buf.skip(from)) {
        from
    } else {
        safe_from(buf, tag, from + 1)
    }
}

/// How much of `buf` can be emitted now: everything before the shortest
/// tail that could still begin `tag`.
pub open spec fn safe_emit_len(buf: Seq<char>, tag: Seq<char>) -> int {
    safe_from(buf, tag, 0)
}

/// One scan of the buffer: answer emitted, reasoning emitted, what is kept
/// back, and the state afterwards.
#[verifier::opaque]
pub open spec fn scan(buf: Seq<char>, thinking: bool) -> (Seq<char>, Seq<char>, Seq<char>, bool)
    decreases buf.len(),
{
    let tag = tag_for(thinking);
    match find(buf, tag) {
        Some(p) => {
            if 0 <= p && p + tag.len() <= buf.len() {
                let (o, r, rest, st) = scan(buf.skip(p + tag.len()), !thinking);
                if thinking {
                    (o, buf.take(p) + r, rest, st)
                } else {
                    (buf.take(p) + o, r, rest, st)
                }
            } else {
                (Seq::empty(), Seq::empty(), buf, thinking)
            }
        },
        None => {
            let k = safe_emit_len(buf, tag);
            if 0 <= k <= buf.len() {
                if thinking {
                    (Seq::empty(), buf.take(k), buf.skip(k), thinking)
                } else {
                    (buf.take(k), Seq::empty(), buf.skip(k), thinking)
                }
            } else {
                (Seq::empty(), Seq::empty(), buf, thinking)
            }
        },
    }
}

/// The abstract state of a parser.
pub struct ParserModel {
    /// Inside a reasoning block.
    pub thinking: bool,
    /// Text kept back because it might begin a tag.
    pub buf: Seq<char>,
    /// Answer text not yet taken.
    pub output: Seq<char>,
    /// Reasoning text not yet taken.
    pub reasoning: Seq<char>,
    /// All answer text emitted so far.
    pub output_full: Seq<char>,
}

/// The state after feeding `content`.
pub open spec fn feed_model(m: ParserModel, content: Seq<char>) -> ParserModel {
    let (o, r, rest, st) = scan(m.buf + content, m.thinking);
    ParserModel {
        thinking: st,
        buf: rest,
        output: m.output + o,
        reasoning: m.reasoning + r,
        output_full: m.output_full + o,
    }
}

/// The state after the end of the stream.
pub open spec fn flush_model(m: ParserModel) -> ParserModel {
    if m.thinking {
        ParserModel { buf: Seq::empty(), reasoning: m.reasoning + m.buf, ..m }
    } else {
        ParserModel {
            buf: Seq::empty(),
            output: m.output + m.buf,
            output_full: m.output_full + m.buf,
            ..m
        }
    }
}

/// A fresh parser.
pub open spec fn initial_model() -> ParserModel {
    ParserModel {
        thinking: false,
        buf: Seq::empty(),
        output: Seq::empty(),
        reasoning: Seq::empty(),
        output_full: Seq::empty(),
    }
}

/// The state after feeding every chunk in turn.
pub open spec fn feed_all(m: ParserModel, chunks: Seq<Seq<char>>) -> ParserModel
    decreases chunks.len(),
{
    if chunks.len() == 0 {
        m
    } else {
        feed_model(feed_all(m, chunks.drop_last()), chunks.last())
    }
}

/// Splits a streamed model answer into answer text and reasoning text.
pub struct ThinkingParser {
    in_thinking: bool,
    buf: Vec<char>,
    output_buf: Vec<char>,
    reasoning_buf: Vec<char>,
    output_full: Vec<char>,
}

impl View for ThinkingParser {
    type V = ParserModel;

    closed spec fn view(&self) -> ParserModel {
        ParserModel {
            thinking: self.in_thinking,
            buf: self.buf@,
            output: self.output_buf@,
            reasoning: self.reasoning_buf@,
            output_full: self.output_full@,
        }
    }
}

fn open_tag_exec() -> (t: Vec<char>)
    ensures
        t@ == open_tag(),
{
    let t = vec!['<', 't', 'h', 'i', 'n', 'k', '>'];
    assert(t@ =~= open_tag());
    t
}

fn close_tag_exec() -> (t: Vec<char>)
    ensures
        t@ == close_tag(),
{
    let t = vec!['<', '/', 't', 'h', 'i', 'n', 'k', '>'];
    assert(t@ =~= close_tag());
    t
}

/// The part of `v` from `from` on.
fn skip_vec(v: &Vec<char>, from: usize) -> (r: Vec<char>)
    requires
        from <= v.len(),
    ensures
        r@ == v@.skip(from as int),
{
    let mut r: Vec<char> = Vec::new();
    let mut i = from;
    while i < v.len()
        invariant
            from <= i <= v.len(),
            r@ == v@.subrange(from as int, i as int),
        decreases v.len() - i,
    {
        r.push(v[i]);
        i += 1;
        assert(r@ =~= v@.subrange(from as int, i as int));
    }
    assert(r@ =~= v@.skip(from as int));
    r
}

/// Appends the first `n` characters of `src` to `dst`.
fn append_prefix(dst: &mut Vec<char>, src: &Vec<char>, n: usize)
    requires
        n <= src.len(),
    ensures
        final(dst)@ == old(dst)@ + src@.take(n as int),
{
    let mut i: usize = 0;
    while i < n
        invariant
            i <= n <= src.len(),
            dst@ == old(dst)@ + src@.take(i as int),
        decreases n - i,
    {
        dst.push(src[i]);
        i += 1;
        assert(src@.take(i as int) =~= src@.take(i - 1).push(src@[i - 1]));
    }
}

/// Whether the rest of `buf` from `i` is a non-empty prefix of `tag`.
fn tail_is_tag_prefix(buf: &Vec<char>, tag: &Vec<char>, i: usize) -> (b: bool)
    requires
        i < buf.len(),
    ensures
        b == starts_with(tag@, buf@.skip(i as int)),
{
    let n = buf.len() - i;
    if n > tag.len() {
        return false;
    }
    let mut j: usize = 0;
    while j < n
        invariant
            n == buf.len() - i,
            n <= tag.len(),
            j <= n,
            forall|k: int| 0 <= k < j ==> tag@[k] == buf@[i + k],
        decreases n - j,
    {
        if tag[j] != buf[i + j] {
            assert(tag@.subrange(0, n as int)[j as int] != buf@.skip(i as int)[j as int]);
            return false;
        }
        j += 1;
    }
    assert(tag@.subrange(0, n as int) =~= buf@.skip(i as int));
    true
}

/// The length of the longest prefix of `buf` that can be emitted without
/// cutting a possible tag.
fn safe_emit_len_exec(buf: &Vec<char>, tag: &Vec<char>) -> (k: usize)
    ensures
        k as int == safe_emit_len(buf@, tag@),
{
    let mut i: usize = 0;
    while i < buf.len()
        invariant
            i <= buf.len(),
            safe_from(buf@, tag@, i as int) == safe_emit_len(buf@, tag@),
        decreases buf.len() - i,
    {
        if tail_is_tag_prefix(buf, tag, i) {
            return i;
        }
        i += 1;
    }
    buf.len()
}

pub proof fn lemma_safe_from_bounds(buf: Seq<char>, tag: Seq<char>, from: int)
    requires
        0 <= from,
    ensures
        from <= safe_from(buf, tag, from) || (from > buf.len() && safe_from(buf, tag, from)
            == buf.len()),
        safe_from(buf, tag, from) <= buf.len() || from > buf.len(),
        forall|i: int|
            from <= i < safe_from(buf, tag, from) ==> !starts_with(tag, #[trigger] buf.skip(i)),
        safe_from(buf, tag, from) < buf.len() ==> starts_with(
            tag,
            buf.skip(safe_from(buf, tag, from)),
        ),
    decreases buf.len() - from,
{
    if from < buf.len() && !starts_with(tag, buf.skip(from)) {
        lemma_safe_from_bounds(buf, tag, from + 1);
    }
}

/// Routing a text that has no tag before position `k` emits its first `k`
/// characters in the current state.
pub proof fn lemma_route_prefix(s: Seq<char>, thinking: bool, k: int)
    requires
        0 <= k <= s.len(),
        forall|i: int| 0 <= i < k ==> !occurs_at(s, tag_for(thinking), i),
    ensures
        route(s, thinking) == (if thinking {
            (route(s.skip(k), thinking).0, s.take(k) + route(s.skip(k), thinking).1)
        } else {
            (s.take(k) + route(s.skip(k), thinking).0, route(s.skip(k), thinking).1)
        }),
    decreases k,
{
    if k == 0 {
        assert(s.skip(0) =~= s);
        assert(s.take(0) =~= Seq::<char>::empty());
    } else {
        assert(!occurs_at(s, tag_for(thinking), 0));
        assert(!starts_with(s, tag_for(thinking)));
        let t = s.skip(1);
        assert forall|i: int| 0 <= i < k - 1 implies !occurs_at(t, tag_for(thinking), i) by {
            assert(!occurs_at(s, tag_for(thinking), i + 1));
            if i + tag_for(thinking).len() <= t.len() {
                assert(t.subrange(i, i + tag_for(thinking).len()) =~= s.subrange(
                    i + 1,
                    i + 1 + tag_for(thinking).len(),
                ));
            }
        }
        lemma_route_prefix(t, thinking, k - 1);
        assert(t.skip(k - 1) =~= s.skip(k));
        assert(seq![s[0]] + t.take(k - 1) =~= s.take(k));
        let rt = route(t.skip(k - 1), thinking);
        if thinking {
            assert(seq![s[0]] + (t.take(k - 1) + rt.1) =~= s.take(k) + rt.1);
        } else {
            assert(seq![s[0]] + (t.take(k - 1) + rt.0) =~= s.take(k) + rt.0);
        }
    }
}

/// Unfolds one scan step when the buffer holds a whole tag.
pub proof fn lemma_scan_some(b: Seq<char>, st: bool, p: int)
    requires
        find(b, tag_for(st)) == Some(p),
    ensures
        0 <= p,
        p + tag_for(st).len() <= b.len(),
        forall|i: int| 0 <= i < p ==> !occurs_at(b, tag_for(st), i),
        occurs_at(b, tag_for(st), p),
        ({
            let (o, r, rest, st2) = scan(b.skip(p + tag_for(st).len()), !st);
            scan(b, st) == (if st {
                (o, b.take(p) + r, rest, st2)
            } else {
                (b.take(p) + o, r, rest, st2)
            })
        }),
{
    lemma_find_from_some(b, tag_for(st), 0);
    reveal(scan);
}

/// A suffix of a text without a whole tag has none either.
proof fn lemma_no_tag_suffix(b: Seq<char>, tag: Seq<char>, k: int)
    requires
        0 <= k <= b.len(),
        forall|i: int| 0 <= i ==> !occurs_at(b, tag, i),
    ensures
        find(b.skip(k), tag) is None,
{
    let rest = b.skip(k);
    lemma_find_from_some(rest, tag, 0);
    if find(rest, tag) is Some {
        let q = find(rest, tag)->0;
        assert(rest.subrange(q, q + tag.len()) =~= b.subrange(k + q, k + q + tag.len()));
        assert(occurs_at(b, tag, k + q));
    }
}

/// A text that is empty or itself a possible tag start cannot emit anything.
proof fn lemma_safe_zero(rest: Seq<char>, tag: Seq<char>)
    requires
        rest.len() > 0 ==> starts_with(tag, rest),
    ensures
        safe_emit_len(rest, tag) == 0,
{
    assert(rest.skip(0) =~= rest);
}

/// The tail kept back after emitting holds no whole tag and is itself a
/// possible tag start.
proof fn lemma_rest_after_safe(b: Seq<char>, tag: Seq<char>)
    requires
        find(b, tag) is None,
    ensures
        ({
            let k = safe_emit_len(b, tag);
            &&& 0 <= k <= b.len()
            &&& find(b.skip(k), tag) is None
            &&& safe_emit_len(b.skip(k), tag) == 0
            &&& forall|i: int| 0 <= i < k ==> !starts_with(tag, #[trigger] b.skip(i))
            &&& forall|i: int| 0 <= i ==> !occurs_at(b, tag, i)
        }),
{
    let k = safe_emit_len(b, tag);
    lemma_safe_from_bounds(b, tag, 0);
    lemma_find_from_some(b, tag, 0);
    lemma_no_tag_suffix(b, tag, k);
    lemma_safe_zero(b.skip(k), tag);
}

/// Unfolds one scan step when the buffer holds no whole tag.
pub proof fn lemma_scan_none(b: Seq<char>, st: bool)
    requires
        find(b, tag_for(st)) is None,
    ensures
        ({
            let k = safe_emit_len(b, tag_for(st));
            let e = Seq::<char>::empty();
            &&& 0 <= k <= b.len()
            &&& scan(b, st) == (if st {
                (e, b.take(k), b.skip(k), st)
            } else {
                (b.take(k), e, b.skip(k), st)
            })
            &&& scan(b.skip(k), st) == (e, e, b.skip(k), st)
            &&& find(b.skip(k), tag_for(st)) is None
            &&& forall|i: int| 0 <= i < k ==> !starts_with(tag_for(st), #[trigger] b.skip(i))
            &&& forall|i: int| 0 <= i ==> !occurs_at(b, tag_for(st), i)
        }),
{
    let tag = tag_for(st);
    lemma_rest_after_safe(b, tag);
    let k = safe_emit_len(b, tag);
    let rest = b.skip(k);
    let e = Seq::<char>::empty();
    assert(rest.take(0) =~= e);
    assert(rest.skip(0) =~= rest);
    reveal(scan);
}

/// An occurrence in `b + x` that starts before the first one in `b` would be
/// one in `b` already.
proof fn lemma_no_occ_before_find(b: Seq<char>, x: Seq<char>, tag: Seq<char>, p: int)
    requires
        0 <= p,
        p + tag.len() <= b.len(),
        forall|i: int| 0 <= i < p ==> !occurs_at(b, tag, i),
    ensures
        forall|i: int| 0 <= i < p ==> !occurs_at(b + x, tag, i),
{
    assert forall|i: int| 0 <= i < p implies !occurs_at(b + x, tag, i) by {
        if occurs_at(b + x, tag, i) {
            assert((b + x).subrange(i, i + tag.len()) =~= b.subrange(i, i + tag.len()));
            assert(occurs_at(b, tag, i));
        }
    }
}

/// Before the emit boundary, no tag can start in `b + x`, whatever `x` is.
proof fn lemma_no_occ_before_safe(b: Seq<char>, x: Seq<char>, tag: Seq<char>, k: int)
    requires
        0 <= k <= b.len(),
        forall|i: int| 0 <= i ==> !occurs_at(b, tag, i),
        forall|i: int| 0 <= i < k ==> !starts_with(tag, #[trigger] b.skip(i)),
    ensures
        forall|i: int| 0 <= i < k ==> !occurs_at(b + x, tag, i),
{
    let s = b + x;
    assert forall|i: int| 0 <= i < k implies !occurs_at(s, tag, i) by {
        if occurs_at(s, tag, i) {
            if i + tag.len() <= b.len() {
                assert(s.subrange(i, i + tag.len()) =~= b.subrange(i, i + tag.len()));
                assert(occurs_at(b, tag, i));
            } else {
                let n = b.len() - i;
                assert(tag.subrange(0, n) =~= b.skip(i)) by {
                    assert forall|j: int| 0 <= j < n implies tag.subrange(0, n)[j] == b.skip(
                        i,
                    )[j] by {
                        assert(s.subrange(i, i + tag.len())[j] == s[i + j]);
                    }
                }
                assert(starts_with(tag, b.skip(i)));
            }
        }
    }
}

/// Scanning the buffer never loses text: what was emitted, followed by the
/// meaning of what was kept back and anything that comes later, is the
/// meaning of the buffer followed by what comes later.
pub proof fn lemma_scan_route(buf: Seq<char>, thinking: bool, x: Seq<char>)
    ensures
        ({
            let (o, r, rest, st) = scan(buf, thinking);
            let rr = route(rest + x, st);
            route(buf + x, thinking) == (o + rr.0, r + rr.1)
        }),
        ({
            let (o, r, rest, st) = scan(buf, thinking);
            find(rest, tag_for(st)) is None
        }),
    decreases buf.len(),
{
    let tag = tag_for(thinking);
    let s = buf + x;
    lemma_find_from_some(buf, tag, 0);
    match find(buf, tag) {
        Some(p) => {
            lemma_scan_some(buf, thinking, p);
            lemma_no_occ_before_find(buf, x, tag, p);
            lemma_route_prefix(s, thinking, p);
            let s2 = s.skip(p);
            assert(s2.subrange(0, tag.len() as int) =~= buf.subrange(p, p + tag.len()));
            assert(s2.skip(tag.len() as int) =~= buf.skip(p + tag.len()) + x);
            assert(s.take(p) =~= buf.take(p));
            lemma_scan_route(buf.skip(p + tag.len()), !thinking, x);
            let (o, r, rest, st) = scan(buf.skip(p + tag.len()), !thinking);
            let rr = route(rest + x, st);
            assert(route(s2, thinking) == route(buf.skip(p + tag.len()) + x, !thinking));
            if thinking {
                assert(buf.take(p) + (r + rr.1) =~= (buf.take(p) + r) + rr.1);
            } else {
                assert(buf.take(p) + (o + rr.0) =~= (buf.take(p) + o) + rr.0);
            }
        },
        None => {
            lemma_scan_none(buf, thinking);
            let k = safe_emit_len(buf, tag);
            lemma_no_occ_before_safe(buf, x, tag, k);
            lemma_route_prefix(s, thinking, k);
            assert(s.skip(k) =~= buf.skip(k) + x);
            assert(s.take(k) =~= buf.take(k));
            let rest = buf.skip(k);
            let rr = route(rest + x, thinking);
            assert(Seq::<char>::empty() + rr.0 =~= rr.0);
            assert(Seq::<char>::empty() + rr.1 =~= rr.1);
        },
    }
}

/// A buffer with no whole tag in it means exactly itself in the current state.
pub proof fn lemma_route_no_tag(s: Seq<char>, thinking: bool)
    requires
        find(s, tag_for(thinking)) is None,
    ensures
        route(s, thinking) == (if thinking {
            (Seq::<char>::empty(), s)
        } else {
            (s, Seq::<char>::empty())
        }),
{
    lemma_find_from_some(s, tag_for(thinking), 0);
    lemma_route_prefix(s, thinking, s.len() as int);
    assert(s.take(s.len() as int) =~= s);
    assert(s.skip(s.len() as int) =~= Seq::<char>::empty());
    let e = Seq::<char>::empty();
    assert(route(e, thinking) == (e, e));
    assert(s + e =~= s);
}

/// The parser's state after any sequence of chunks accounts for exactly the
/// meaning of their concatenation, with whatever follows still to come.
pub proof fn lemma_feed_all_route(chunks: Seq<Seq<char>>, x: Seq<char>)
    ensures
        ({
            let m = feed_all(initial_model(), chunks);
            let rr = route(m.buf + x, m.thinking);
            &&& route(concat(chunks) + x, false) == (m.output + rr.0, m.reasoning + rr.1)
            &&& m.output_full == m.output
            &&& find(m.buf, tag_for(m.thinking)) is None
        }),
    decreases chunks.len(),
{
    if chunks.len() == 0 {
        let e = Seq::<char>::empty();
        assert(concat(chunks) =~= e);
        assert(e + x =~= x);
        assert(e + route(x, false).0 =~= route(x, false).0);
        assert(e + route(x, false).1 =~= route(x, false).1);
        lemma_find_from_some(e, tag_for(false), 0);
        assert(find(e, tag_for(false)) is None);
    } else {
        let prev = chunks.drop_last();
        let c = chunks.last();
        lemma_concat_push(prev, c);
        assert(prev.push(c) =~= chunks);
        lemma_feed_all_route(prev, c + x);
        let m0 = feed_all(initial_model(), prev);
        lemma_scan_route(m0.buf + c, m0.thinking, x);
        assert(concat(prev) + c + x =~= concat(prev) + (c + x));
        assert(m0.buf + c + x =~= m0.buf + (c + x));
        let (o, r, rest, st) = scan(m0.buf + c, m0.thinking);
        let rr = route(rest + x, st);
        assert(m0.output + (o + rr.0) =~= (m0.output + o) + rr.0);
        assert(m0.reasoning + (r + rr.1) =~= (m0.reasoning + r) + rr.1);
    }
}

/// Routing blank text gives blank parts.
pub proof fn lemma_route_ws(s: Seq<char>, thinking: bool)
    requires
        all_ws(s),
    ensures
        all_ws(route(s, thinking).0),
        all_ws(route(s, thinking).1),
    decreases s.len(),
{
    if s.len() > 0 {
        if starts_with(s, tag_for(thinking)) {
            let t = s.skip(tag_for(thinking).len() as int);
            assert forall|i: int| 0 <= i < t.len() implies is_ws(#[trigger] t[i]) by {
                assert(t[i] == s[i + tag_for(thinking).len()]);
            }
            lemma_route_ws(t, !thinking);
        } else {
            let t = s.skip(1);
            assert forall|i: int| 0 <= i < t.len() implies is_ws(#[trigger] t[i]) by {
                assert(t[i] == s[i + 1]);
            }
            lemma_route_ws(t, thinking);
            let (o, r) = route(t, thinking);
            assert forall|i: int| 0 <= i < o.len() + 1 implies is_ws(#[trigger] (seq![s[0]] + o)[i]) by {
                if i > 0 {
                    assert((seq![s[0]] + o)[i] == o[i - 1]);
                }
            }
            assert forall|i: int| 0 <= i < r.len() + 1 implies is_ws(#[trigger] (seq![s[0]] + r)[i]) by {
                if i > 0 {
                    assert((seq![s[0]] + r)[i] == o[i - 1] || (seq![s[0]] + r)[i] == r[i - 1]);
                }
            }
        }
    }
}

/// Streaming law: however the text is cut into chunks, feeding every chunk
/// and then flushing yields, as answer and as reasoning, exactly the meaning of
/// the whole text.
pub proof fn law_chunking_invariant(chunks: Seq<Seq<char>>)
    ensures
        ({
            let m = flush_model(feed_all(initial_model(), chunks));
            &&& m.output == route(concat(chunks), false).0
            &&& m.reasoning == route(concat(chunks), false).1
            &&& m.output_full == m.output
            &&& m.buf.len() == 0
        }),
{
    let e = Seq::<char>::empty();
    lemma_feed_all_route(chunks, e);
    let m = feed_all(initial_model(), chunks);
    assert(concat(chunks) + e =~= concat(chunks));
    assert(m.buf + e =~= m.buf);
    lemma_route_no_tag(m.buf, m.thinking);
    assert(m.output + e =~= m.output);
    assert(m.reasoning + e =~= m.reasoning);
}

impl ThinkingParser {
    /// A parser outside any reasoning block, with nothing buffered.
    pub fn new() -> (p: Self)
        ensures
            p@ == initial_model(),
    {
        ThinkingParser {
            in_thinking: false,
            buf: Vec::new(),
            output_buf: Vec::new(),
            reasoning_buf: Vec::new(),
            output_full: Vec::new(),
        }
    }

    /// Feeds one chunk of streamed content: complete tags switch the state and
    /// are dropped, text is emitted to answer or reasoning, and a tail that
    /// might begin a tag is kept back.
    pub fn feed(&mut self, content: &str)
        ensures
            final(self)@ == feed_model(old(self)@, content@),
    {
        let c = to_chars(content);
        crate::text::append(&mut self.buf, &c);
        let ghost buf0 = self.buf@;
        let ghost st0 = self.in_thinking;
        let ghost out0 = self.output_buf@;
        let ghost reas0 = self.reasoning_buf@;
        let ghost full0 = self.output_full@;
        assert(out0 == old(self)@.output);
        loop
            invariant
                ({
                    let (o, r, rest, st) = scan(self.buf@, self.in_thinking);
                    let (o0, r0, rest0, st00) = scan(buf0, st0);
                    &&& self.output_buf@ + o == out0 + o0
                    &&& self.reasoning_buf@ + r == reas0 + r0
                    &&& self.output_full@ + o == full0 + o0
                    &&& rest == rest0
                    &&& st == st00
                }),
            ensures
                ({
                    let (o0, r0, rest0, st00) = scan(buf0, st0);
                    &&& self.output_buf@ == out0 + o0
                    &&& self.reasoning_buf@ == reas0 + r0
                    &&& self.output_full@ == full0 + o0
                    &&& self.buf@ == rest0
                    &&& self.in_thinking == st00
                }),
            decreases self.buf.len(),
        {
            let tag = if self.in_thinking {
                close_tag_exec()
            } else {
                open_tag_exec()
            };
            let ghost b = self.buf@;
            let ghost st = self.in_thinking;
            assert(tag@ == tag_for(st));
            match find_exec(&self.buf, &tag) {
                Some(pos) => {
                    proof {
                        lemma_scan_some(b, st, pos as int);
                    }
                    if self.in_thinking {
                        append_prefix(&mut self.reasoning_buf, &self.buf, pos);
                    } else {
                        append_prefix(&mut self.output_buf, &self.buf, pos);
                        append_prefix(&mut self.output_full, &self.buf, pos);
                    }
                    self.buf = skip_vec(&self.buf, pos + tag.len());
                    self.in_thinking = !self.in_thinking;
                },
                None => {
                    let k = safe_emit_len_exec(&self.buf, &tag);
                    proof {
                        lemma_scan_none(b, st);
                    }
                    if self.in_thinking {
                        append_prefix(&mut self.reasoning_buf, &self.buf, k);
                    } else {
                        append_prefix(&mut self.output_buf, &self.buf, k);
                        append_prefix(&mut self.output_full, &self.buf, k);
                    }
                    self.buf = skip_vec(&self.buf, k);
                    proof {
                        let e = Seq::<char>::empty();
                        assert(b.take(k as int) + e =~= b.take(k as int));
                    }
                    break ;
                },
            }
        }
    }

    /// Takes the answer text emitted since the last call.
    pub fn take_output(&mut self) -> (s: String)
        ensures
            s@ == old(self)@.output,
            final(self)@ == (ParserModel { output: Seq::empty(), ..old(self)@ }),
    {
        let s = from_chars(&self.output_buf);
        self.output_buf = Vec::new();
        s
    }

    /// Takes the reasoning text emitted since the last call.
    pub fn take_reasoning(&mut self) -> (s: String)
        ensures
            s@ == old(self)@.reasoning,
            final(self)@ == (ParserModel { reasoning: Seq::empty(), ..old(self)@ }),
    {
        let s = from_chars(&self.reasoning_buf);
        self.reasoning_buf = Vec::new();
        s
    }

    /// At the end of the stream, emits what was kept back in the current state.
    pub fn flush(&mut self)
        ensures
            final(self)@ == flush_model(old(self)@),
    {
        if self.in_thinking {
            crate::text::append(&mut self.reasoning_buf, &self.buf);
        } else {
            crate::text::append(&mut self.output_buf, &self.buf);
            crate::text::append(&mut self.output_full, &self.buf);
        }
        self.buf = Vec::new();
    }

    /// All answer text emitted so far, taken or not.
    pub fn output_full(&self) -> (s: String)
        ensures
            s@ == self@.output_full,
    {
        from_chars(&self.output_full)
    }
}

} // verus!
