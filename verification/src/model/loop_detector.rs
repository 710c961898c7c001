//! Repetition detectors for streamed model output.
//!
//! - `LoopDetector`: character n-grams, for the answer text.
//! - `ThinkingLoopDetector`: hashes of long fixed-length segments, for reasoning
//!   text, where restating a conclusion is normal but whole repeated paragraphs
//!   are a loop.
use vstd::prelude::*;

use std::collections::hash_map::DefaultHasher;
use std::collections::HashMap;
use std::hash::Hasher;
use vstd::std_specs::hash::DefaultHasherAdditionalSpecFns;

use crate::text::{from_chars, occurs_at, to_chars};

verus! {

broadcast use vstd::std_specs::hash::group_hash_axioms;

// ==================== n-gram detector ====================

/// The number of positions at which `pat` occurs in `s`, counting from `from`.
pub open spec fn count_from(s: Seq<char>, pat: Seq<char>, from: int) -> nat
    decreases s.len() + 1 - from,
{
    if from < 0 || from + pat.len() > s.len() {
        0
    } else {
        (if occurs_at(s, pat, from) { 1nat } else { 0nat }) + count_from(s, pat, from + 1)
    }
}

/// The number of (possibly overlapping) occurrences of `pat` in `s`.
pub open spec fn count_occurrences(s: Seq<char>, pat: Seq<char>) -> nat {
    count_from(s, pat, 0)
}

/// The last `n` characters of `s`.
pub open spec fn last_n(s: Seq<char>, n: nat) -> Seq<char> {
    s.subrange(s.len() - n, s.len() as int)
}

/// `x` capped at `usize::MAX`: counters saturate instead of overflowing.
pub open spec fn sat(x: nat) -> nat {
    if x > usize::MAX { usize::MAX as nat } else { x }
}

/// The abstract state of an n-gram detector.
pub struct LoopModel {
    /// n-gram length.
    pub n: nat,
    /// Number of occurrences of one n-gram that counts as a loop.
    pub threshold: nat,
    /// The sliding window of recent characters.
    pub buf: Seq<char>,
    /// Window size in characters.
    pub window_size: nat,
    /// Characters processed since creation or reset.
    pub total_chars: nat,
    /// Hard limit on the characters processed.
    pub max_chars: nat,
}

/// One character pushed into the window: the new state, and whether a loop
/// (or the hard limit) was detected.
pub open spec fn loop_step(m: LoopModel, c: char) -> (LoopModel, bool) {
    let buf1 = m.buf.push(c);
    let m1 = LoopModel { buf: buf1, total_chars: sat(m.total_chars + 1), ..m };
    if buf1.len() >= m.n && count_occurrences(buf1, last_n(buf1, m.n)) >= m.threshold {
        (m1, true)
    } else if m1.total_chars >= m.max_chars {
        (m1, true)
    } else if buf1.len() > m.window_size {
        (LoopModel { buf: buf1.drop_first(), ..m1 }, false)
    } else {
        (m1, false)
    }
}

/// The characters of `s` pushed one by one, stopping at the first detection.
pub open spec fn loop_feed(m: LoopModel, s: Seq<char>) -> (LoopModel, bool)
    decreases s.len(),
{
    if s.len() == 0 {
        (m, false)
    } else {
        let (m1, d) = loop_step(m, s[0]);
        if d {
            (m1, true)
        } else {
            loop_feed(m1, s.skip(1))
        }
    }
}

/// A fresh n-gram detector: n = 32, threshold 5, a window of 4000
/// characters, nothing seen, and the hard limit `max`.
pub open spec fn fresh_loop_model(max: nat) -> LoopModel {
    LoopModel {
        n: 32,
        threshold: 5,
        buf: Seq::empty(),
        window_size: 4000,
        total_chars: 0,
        max_chars: max,
    }
}

/// n-gram repetition detector for the answer text.
pub struct LoopDetector {
    n: usize,
    threshold: usize,
    buf: Vec<char>,
    window_size: usize,
    total_chars: usize,
    max_chars: usize,
}

impl View for LoopDetector {
    type V = LoopModel;

    closed spec fn view(&self) -> LoopModel {
        LoopModel {
            n: self.n as nat,
            threshold: self.threshold as nat,
            buf: self.buf@,
            window_size: self.window_size as nat,
            total_chars: self.total_chars as nat,
            max_chars: self.max_chars as nat,
        }
    }
}

/// The number of occurrences of the last `n` characters of `buf` in `buf`.
fn count_last_ngram(buf: &Vec<char>, n: usize) -> (c: usize)
    requires
        1 <= n <= buf.len(),
    ensures
        c as nat == count_occurrences(buf@, last_n(buf@, n as nat)),
{
    let start = buf.len() - n;
    let mut pat: Vec<char> = Vec::new();
    let mut k = start;
    while k < buf.len()
        invariant
            start <= k <= buf.len(),
            start == buf.len() - n,
            pat@ == buf@.subrange(start as int, k as int),
        decreases buf.len() - k,
    {
        pat.push(buf[k]);
        k += 1;
        assert(pat@ =~= buf@.subrange(start as int, k as int));
    }
    let ghost p = pat@;
    let mut count: usize = 0;
    let mut i: usize = start + 1;
    // count positions from the end backwards so that the count stays below i
    proof {
        lemma_count_tail(buf@, p, start as int);
    }
    while i > 0
        invariant
            i <= start + 1,
            start + n == buf.len(),
            p == pat@,
            p.len() == n,
            1 <= n,
            count <= start + 1 - i,
            count == count_from(buf@, p, i as int),
        decreases i,
    {
        i -= 1;
        if crate::text::matches_at(buf, &pat, i) {
            count += 1;
        }
    }
    count
}

proof fn lemma_count_tail(s: Seq<char>, p: Seq<char>, start: int)
    requires
        0 <= start,
        start + p.len() == s.len(),
    ensures
        count_from(s, p, start + 1) == 0,
{
}

impl LoopDetector {
    /// The detector's parameters are those it was built with.
    pub closed spec fn wf(&self) -> bool {
        self.n == 32 && self.threshold == 5 && self.window_size == 4000
    }

    /// A detector with n = 32, threshold 5, a window of 4000 characters and a
    /// hard limit of 50000 characters.
    pub fn new() -> (d: Self)
        ensures
            d.wf(),
            d@ == fresh_loop_model(50000),
    {
        LoopDetector {
            n: 32,
            threshold: 5,
            buf: Vec::new(),
            window_size: 4000,
            total_chars: 0,
            max_chars: 50000,
        }
    }

    /// Feeds new text; returns whether a loop was detected. A loop is an n-gram
    /// occurring `threshold` times in the window, or the hard character limit.
    pub fn feed(&mut self, s: &str) -> (looped: bool)
        requires
            old(self).wf(),
        ensures
            final(self).wf(),
            (final(self)@, looped) == loop_feed(old(self)@, s@),
    {
        let chars = to_chars(s);
        let mut i: usize = 0;
        assert(chars@.skip(0) =~= chars@);
        while i < chars.len()
            invariant
                i <= chars.len(),
                chars@ == s@,
                self.n == 32,
                self.threshold == 5,
                self.window_size == 4000,
                self.max_chars == old(self).max_chars,
                loop_feed(old(self)@, s@) == loop_feed(self@, chars@.skip(i as int)),
            decreases chars.len() - i,
        {
            let ghost m = self@;
            let c = chars[i];
            assert(chars@.skip(i as int)[0] == c);
            assert(chars@.skip(i as int).skip(1) =~= chars@.skip(i + 1));
            self.buf.push(c);
            self.total_chars = self.total_chars.saturating_add(1);
            if self.buf.len() >= self.n {
                let count = count_last_ngram(&self.buf, self.n);
                if count >= self.threshold {
                    return true;
                }
            }
            if self.total_chars >= self.max_chars {
                return true;
            }
            if self.buf.len() > self.window_size {
                let mut rest: Vec<char> = Vec::new();
                let mut k: usize = 1;
                while k < self.buf.len()
                    invariant
                        1 <= k <= self.buf.len(),
                        rest@ == self.buf@.subrange(1, k as int),
                    decreases self.buf.len() - k,
                {
                    rest.push(self.buf[k]);
                    k += 1;
                    assert(rest@ =~= self.buf@.subrange(1, k as int));
                }
                assert(rest@ =~= self.buf@.drop_first());
                self.buf = rest;
            }
            i += 1;
        }
        false
    }

    /// Forgets everything seen: the detector is then a fresh one with the
    /// same hard limit.
    pub fn reset(&mut self)
        requires
            old(self).wf(),
        ensures
            final(self).wf(),
            final(self)@ == fresh_loop_model(old(self)@.max_chars),
    {
        self.buf = Vec::new();
        self.total_chars = 0;
    }

    /// Sets the hard limit on processed characters.
    pub fn set_max_chars(&mut self, max: usize)
        requires
            old(self).wf(),
        ensures
            final(self).wf(),
            final(self)@ == (LoopModel { max_chars: max as nat, ..old(self)@ }),
    {
        self.max_chars = max;
    }
}

impl Default for LoopDetector {
    /// The detector of `new`.
    fn default() -> (d: Self)
        ensures
            d.wf(),
            d@ == fresh_loop_model(50000),
    {
        LoopDetector::new()
    }
}

// ==================== segment-hash detector ====================

/// The hash of a segment: std's default hasher fed the segment as a string
/// (its UTF-8 bytes followed by the 0xff terminator that `str` hashing writes).
pub open spec fn segment_hash(seg: Seq<char>) -> u64 {
    DefaultHasher::spec_finish(seq![vstd::utf8::encode_utf8(seg), seq![0xffu8]])
}

/// The abstract state of a segment detector.
pub struct ThinkingLoopModel {
    /// Segment length in characters.
    pub segment_len: nat,
    /// Number of equal segment hashes that counts as a loop.
    pub threshold: nat,
    /// Text not yet cut into a segment.
    pub buf: Seq<char>,
    /// How often each segment hash was seen.
    pub hash_counts: Map<u64, usize>,
    /// Characters processed since creation or reset.
    pub total_chars: nat,
    /// Hard limit on the characters processed.
    pub max_chars: nat,
}

/// How often `h` was seen.
pub open spec fn seen(counts: Map<u64, usize>, h: u64) -> nat {
    if counts.contains_key(h) { counts[h] as nat } else { 0 }
}

/// Cuts whole segments from the front of `buf`, counting their hashes,
/// stopping at the first hash seen `threshold` times.
pub open spec fn cut_segments(m: ThinkingLoopModel) -> (ThinkingLoopModel, bool)
    decreases m.buf.len(),
{
    if m.segment_len == 0 || m.buf.len() < m.segment_len {
        (m, false)
    } else {
        let h = segment_hash(m.buf.take(m.segment_len as int));
        let c = sat(seen(m.hash_counts, h) + 1);
        let m1 = ThinkingLoopModel {
            buf: m.buf.skip(m.segment_len as int),
            hash_counts: m.hash_counts.insert(h, c as usize),
            ..m
        };
        if c >= m.threshold {
            (m1, true)
        } else {
            cut_segments(m1)
        }
    }
}

/// Feeding text to a segment detector: the new state and whether a loop (or
/// the hard limit) was detected.
pub open spec fn thinking_feed(m: ThinkingLoopModel, s: Seq<char>) -> (ThinkingLoopModel, bool) {
    let m1 = ThinkingLoopModel { buf: m.buf + s, total_chars: sat(m.total_chars + s.len()), ..m };
    if m1.total_chars >= m.max_chars {
        (m1, true)
    } else {
        cut_segments(m1)
    }
}

/// A fresh segment detector: 200-character segments, threshold 3, nothing
/// seen, and the hard limit `max`.
pub open spec fn fresh_thinking_model(max: nat) -> ThinkingLoopModel {
    ThinkingLoopModel {
        segment_len: 200,
        threshold: 3,
        buf: Seq::empty(),
        hash_counts: Map::empty(),
        total_chars: 0,
        max_chars: max,
    }
}

/// Segment-hash repetition detector for reasoning text.
pub struct ThinkingLoopDetector {
    segment_len: usize,
    threshold: usize,
    buf: Vec<char>,
    hash_counts: HashMap<u64, usize>,
    total_chars: usize,
    max_chars: usize,
}

impl View for ThinkingLoopDetector {
    type V = ThinkingLoopModel;

    closed spec fn view(&self) -> ThinkingLoopModel {
        ThinkingLoopModel {
            segment_len: self.segment_len as nat,
            threshold: self.threshold as nat,
            buf: self.buf@,
            hash_counts: self.hash_counts@,
            total_chars: self.total_chars as nat,
            max_chars: self.max_chars as nat,
        }
    }
}

impl ThinkingLoopDetector {
    /// The detector's parameters are those it was built with.
    pub closed spec fn wf(&self) -> bool {
        self.segment_len == 200 && self.threshold == 3
    }

    /// A detector with 200-character segments, threshold 3 and a hard limit
    /// of 80000 characters.
    pub fn new() -> (d: Self)
        ensures
            d.wf(),
            d@ == fresh_thinking_model(80000),
    {
        ThinkingLoopDetector {
            segment_len: 200,
            threshold: 3,
            buf: Vec::new(),
            hash_counts: HashMap::new(),
            total_chars: 0,
            max_chars: 80000,
        }
    }

    /// The hash of one segment.
    fn hash_segment(&self, seg: &Vec<char>) -> (h: u64)
        ensures
            h == segment_hash(seg@),
    {
        let s = from_chars(seg);
        let mut hasher = DefaultHasher::new();
        hasher.write(s.as_str().as_bytes());
        let terminator: [u8; 1] = [0xff];
        hasher.write(terminator.as_slice());
        proof {
            assert(terminator@ =~= seq![0xffu8]);
            assert(hasher@ =~= seq![vstd::utf8::encode_utf8(seg@), seq![0xffu8]]);
        }
        hasher.finish()
    }

    /// Feeds new reasoning text; returns whether a loop was detected: a segment
    /// hash seen `threshold` times, or the hard character limit.
    pub fn feed(&mut self, s: &str) -> (looped: bool)
        requires
            old(self).wf(),
        ensures
            final(self).wf(),
            (final(self)@, looped) == thinking_feed(old(self)@, s@),
    {
        let chars = to_chars(s);
        crate::text::append(&mut self.buf, &chars);
        self.total_chars = self.total_chars.saturating_add(chars.len());
        if self.total_chars >= self.max_chars {
            return true;
        }
        while self.buf.len() >= self.segment_len
            invariant
                self.wf(),
                self.segment_len == old(self).segment_len,
                self.threshold == old(self).threshold,
                self.max_chars == old(self).max_chars,
                self.total_chars as nat == sat(old(self)@.total_chars + s@.len()),
                self.total_chars < self.max_chars,
                old(self).wf(),
                thinking_feed(old(self)@, s@) == cut_segments(self@),
            decreases self.buf.len(),
        {
            let ghost m = self@;
            let mut seg: Vec<char> = Vec::new();
            let mut k: usize = 0;
            while k < self.segment_len
                invariant
                    k <= self.segment_len <= self.buf.len(),
                    seg@ == self.buf@.take(k as int),
                decreases self.segment_len - k,
            {
                seg.push(self.buf[k]);
                k += 1;
                assert(seg@ =~= self.buf@.take(k as int));
            }
            let mut rest: Vec<char> = Vec::new();
            let mut j: usize = self.segment_len;
            while j < self.buf.len()
                invariant
                    self.segment_len <= j <= self.buf.len(),
                    rest@ == self.buf@.subrange(self.segment_len as int, j as int),
                decreases self.buf.len() - j,
            {
                rest.push(self.buf[j]);
                j += 1;
                assert(rest@ =~= self.buf@.subrange(self.segment_len as int, j as int));
            }
            assert(rest@ =~= self.buf@.skip(self.segment_len as int));
            let h = self.hash_segment(&seg);
            let old_count: usize = match self.hash_counts.get(&h) {
                Some(c) => *c,
                None => 0,
            };
            assert(old_count == seen(m.hash_counts, h));
            let count = old_count.saturating_add(1);
            self.hash_counts.insert(h, count);
            self.buf = rest;
            if count >= self.threshold {
                return true;
            }
        }
        proof {
            assert(cut_segments(self@) == (self@, false));
        }
        false
    }

    /// Forgets everything seen: the detector is then a fresh one with the
    /// same hard limit.
    pub fn reset(&mut self)
        requires
            old(self).wf(),
        ensures
            final(self).wf(),
            final(self)@ == fresh_thinking_model(old(self)@.max_chars),
    {
        self.buf = Vec::new();
        self.hash_counts = HashMap::new();
        self.total_chars = 0;
    }

    /// Sets the hard limit on processed characters.
    pub fn set_max_chars(&mut self, max: usize)
        requires
            old(self).wf(),
        ensures
            final(self).wf(),
            final(self)@ == (ThinkingLoopModel { max_chars: max as nat, ..old(self)@ }),
    {
        self.max_chars = max;
    }
}

impl Default for ThinkingLoopDetector {
    /// The detector of `new`.
    fn default() -> (d: Self)
        ensures
            d.wf(),
            d@ == fresh_thinking_model(80000),
    {
        ThinkingLoopDetector::new()
    }
}

// ==================== laws ====================

/// Hard limit: once the characters processed reach the limit with some new
/// text, feeding that text reports a loop.
pub proof fn law_limit_reports_loop(m: LoopModel, s: Seq<char>)
    requires
        m.max_chars <= usize::MAX,
        s.len() > 0,
        m.total_chars + s.len() >= m.max_chars,
    ensures
        loop_feed(m, s).1,
    decreases s.len(),
{
    let (m1, d) = loop_step(m, s[0]);
    if !d && s.len() > 1 {
        law_limit_reports_loop(m1, s.skip(1));
    }
}

/// No false alarm: text that, with what the window holds, is shorter than one
/// n-gram and stays under the hard limit never reports a loop.
pub proof fn law_short_text_no_loop(m: LoopModel, s: Seq<char>)
    requires
        m.buf.len() + s.len() < m.n,
        m.total_chars + s.len() < m.max_chars,
    ensures
        !loop_feed(m, s).1,
    decreases s.len(),
{
    if s.len() > 0 {
        let (m1, d) = loop_step(m, s[0]);
        assert(m1.buf.len() <= m.buf.len() + 1);
        law_short_text_no_loop(m1, s.skip(1));
    }
}

/// The n-gram detector's state after reading `q` with no loop reported,
/// from a fresh one with the hard limit `max`, while the window holds all of it.
pub open spec fn read_state(q: Seq<char>, max: nat) -> LoopModel {
    LoopModel { buf: q, total_chars: q.len(), ..fresh_loop_model(max) }
}

/// Character `k` of `t` completes a loop: the hard limit is reached with it,
/// or the 32-character n-gram ending with it occurs for the fifth time in
/// `t` up to it.
pub open spec fn ngram_hit(t: Seq<char>, k: int, max: nat) -> bool {
    ||| k + 1 >= max
    ||| k >= 31 && count_occurrences(t.take(k + 1), t.subrange(k - 31, k + 1)) >= 5
}

proof fn lemma_feed_read(q: Seq<char>, s: Seq<char>, max: nat)
    requires
        (q + s).len() <= 4000,
    ensures
        loop_feed(read_state(q, max), s).1 <==> exists|k: int|
            q.len() <= k < (q + s).len() && #[trigger] ngram_hit(q + s, k, max),
        !loop_feed(read_state(q, max), s).1 ==> loop_feed(read_state(q, max), s).0 == read_state(
            q + s,
            max,
        ),
    decreases s.len(),
{
    let t = q + s;
    if s.len() == 0 {
        assert(t =~= q);
    } else {
        let m = read_state(q, max);
        let c = s[0];
        let k = q.len() as int;
        let buf1 = q.push(c);
        assert(buf1 =~= t.take(k + 1));
        if buf1.len() >= 32 {
            assert(last_n(buf1, 32) =~= t.subrange(k - 31, k + 1));
        }
        assert(q.push(c) + s.skip(1) =~= t);
        let (m1, d) = loop_step(m, c);
        if d {
            assert(ngram_hit(t, k, max));
        } else {
            assert(!ngram_hit(t, k, max));
            assert(m1 == read_state(buf1, max));
            lemma_feed_read(buf1, s.skip(1), max);
            if loop_feed(m1, s.skip(1)).1 {
                let w = choose|w: int| k + 1 <= w < t.len() && #[trigger] ngram_hit(t, w, max);
                assert(ngram_hit(t, w, max));
            } else {
                assert forall|w: int| k <= w < t.len() implies !#[trigger] ngram_hit(t, w, max) by {
                    if w > k {
                        assert(!(k + 1 <= w < (buf1 + s.skip(1)).len() && ngram_hit(
                            buf1 + s.skip(1),
                            w,
                            max,
                        )));
                    }
                }
            }
        }
    }
}

/// N-gram law: while no more than a window of text has been fed since the
/// detector was built or reset, and no loop was reported for `p`, feeding
/// `s` reports a loop exactly when one of its characters completes one: the
/// hard limit is reached with it, or the 32-character n-gram ending with it
/// is then seen for the fifth time.
pub proof fn law_ngram_fifth_repeat(max: nat, p: Seq<char>, s: Seq<char>)
    requires
        (p + s).len() <= 4000,
        !loop_feed(fresh_loop_model(max), p).1,
    ensures
        loop_feed(fresh_loop_model(max), p).0 == read_state(p, max),
        loop_feed(loop_feed(fresh_loop_model(max), p).0, s).1 <==> exists|k: int|
            p.len() <= k < (p + s).len() && #[trigger] ngram_hit(p + s, k, max),
{
    assert(fresh_loop_model(max) == read_state(Seq::empty(), max));
    assert(Seq::<char>::empty() + p =~= p);
    lemma_feed_read(Seq::empty(), p, max);
    lemma_feed_read(p, s, max);
}

/// Segment `q` of `t`: its characters `200 q` up to `200 q + 200`.
pub open spec fn segment(t: Seq<char>, q: int) -> Seq<char> {
    t.subrange(200 * q, 200 * q + 200)
}

/// How many of the first `j` segments of `t` hash to `h`.
pub open spec fn hash_count(t: Seq<char>, j: nat, h: u64) -> nat
    decreases j,
{
    if j == 0 {
        0
    } else {
        hash_count(t, (j - 1) as nat, h) + (if segment_hash(segment(t, j - 1)) == h {
            1nat
        } else {
            0nat
        })
    }
}

/// The hash counts of the first `j` segments of `t`, as the detector keeps them.
pub open spec fn counts_after(t: Seq<char>, j: nat) -> Map<u64, usize>
    decreases j,
{
    if j == 0 {
        Map::empty()
    } else {
        let m = counts_after(t, (j - 1) as nat);
        let h = segment_hash(segment(t, j - 1));
        m.insert(h, sat(seen(m, h) + 1) as usize)
    }
}

/// Segment `q` of `t` completes a loop: it is the third (or a later) one of
/// the segments so far with its hash.
pub open spec fn segment_hit(t: Seq<char>, q: int) -> bool {
    hash_count(t, (q + 1) as nat, segment_hash(segment(t, q))) >= 3
}

/// The segment detector's state after reading `t` and cutting its first `j`
/// segments, from a fresh one with the hard limit `max`.
pub open spec fn segments_read(t: Seq<char>, j: nat, max: nat) -> ThinkingLoopModel {
    ThinkingLoopModel {
        buf: t.skip(200 * j as int),
        hash_counts: counts_after(t, j),
        total_chars: t.len(),
        ..fresh_thinking_model(max)
    }
}

proof fn lemma_counts_seen(t: Seq<char>, j: nat, h: u64)
    requires
        j <= usize::MAX,
    ensures
        seen(counts_after(t, j), h) == hash_count(t, j, h),
        hash_count(t, j, h) <= j,
    decreases j,
{
    if j > 0 {
        let h0 = segment_hash(segment(t, j - 1));
        lemma_counts_seen(t, (j - 1) as nat, h);
        lemma_counts_seen(t, (j - 1) as nat, h0);
    }
}

proof fn lemma_counts_prefix(p: Seq<char>, s: Seq<char>, j: nat)
    requires
        200 * j <= p.len(),
    ensures
        counts_after(p, j) == counts_after(p + s, j),
    decreases j,
{
    if j > 0 {
        lemma_counts_prefix(p, s, (j - 1) as nat);
        assert(segment(p, j - 1) =~= segment(p + s, j - 1));
    }
}

proof fn lemma_cut_read(t: Seq<char>, j: nat, max: nat)
    requires
        200 * j <= t.len(),
        t.len() <= usize::MAX,
    ensures
        cut_segments(segments_read(t, j, max)).1 <==> exists|q: int|
            j <= q < t.len() / 200 && #[trigger] segment_hit(t, q),
        !cut_segments(segments_read(t, j, max)).1 ==> cut_segments(segments_read(t, j, max)).0
            == segments_read(t, (t.len() / 200) as nat, max),
    decreases t.len() - 200 * j,
{
    let m = segments_read(t, j, max);
    if t.len() - 200 * j < 200 {
        assert(j == t.len() / 200);
    } else {
        assert(j < t.len() / 200);
        assert(m.buf.take(200) =~= segment(t, j as int));
        let h = segment_hash(segment(t, j as int));
        lemma_counts_seen(t, j, h);
        let c = sat(seen(m.hash_counts, h) + 1);
        assert(c == hash_count(t, j + 1, h));
        assert(m.buf.skip(200) =~= t.skip(200 * (j + 1) as int));
        let m1 = ThinkingLoopModel {
            buf: m.buf.skip(200),
            hash_counts: m.hash_counts.insert(h, c as usize),
            ..m
        };
        assert(m1 == segments_read(t, j + 1, max));
        if c >= 3 {
            assert(segment_hit(t, j as int));
        } else {
            assert(!segment_hit(t, j as int));
            lemma_cut_read(t, j + 1, max);
            if cut_segments(m1).1 {
                let w = choose|w: int| j + 1 <= w < t.len() / 200 && #[trigger] segment_hit(t, w);
                assert(segment_hit(t, w));
            }
        }
    }
}

/// Segment law: while no loop was reported for `p` since the detector was
/// built or reset, feeding `s` reports a loop exactly when all the text fed
/// since reaches the hard limit, or one of the 200-character segments that
/// `s` completes is the third (or a later) one with its hash.
pub proof fn law_segment_third_repeat(max: nat, p: Seq<char>, s: Seq<char>)
    requires
        max <= usize::MAX,
        !thinking_feed(fresh_thinking_model(max), p).1,
    ensures
        thinking_feed(fresh_thinking_model(max), p).0 == segments_read(p, (p.len() / 200) as nat, max),
        thinking_feed(thinking_feed(fresh_thinking_model(max), p).0, s).1 <==> ((p + s).len() >= max
            || exists|q: int| p.len() / 200 <= q < (p + s).len() / 200 && #[trigger] segment_hit(p + s, q)),
{
    let f = fresh_thinking_model(max);
    assert(p.len() < max);
    let m0 = ThinkingLoopModel { buf: f.buf + p, total_chars: sat(f.total_chars + p.len()), ..f };
    assert(f.buf + p =~= p.skip(0));
    assert(m0 == segments_read(p, 0, max));
    lemma_cut_read(p, 0, max);
    let jp = (p.len() / 200) as nat;
    let t = p + s;
    let mp = segments_read(p, jp, max);
    if t.len() <= usize::MAX {
        lemma_counts_prefix(p, s, jp);
        assert(mp.buf + s =~= t.skip(200 * jp as int));
        let m1 = ThinkingLoopModel { buf: mp.buf + s, total_chars: sat(mp.total_chars + s.len()), ..mp };
        assert(m1 == segments_read(t, jp, max));
        lemma_cut_read(t, jp, max);
    }
}

/// How many of the first `j` segments of `t` are `x`.
pub open spec fn segment_count(t: Seq<char>, j: nat, x: Seq<char>) -> nat
    decreases j,
{
    if j == 0 {
        0
    } else {
        segment_count(t, (j - 1) as nat, x) + (if segment(t, j - 1) == x {
            1nat
        } else {
            0nat
        })
    }
}

proof fn lemma_counts_agree_below(t: Seq<char>, i: nat, q: int, j: nat)
    requires
        0 <= q < j,
        i <= j,
        forall|a: int, b: int|
            0 <= a < j && 0 <= b < j && #[trigger] segment_hash(segment(t, a)) == #[trigger] segment_hash(
                segment(t, b),
            ) ==> segment(t, a) == segment(t, b),
    ensures
        hash_count(t, i, segment_hash(segment(t, q))) == segment_count(t, i, segment(t, q)),
    decreases i,
{
    if i > 0 {
        lemma_counts_agree_below(t, (i - 1) as nat, q, j);
        if segment_hash(segment(t, i - 1)) == segment_hash(segment(t, q)) {
            assert(segment(t, i - 1) == segment(t, q));
        }
    }
}

/// Where distinct segments of `t` hash apart, segment `q` completes a loop
/// exactly when it is the third (or a later) time that segment is written.
pub proof fn law_segment_hit_is_third_copy(t: Seq<char>, q: int)
    requires
        0 <= q,
        forall|a: int, b: int|
            0 <= a <= q && 0 <= b <= q && #[trigger] segment_hash(segment(t, a)) == #[trigger] segment_hash(
                segment(t, b),
            ) ==> segment(t, a) == segment(t, b),
    ensures
        segment_hit(t, q) <==> segment_count(t, (q + 1) as nat, segment(t, q)) >= 3,
{
    lemma_counts_agree_below(t, (q + 1) as nat, q, (q + 1) as nat);
}

/// `unit` written `k` times in a row.
pub open spec fn repeat(unit: Seq<char>, k: nat) -> Seq<char>
    decreases k,
{
    if k == 0 {
        Seq::empty()
    } else {
        unit + repeat(unit, (k - 1) as nat)
    }
}

proof fn lemma_cut_repeated(m: ThinkingLoopModel, unit: Seq<char>, r: nat, j: nat)
    requires
        unit.len() == m.segment_len,
        m.segment_len > 0,
        m.buf == repeat(unit, r),
        seen(m.hash_counts, segment_hash(unit)) == j,
        j < m.threshold,
        j + r >= m.threshold,
        m.threshold <= usize::MAX,
    ensures
        cut_segments(m).1,
    decreases r,
{
    let h = segment_hash(unit);
    assert(m.buf.take(m.segment_len as int) =~= unit);
    let m1 = ThinkingLoopModel {
        buf: m.buf.skip(m.segment_len as int),
        hash_counts: m.hash_counts.insert(h, (j + 1) as usize),
        ..m
    };
    if j + 1 < m.threshold {
        assert(m.buf.skip(m.segment_len as int) =~= repeat(unit, (r - 1) as nat));
        assert(seen(m1.hash_counts, h) == j + 1);
        lemma_cut_repeated(m1, unit, (r - 1) as nat, j + 1);
    }
}

/// Whole-paragraph repetition: a segment-long paragraph written `threshold`
/// times (or more) in a row, fed to a detector with nothing pending and that
/// has not seen it, reports a loop.
pub proof fn law_repeated_segment_detected(m: ThinkingLoopModel, unit: Seq<char>, k: nat)
    requires
        m.segment_len > 0,
        m.threshold <= usize::MAX,
        unit.len() == m.segment_len,
        m.buf.len() == 0,
        seen(m.hash_counts, segment_hash(unit)) == 0,
        1 <= m.threshold <= k,
    ensures
        thinking_feed(m, repeat(unit, k)).1,
{
    let s = repeat(unit, k);
    let m1 = ThinkingLoopModel { buf: m.buf + s, total_chars: sat(m.total_chars + s.len()), ..m };
    if m1.total_chars < m.max_chars {
        assert(m.buf + s =~= s);
        lemma_cut_repeated(m1, unit, k, 0);
    }
}

proof fn lemma_repeat_len(unit: Seq<char>, k: nat)
    ensures
        repeat(unit, k).len() == k * unit.len(),
    decreases k,
{
    let l = unit.len() as int;
    if k > 0 {
        lemma_repeat_len(unit, (k - 1) as nat);
        assert((k as int) * l == l + ((k as int) - 1) * l) by (nonlinear_arith);
        assert(repeat(unit, k).len() == l + ((k as int) - 1) * l);
    } else {
        assert((k as int) * l == 0) by (nonlinear_arith)
            requires
                k == 0,
        ;
    }
}

proof fn lemma_repeat_index(unit: Seq<char>, k: nat, j: int, t: int)
    requires
        0 <= j < k,
        0 <= t < unit.len(),
    ensures
        j * unit.len() + t < repeat(unit, k).len(),
        repeat(unit, k)[j * unit.len() + t] == unit[t],
    decreases k,
{
    let l = unit.len() as int;
    lemma_repeat_len(unit, k);
    assert(j * l + t < (k as int) * l) by (nonlinear_arith)
        requires
            0 <= j < k,
            0 <= t < l,
    ;
    if j > 0 {
        lemma_repeat_index(unit, (k - 1) as nat, j - 1, t);
        assert((j - 1) * l + t + l == j * l + t) by (nonlinear_arith);
    }
}

proof fn lemma_count_mono(s: Seq<char>, pat: Seq<char>, a: int, b: int)
    requires
        0 <= a <= b,
    ensures
        count_from(s, pat, a) >= count_from(s, pat, b),
    decreases b - a,
{
    if a < b {
        lemma_count_mono(s, pat, a + 1, b);
    }
}

/// In `unit` written `k` times, the last `n` characters occur at least `k`
/// times (once at the end of every copy).
proof fn lemma_count_repeat(unit: Seq<char>, k: nat, n: nat)
    requires
        1 <= n <= unit.len(),
        k >= 1,
    ensures
        count_occurrences(repeat(unit, k), last_n(repeat(unit, k), n)) >= k,
{
    let s = repeat(unit, k);
    let l = unit.len() as int;
    let pat = last_n(s, n);
    lemma_repeat_len(unit, k);
    assert(s.len() == (k as int) * l);
    // every copy ends with the pattern
    assert forall|j: int| 0 <= j < k implies occurs_at(s, pat, #[trigger] (j * l + l - n)) by {
        assert(j * l + l <= (k as int) * l) by (nonlinear_arith)
            requires
                0 <= j < k,
                0 <= l,
        ;
        assert forall|t: int| 0 <= t < n implies s.subrange(j * l + l - n, j * l + l)[t] == pat[t] by {
            lemma_repeat_index(unit, k, j, l - n + t);
            lemma_repeat_index(unit, k, (k - 1) as int, l - n + t);
            assert((k - 1) * l + (l - n + t) == s.len() - n + t) by (nonlinear_arith)
                requires
                    s.len() == (k as int) * l,
            ;
        }
        assert(s.subrange(j * l + l - n, j * l + l) =~= pat);
    }
    lemma_count_copies(s, pat, l, n as int, k as int, 0);
    assert(0 * l + l - n == l - n);
    lemma_count_mono(s, pat, 0, l - n);
}

/// From the end of copy `j` on, the pattern occurs at least once per
/// remaining copy.
proof fn lemma_count_copies(s: Seq<char>, pat: Seq<char>, l: int, n: int, k: int, j: int)
    requires
        1 <= n <= l,
        0 <= j < k,
        forall|i: int| 0 <= i < k ==> occurs_at(s, pat, #[trigger] (i * l + l - n)),
    ensures
        count_from(s, pat, j * l + l - n) >= k - j,
    decreases k - j,
{
    assert(occurs_at(s, pat, j * l + l - n));
    assert(j * l + l - n >= 0) by (nonlinear_arith)
        requires
            j >= 0,
            1 <= n <= l,
    ;
    if j + 1 < k {
        lemma_count_copies(s, pat, l, n, k, j + 1);
        assert(j * l + l - n + 1 <= (j + 1) * l + l - n) by (nonlinear_arith)
            requires
                1 <= n <= l,
        ;
        lemma_count_mono(s, pat, j * l + l - n + 1, (j + 1) * l + l - n);
    }
}

proof fn lemma_feed_repeat(m: LoopModel, s: Seq<char>, i: int, k: nat, unit: Seq<char>)
    requires
        s == repeat(unit, k),
        k >= 1,
        1 <= m.n <= unit.len(),
        m.threshold <= k,
        s.len() <= m.window_size,
        0 <= i < s.len(),
        m.buf == s.take(i),
    ensures
        loop_feed(m, s.skip(i)).1,
    decreases s.len() - i,
{
    let rest = s.skip(i);
    let c = rest[0];
    assert(c == s[i]);
    let buf1 = m.buf.push(c);
    assert(buf1 =~= s.take(i + 1));
    let (m1, d) = loop_step(m, c);
    if !d {
        if i + 1 == s.len() {
            assert(buf1 =~= s);
            lemma_repeat_len(unit, k);
            assert(s.len() >= unit.len()) by (nonlinear_arith)
                requires
                    s.len() == k * unit.len(),
                    k >= 1,
            ;
            lemma_count_repeat(unit, k, m.n);
        } else {
            assert(rest.skip(1) =~= s.skip(i + 1));
            lemma_feed_repeat(m1, s, i + 1, k, unit);
        }
    }
}

/// Repetition law: a chunk at least one n-gram long, written `threshold`
/// times in a row into an empty window that holds them all, is reported as
/// a loop (at the latest at its last character).
pub proof fn law_repeated_chunk_detected(m: LoopModel, unit: Seq<char>)
    requires
        1 <= m.n <= unit.len(),
        m.threshold >= 1,
        m.buf.len() == 0,
        m.threshold * unit.len() <= m.window_size,
    ensures
        loop_feed(m, repeat(unit, m.threshold)).1,
{
    let s = repeat(unit, m.threshold);
    lemma_repeat_len(unit, m.threshold);
    assert(s.len() >= 1) by (nonlinear_arith)
        requires
            s.len() == m.threshold * unit.len(),
            m.threshold >= 1,
            unit.len() >= 1,
    ;
    assert(m.buf =~= s.take(0));
    assert(s.skip(0) =~= s);
    lemma_feed_repeat(m, s, 0, m.threshold, unit);
}

} // verus!
