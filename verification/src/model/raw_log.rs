//! The raw responses kept in the log: cut to a number of UTF-8 bytes, always
//! at a character boundary.
use vstd::prelude::*;

use crate::text::{append, concat2, decimal, decimal_exec, from_chars, to_chars};

verus! {

/// Bytes of a raw response kept in the log.
pub const RAW_LIMIT: usize = 4000;

/// Bytes of a raw response quoted in an error message.
pub const EXCERPT_LIMIT: usize = 400;

/// The number of bytes UTF-8 takes for `c`.
pub open spec fn utf8_width(c: char) -> nat {
    if (c as u32) < 0x80 {
        1
    } else if (c as u32) < 0x800 {
        2
    } else if (c as u32) < 0x10000 {
        3
    } else {
        4
    }
}

/// The number of bytes of `s` in UTF-8.
pub open spec fn utf8_len(s: Seq<char>) -> nat
    decreases s.len(),
{
    if s.len() == 0 {
        0
    } else {
        utf8_width(s[0]) + utf8_len(s.drop_first())
    }
}

/// The longest prefix of `s` that fits in `max` bytes.
pub open spec fn byte_prefix(s: Seq<char>, max: nat) -> Seq<char>
    decreases s.len(),
{
    if s.len() > 0 && utf8_width(s[0]) <= max {
        seq![s[0]] + byte_prefix(s.drop_first(), (max - utf8_width(s[0])) as nat)
    } else {
        Seq::empty()
    }
}

/// A raw response as the log keeps it: whole if it fits in `RAW_LIMIT`
/// bytes; otherwise cut there, with a note of its full length in bytes.
pub open spec fn truncated_raw(raw: Seq<char>) -> Seq<char> {
    if utf8_len(raw) > RAW_LIMIT {
        byte_prefix(raw, RAW_LIMIT as nat) + "…（截断，完整 "@ + decimal(utf8_len(raw)) + " 字符）"@
    } else {
        raw
    }
}

/// A raw response as an error message quotes it: whole if it fits in
/// `EXCERPT_LIMIT` bytes; otherwise cut there and marked with an ellipsis.
pub open spec fn excerpt(raw: Seq<char>) -> Seq<char> {
    if utf8_len(raw) > EXCERPT_LIMIT {
        byte_prefix(raw, EXCERPT_LIMIT as nat) + "…"@
    } else {
        raw
    }
}

/// The recorded stream after one more line: while the record is under
/// `RAW_LIMIT` bytes a line that fits is added with a line end, one that does
/// not is cut to the room left; at the limit nothing more is added.
pub open spec fn record_line_spec(buf: Seq<char>, line: Seq<char>) -> Seq<char> {
    if utf8_len(buf) < RAW_LIMIT {
        let room = (RAW_LIMIT - utf8_len(buf)) as nat;
        if utf8_len(line) <= room {
            buf + line + seq!['\n']
        } else {
            buf + byte_prefix(line, room)
        }
    } else {
        buf
    }
}

fn utf8_width_exec(c: char) -> (w: usize)
    ensures
        w == utf8_width(c),
{
    let v = c as u32;
    if v < 0x80 {
        1
    } else if v < 0x800 {
        2
    } else if v < 0x10000 {
        3
    } else {
        4
    }
}

proof fn lemma_skip_step(s: Seq<char>, i: int)
    requires
        0 <= i < s.len(),
    ensures
        s.skip(i).len() > 0,
        s.skip(i)[0] == s[i],
        s.skip(i).drop_first() == s.skip(i + 1),
{
    assert(s.skip(i).drop_first() =~= s.skip(i + 1));
}

/// Whether `s` fits in `max` bytes.
fn fits_in(s: &Vec<char>, max: usize) -> (b: bool)
    ensures
        b == (utf8_len(s@) <= max),
{
    let mut used: usize = 0;
    let mut i: usize = 0;
    assert(s@.skip(0) =~= s@);
    while i < s.len()
        invariant
            i <= s.len(),
            used <= max,
            utf8_len(s@) == used + utf8_len(s@.skip(i as int)),
        decreases s.len() - i,
    {
        proof {
            lemma_skip_step(s@, i as int);
        }
        let w = utf8_width_exec(s[i]);
        if w > max - used {
            return false;
        }
        used = used + w;
        i += 1;
    }
    assert(s@.skip(i as int).len() == 0);
    true
}

/// The number of bytes of `s` in UTF-8.
fn byte_len(s: &Vec<char>) -> (n: usize)
    requires
        utf8_len(s@) <= usize::MAX,
    ensures
        n == utf8_len(s@),
{
    let mut used: usize = 0;
    let mut i: usize = 0;
    assert(s@.skip(0) =~= s@);
    while i < s.len()
        invariant
            i <= s.len(),
            utf8_len(s@) <= usize::MAX,
            utf8_len(s@) == used + utf8_len(s@.skip(i as int)),
        decreases s.len() - i,
    {
        proof {
            lemma_skip_step(s@, i as int);
        }
        used = used + utf8_width_exec(s[i]);
        i += 1;
    }
    assert(s@.skip(i as int).len() == 0);
    used
}

/// The longest prefix of `s` that fits in `max` bytes.
fn byte_prefix_exec(s: &Vec<char>, max: usize) -> (r: Vec<char>)
    ensures
        r@ == byte_prefix(s@, max as nat),
{
    let mut r: Vec<char> = Vec::new();
    let mut used: usize = 0;
    let mut i: usize = 0;
    assert(s@.skip(0) =~= s@);
    while i < s.len()
        invariant
            i <= s.len(),
            used <= max,
            r@ == s@.take(i as int),
            byte_prefix(s@, max as nat) == r@ + byte_prefix(s@.skip(i as int), (max - used) as nat),
        decreases s.len() - i,
    {
        proof {
            lemma_skip_step(s@, i as int);
        }
        let w = utf8_width_exec(s[i]);
        if w > max - used {
            assert(byte_prefix(s@.skip(i as int), (max - used) as nat) =~= Seq::<char>::empty());
            assert(r@ + Seq::<char>::empty() =~= r@);
            return r;
        }
        proof {
            let rest = byte_prefix(s@.skip(i + 1), (max - used - w) as nat);
            assert(r@ + (seq![s@[i as int]] + rest) =~= r@.push(s@[i as int]) + rest);
        }
        r.push(s[i]);
        used = used + w;
        i += 1;
        assert(r@ =~= s@.take(i as int));
    }
    assert(s@.skip(i as int).len() == 0);
    assert(r@ + Seq::<char>::empty() =~= r@);
    r
}

/// Cuts a raw response for the log: whole if it fits in `RAW_LIMIT` bytes,
/// otherwise cut at the last character boundary within them, followed by a
/// note of its full length. (The byte length of a string always fits in a
/// `usize`.)
pub fn truncate_raw(raw: &str) -> (r: String)
    requires
        utf8_len(raw@) <= usize::MAX,
    ensures
        r@ == truncated_raw(raw@),
{
    let chars = to_chars(raw);
    if fits_in(&chars, RAW_LIMIT) {
        return from_chars(&chars);
    }
    let n = byte_len(&chars);
    let head = byte_prefix_exec(&chars, RAW_LIMIT);
    let a = concat2(&head, &to_chars("…（截断，完整 "));
    let b = concat2(&a, &decimal_exec(n));
    let c = concat2(&b, &to_chars(" 字符）"));
    from_chars(&c)
}

/// Cuts a raw response for an error message: whole if it fits in
/// `EXCERPT_LIMIT` bytes, otherwise cut at the last character boundary within
/// them and followed by an ellipsis.
pub fn error_excerpt(raw: &str) -> (r: String)
    ensures
        r@ == excerpt(raw@),
{
    let chars = to_chars(raw);
    if fits_in(&chars, EXCERPT_LIMIT) {
        return from_chars(&chars);
    }
    let head = byte_prefix_exec(&chars, EXCERPT_LIMIT);
    from_chars(&concat2(&head, &to_chars("…")))
}

/// Adds a streamed line to the recorded raw stream (see `record_line_spec`).
pub fn record_line(buf: &mut String, line: &str)
    ensures
        final(buf)@ == record_line_spec(old(buf)@, line@),
{
    let bv = to_chars(buf.as_str());
    if !fits_in(&bv, RAW_LIMIT - 1) {
        return ;
    }
    let used = byte_len(&bv);
    let room = RAW_LIMIT - used;
    let lv = to_chars(line);
    let mut out = bv;
    if fits_in(&lv, room) {
        append(&mut out, &lv);
        out.push('\n');
    } else {
        let head = byte_prefix_exec(&lv, room);
        append(&mut out, &head);
    }
    *buf = from_chars(&out);
}

/// Recording law: a record that starts within `RAW_LIMIT` bytes ends within
/// them plus one line end, however many lines are added.
pub proof fn law_record_bounded(buf: Seq<char>, line: Seq<char>)
    requires
        utf8_len(buf) <= RAW_LIMIT + 1,
    ensures
        utf8_len(record_line_spec(buf, line)) <= RAW_LIMIT + 1,
{
    if utf8_len(buf) < RAW_LIMIT {
        let room = (RAW_LIMIT - utf8_len(buf)) as nat;
        if utf8_len(line) <= room {
            lemma_utf8_len_concat(buf, line);
            lemma_utf8_len_concat(buf + line, seq!['\n']);
            assert(seq!['\n'].drop_first() =~= Seq::<char>::empty());
            assert(utf8_len(Seq::<char>::empty()) == 0);
            assert(utf8_width('\n') == 1);
            assert(utf8_len(seq!['\n']) == 1);
        } else {
            lemma_byte_prefix_fits(line, room);
            lemma_utf8_len_concat(buf, byte_prefix(line, room));
        }
    }
}

/// Bytes add up over a concatenation.
pub proof fn lemma_utf8_len_concat(a: Seq<char>, b: Seq<char>)
    ensures
        utf8_len(a + b) == utf8_len(a) + utf8_len(b),
    decreases a.len(),
{
    if a.len() > 0 {
        assert((a + b).drop_first() =~= a.drop_first() + b);
        lemma_utf8_len_concat(a.drop_first(), b);
    } else {
        assert(a + b =~= b);
    }
}

/// The prefix fits in its bytes.
pub proof fn lemma_byte_prefix_fits(s: Seq<char>, max: nat)
    ensures
        utf8_len(byte_prefix(s, max)) <= max,
    decreases s.len(),
{
    if s.len() > 0 && utf8_width(s[0]) <= max {
        let m = (max - utf8_width(s[0])) as nat;
        lemma_byte_prefix_fits(s.drop_first(), m);
        let p = seq![s[0]] + byte_prefix(s.drop_first(), m);
        assert(p.drop_first() =~= byte_prefix(s.drop_first(), m));
    }
}

} // verus!
