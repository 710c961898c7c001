//! Line framing for streamed HTTP bodies (NDJSON and server-sent events).
use vstd::prelude::*;

use crate::text::{find, find_exec, from_chars, lemma_find_from_some, occurs_at, to_chars};

verus! {

/// Line-end characters dropped from the end of a line.
pub open spec fn is_line_end(c: char) -> bool {
    c == '\n' || c == '\r'
}

/// `s` without trailing line-end characters.
pub open spec fn trim_line_end(s: Seq<char>) -> Seq<char>
    decreases s.len(),
{
    if s.len() > 0 && is_line_end(s.last()) {
        trim_line_end(s.drop_last())
    } else {
        s
    }
}

/// Bytes of a streamed body, decoded, waiting to be cut into lines.
pub struct LineBuffer {
    buf: Vec<char>,
}

impl View for LineBuffer {
    type V = Seq<char>;

    closed spec fn view(&self) -> Seq<char> {
        self.buf@
    }
}

fn newline() -> (v: Vec<char>)
    ensures
        v@ == seq!['\n'],
{
    let v = vec!['\n'];
    assert(v@ =~= seq!['\n']);
    v
}

fn trim_line_end_exec(s: &Vec<char>) -> (r: Vec<char>)
    ensures
        r@ == trim_line_end(s@),
{
    let mut end = s.len();
    assert(s@.subrange(0, end as int) =~= s@);
    while end > 0 && (s[end - 1] == '\n' || s[end - 1] == '\r')
        invariant
            end <= s.len(),
            trim_line_end(s@.subrange(0, end as int)) == trim_line_end(s@),
        decreases end,
    {
        assert(s@.subrange(0, end as int).drop_last() =~= s@.subrange(0, end - 1));
        end -= 1;
    }
    let mut r: Vec<char> = Vec::new();
    let mut k: usize = 0;
    while k < end
        invariant
            k <= end <= s.len(),
            r@ == s@.subrange(0, k as int),
        decreases end - k,
    {
        r.push(s[k]);
        k += 1;
        assert(r@ =~= s@.subrange(0, k as int));
    }
    r
}

impl LineBuffer {
    /// An empty buffer.
    pub fn new() -> (b: Self)
        ensures
            b@ == Seq::<char>::empty(),
    {
        LineBuffer { buf: Vec::new() }
    }

    /// Appends a decoded chunk.
    pub fn push(&mut self, chunk: &str)
        ensures
            final(self)@ == old(self)@ + chunk@,
    {
        let c = to_chars(chunk);
        crate::text::append(&mut self.buf, &c);
    }

    /// Takes the next complete line (up to and including the first line
    /// break), returned without trailing `\n`/`\r`; `None` while no line
    /// break is buffered.
    pub fn next_line(&mut self) -> (r: Option<String>)
        ensures
            match find(old(self)@, seq!['\n']) {
                Some(p) => r is Some && r->0@ == trim_line_end(old(self)@.take(p + 1))
                    && final(self)@ == old(self)@.skip(p + 1),
                None => r is None && final(self)@ == old(self)@,
            },
    {
        let nl = newline();
        match find_exec(&self.buf, &nl) {
            Some(pos) => {
                proof {
                    lemma_find_from_some(self.buf@, nl@, 0);
                }
                let mut line: Vec<char> = Vec::new();
                let mut k: usize = 0;
                while k <= pos
                    invariant
                        pos < self.buf.len(),
                        k <= pos + 1,
                        line@ == self.buf@.take(k as int),
                    decreases pos + 1 - k,
                {
                    line.push(self.buf[k]);
                    k += 1;
                    assert(line@ =~= self.buf@.take(k as int));
                }
                let mut rest: Vec<char> = Vec::new();
                let mut j: usize = pos + 1;
                while j < self.buf.len()
                    invariant
                        pos + 1 <= j <= self.buf.len(),
                        rest@ == self.buf@.subrange(pos + 1, j as int),
                    decreases self.buf.len() - j,
                {
                    rest.push(self.buf[j]);
                    j += 1;
                    assert(rest@ =~= self.buf@.subrange(pos + 1, j as int));
                }
                assert(rest@ =~= self.buf@.skip(pos + 1));
                self.buf = rest;
                Some(from_chars(&trim_line_end_exec(&line)))
            },
            None => None,
        }
    }

    /// Takes every complete line, in order (see `drain_lines`); what follows
    /// the last line break stays.
    pub fn drain(&mut self) -> (r: Vec<String>)
        ensures
            r@.map_values(|s: String| s@) == drain_lines(old(self)@).0,
            final(self)@ == drain_lines(old(self)@).1,
    {
        let mut out: Vec<String> = Vec::new();
        let ghost start = self@;
        loop
            invariant
                start == old(self)@,
                out@.map_values(|s: String| s@) + drain_lines(self@).0 == drain_lines(start).0,
                drain_lines(self@).1 == drain_lines(start).1,
            decreases self@.len(),
        {
            let ghost before = self@;
            proof {
                lemma_find_from_some(before, seq!['\n'], 0);
            }
            match self.next_line() {
                Some(line) => {
                    let ghost lines_before = out@.map_values(|s: String| s@);
                    out.push(line);
                    proof {
                        assert(out@.map_values(|s: String| s@) =~= lines_before.push(line@));
                        let rest = drain_lines(self@).0;
                        assert(lines_before.push(line@) + rest =~= lines_before + (seq![line@] + rest));
                    }
                },
                None => {
                    proof {
                        assert(find(self@, seq!['\n']) is None);
                        assert(drain_lines(self@).0 =~= Seq::<Seq<char>>::empty());
                        assert(drain_lines(self@).1 == self@);
                        assert(out@.map_values(|s: String| s@) + Seq::<Seq<char>>::empty() =~= out@.map_values(
                            |s: String| s@,
                        ));
                    }
                    return out;
                },
            }
        }
    }
}

/// The complete lines held in `buf`, each without its line end, and what
/// is left after the last line break.
pub open spec fn drain_lines(buf: Seq<char>) -> (Seq<Seq<char>>, Seq<char>)
    decreases buf.len(),
{
    match find(buf, seq!['\n']) {
        Some(p) => if 0 <= p < buf.len() {
            let (ls, r) = drain_lines(buf.skip(p + 1));
            (seq![trim_line_end(buf.take(p + 1))] + ls, r)
        } else {
            (Seq::empty(), buf)
        },
        None => (Seq::empty(), buf),
    }
}

/// Framing law: the lines a body yields do not depend on how it is cut into
/// chunks. Draining the lines of `a`, then of what was left followed by `b`,
/// gives the lines of `a + b` and leaves the same rest.
pub proof fn law_lines_chunking(a: Seq<char>, b: Seq<char>)
    ensures
        drain_lines(a + b) == ({
            let (la, ra) = drain_lines(a);
            let (lb, rb) = drain_lines(ra + b);
            (la + lb, rb)
        }),
    decreases a.len(),
{
    let nl = seq!['\n'];
    lemma_find_from_some(a, nl, 0);
    match find(a, nl) {
        Some(p) => {
            let ab = a + b;
            assert(ab.subrange(p, p + 1) =~= a.subrange(p, p + 1));
            assert forall|k: int| 0 <= k < p implies !occurs_at(ab, nl, k) by {
                assert(!occurs_at(a, nl, k));
                assert(ab.subrange(k, k + 1) =~= a.subrange(k, k + 1));
            }
            crate::text::lemma_find_first(ab, nl, 0, p);
            let a2 = a.skip(p + 1);
            assert(ab.take(p + 1) =~= a.take(p + 1));
            assert(ab.skip(p + 1) =~= a2 + b);
            law_lines_chunking(a2, b);
            let (la2, ra2) = drain_lines(a2);
            let (lb, rb) = drain_lines(ra2 + b);
            let line = seq![trim_line_end(a.take(p + 1))];
            assert(line + (la2 + lb) =~= (line + la2) + lb);
        },
        None => {
            let (lb, rb) = drain_lines(a + b);
            assert(Seq::<Seq<char>>::empty() + lb =~= lb);
        },
    }
}

// ==================== server-sent events ====================

/// The payload of a server-sent-event line: what follows `data: ` or
/// `data:`, trimmed; `None` for other lines.
pub open spec fn sse_data(line: Seq<char>) -> Option<Seq<char>> {
    if crate::text::starts_with(line, "data: "@) {
        Some(crate::text::trim(line.skip(6)))
    } else if crate::text::starts_with(line, "data:"@) {
        Some(crate::text::trim(line.skip(5)))
    } else {
        None
    }
}

/// The payload of an SSE line that carries JSON: not blank and not `[DONE]`.
pub open spec fn sse_json_payload(line: Seq<char>) -> Option<Seq<char>> {
    match sse_data(line) {
        Some(d) => if d.len() == 0 || d == "[DONE]"@ { None } else { Some(d) },
        None => None,
    }
}

/// The JSON payload of one server-sent-event line, if it carries one.
pub fn sse_payload(line: &str) -> (r: Option<String>)
    ensures
        match r {
            Some(s) => sse_json_payload(line@) == Some(s@),
            None => sse_json_payload(line@) is None,
        },
{
    proof {
        reveal_strlit("data: ");
        reveal_strlit("data:");
    }
    let l = to_chars(line);
    let p6 = to_chars("data: ");
    let p5 = to_chars("data:");
    let data = if crate::text::has_prefix(&l, &p6) {
        crate::text::trim_exec(&skip_chars(&l, 6))
    } else if crate::text::has_prefix(&l, &p5) {
        crate::text::trim_exec(&skip_chars(&l, 5))
    } else {
        return None;
    };
    if data.len() == 0 {
        return None;
    }
    let done = to_chars("[DONE]");
    if crate::text::seq_eq(&data, &done) {
        return None;
    }
    Some(from_chars(&data))
}

/// The characters of `v` from `k` on.
pub fn skip_chars(v: &Vec<char>, k: usize) -> (r: Vec<char>)
    requires
        k <= v.len(),
    ensures
        r@ == v@.skip(k as int),
{
    let mut r: Vec<char> = Vec::new();
    let mut i = k;
    while i < v.len()
        invariant
            k <= i <= v.len(),
            r@ == v@.subrange(k as int, i as int),
        decreases v.len() - i,
    {
        r.push(v[i]);
        i += 1;
        assert(r@ =~= v@.subrange(k as int, i as int));
    }
    assert(r@ =~= v@.skip(k as int));
    r
}

} // verus!
