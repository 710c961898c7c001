//! TextRank sentence selection.
//!
//! The ranking itself (sentence similarity |Wi ∩ Wj| / (log|Wi| + log|Wj|)
//! and the power iteration WS(Vi) = (1-d) + d * Σ w_ji / Σ w_jk * WS(Vj)) is
//! floating-point work done by the caller, which hands over the sentence
//! indices ordered by falling score. Here the best sentences are taken
//! greedily within the target length (the best one alone where none fits)
//! and joined in their original order.
use vstd::prelude::*;

use crate::algo::tokenize::Sentence;
use crate::text::{concat, from_chars, to_chars};

verus! {

/// `order` lists each of `0..n` exactly once.
pub open spec fn is_permutation(order: Seq<usize>, n: nat) -> bool {
    &&& order.len() == n
    &&& forall|i: int| 0 <= i < order.len() ==> #[trigger] order[i] < n
    &&& forall|i: int, j: int|
        0 <= i < order.len() && 0 <= j < order.len() && i != j ==> order[i] != order[j]
}

/// Greedy selection along `order`: the chosen indices, their characters, and
/// whether the selection is closed. A sentence that does not fit is skipped;
/// only when nothing is chosen yet is the best one taken alone, so that the
/// result is never empty, and the selection closes there.
pub open spec fn greedy(lens: Seq<nat>, order: Seq<usize>, target: nat) -> (Seq<usize>, nat, bool)
    decreases order.len(),
{
    if order.len() == 0 {
        (Seq::empty(), 0, false)
    } else {
        let (sel, tot, stop) = greedy(lens, order.drop_last(), target);
        if stop {
            (sel, tot, stop)
        } else {
            let i = order.last();
            let c = lens[i as int];
            if tot + c > target {
                if sel.len() == 0 {
                    (sel.push(i), tot + c, true)
                } else {
                    (sel, tot, false)
                }
            } else {
                (sel.push(i), tot + c, tot + c >= target)
            }
        }
    }
}

/// The texts of the chosen indices below `m`, in index order.
pub open spec fn join_selected(texts: Seq<Seq<char>>, sel: Seq<usize>, m: nat) -> Seq<char>
    decreases m,
{
    if m == 0 {
        Seq::empty()
    } else {
        let prev = join_selected(texts, sel, (m - 1) as nat);
        if sel.contains((m - 1) as usize) {
            prev + texts[m - 1]
        } else {
            prev
        }
    }
}

/// The selection for sentences with the given texts, ranked by `order`.
pub open spec fn select_spec(texts: Seq<Seq<char>>, order: Seq<usize>, target: nat) -> Seq<char> {
    if texts.len() == 0 {
        Seq::empty()
    } else if texts.len() == 1 {
        texts[0]
    } else {
        let lens = texts.map_values(|t: Seq<char>| t.len());
        join_selected(texts, greedy(lens, order, target).0, texts.len())
    }
}

/// The texts of a list of sentences.
pub open spec fn texts_of(v: Seq<Sentence>) -> Seq<Seq<char>> {
    v.map_values(|s: Sentence| s.text@)
}

/// Whether `v` holds `x`.
fn contains_index(v: &Vec<usize>, x: usize) -> (b: bool)
    ensures
        b == v@.contains(x),
{
    let mut i: usize = 0;
    while i < v.len()
        invariant
            i <= v.len(),
            forall|k: int| 0 <= k < i ==> v@[k] != x,
        decreases v.len() - i,
    {
        if v[i] == x {
            return true;
        }
        i += 1;
    }
    false
}

/// Takes the best-ranked sentences up to `target_chars` characters and joins
/// them in their original order. `order` ranks the sentence indices from the
/// highest score down.
pub fn select(sentences: &Vec<Sentence>, order: &Vec<usize>, target_chars: usize) -> (r: String)
    requires
        is_permutation(order@, sentences.len() as nat),
    ensures
        r@ == select_spec(texts_of(sentences@), order@, target_chars as nat),
{
    let n = sentences.len();
    let ghost texts = texts_of(sentences@);
    if n == 0 {
        return from_chars(&Vec::new());
    }
    if n == 1 {
        return sentences[0].text.clone();
    }
    let ghost lens = texts.map_values(|t: Seq<char>| t.len());
    let mut selected: Vec<usize> = Vec::new();
    let mut total: usize = 0;
    let mut k: usize = 0;
    let mut stopped = false;
    assert(order@.take(0) =~= Seq::<usize>::empty());
    while k < order.len() && !stopped
        invariant
            n == sentences.len(),
            texts == texts_of(sentences@),
            lens == texts.map_values(|t: Seq<char>| t.len()),
            is_permutation(order@, n as nat),
            k <= order.len(),
            greedy(lens, order@.take(k as int), target_chars as nat) == (
                selected@,
                total as nat,
                stopped,
            ),
            !stopped ==> total <= target_chars,
            selected@.len() == 0 ==> total == 0,
        decreases order.len() - k,
    {
        let i = order[k];
        assert(order@.take(k + 1).drop_last() =~= order@.take(k as int));
        assert(i < n);
        let c = to_chars(sentences[i].text.as_str()).len();
        assert(lens[i as int] == c);
        if c > target_chars - total {
            if selected.len() == 0 {
                selected.push(i);
                total = c;
                stopped = true;
            }
            k += 1;
            continue ;
        }
        selected.push(i);
        total = total + c;
        k += 1;
        stopped = total >= target_chars;
    }
    let ghost sel = selected@;
    proof {
        // whatever the loop stopped on, the rest of the order changes nothing
        lemma_greedy_stopped(lens, order@, k as int, target_chars as nat);
    }
    let mut out: Vec<char> = Vec::new();
    let mut m: usize = 0;
    while m < n
        invariant
            n == sentences.len(),
            texts == texts_of(sentences@),
            m <= n,
            selected@ == sel,
            out@ == join_selected(texts, sel, m as nat),
        decreases n - m,
    {
        if contains_index(&selected, m) {
            let t = to_chars(sentences[m].text.as_str());
            crate::text::append(&mut out, &t);
        }
        m += 1;
    }
    from_chars(&out)
}

/// Once the greedy selection has reached its target, further sentences
/// change nothing.
proof fn lemma_greedy_stopped(lens: Seq<nat>, order: Seq<usize>, k: int, target: nat)
    requires
        0 <= k <= order.len(),
        greedy(lens, order.take(k), target).2 || k == order.len(),
    ensures
        greedy(lens, order, target) == greedy(lens, order.take(k), target),
    decreases order.len() - k,
{
    if k == order.len() {
        assert(order.take(k) =~= order);
    } else {
        assert(order.take(k + 1).drop_last() =~= order.take(k));
        lemma_greedy_stopped(lens, order, k + 1, target);
    }
}

/// The characters of the chosen indices.
pub open spec fn chosen_len(lens: Seq<nat>, sel: Seq<usize>) -> nat
    decreases sel.len(),
{
    if sel.len() == 0 {
        0
    } else {
        chosen_len(lens, sel.drop_last()) + lens[sel.last() as int]
    }
}

/// Greedy selection law: as soon as there is a sentence, at least one is
/// chosen; the count is the characters of the chosen sentences; and they stay
/// within the target, unless a single sentence was chosen.
pub proof fn law_greedy_nonempty_within_target(lens: Seq<nat>, order: Seq<usize>, target: nat)
    ensures
        greedy(lens, order, target).1 == chosen_len(lens, greedy(lens, order, target).0),
        greedy(lens, order, target).1 <= target || greedy(lens, order, target).0.len() == 1,
        order.len() > 0 ==> greedy(lens, order, target).0.len() > 0,
    decreases order.len(),
{
    if order.len() > 0 {
        law_greedy_nonempty_within_target(lens, order.drop_last(), target);
        let (sel, tot, stop) = greedy(lens, order.drop_last(), target);
        let i = order.last();
        assert(sel.push(i).drop_last() =~= sel);
    }
}

proof fn lemma_join_shrinks(texts: Seq<Seq<char>>, sel: Seq<usize>, m: nat)
    requires
        m <= texts.len(),
    ensures
        join_selected(texts, sel, m).len() <= concat(texts.take(m as int)).len(),
    decreases m,
{
    if m > 0 {
        lemma_join_shrinks(texts, sel, (m - 1) as nat);
        assert(texts.take(m as int).drop_last() =~= texts.take(m - 1));
    }
}

/// The selection is no longer than all the sentences put together.
pub proof fn lemma_select_shrinks(texts: Seq<Seq<char>>, order: Seq<usize>, target: nat)
    ensures
        select_spec(texts, order, target).len() <= concat(texts).len(),
{
    if texts.len() == 1 {
        assert(texts.drop_last() =~= Seq::<Seq<char>>::empty());
    } else if texts.len() > 1 {
        let lens = texts.map_values(|t: Seq<char>| t.len());
        lemma_join_shrinks(texts, greedy(lens, order, target).0, texts.len());
        assert(texts.take(texts.len() as int) =~= texts);
    }
}

} // verus!
