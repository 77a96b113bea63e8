//! Segmenter: one left-to-right, longest-match pass of a dictionary over a text.
use vstd::prelude::*;
use crate::dict::{Dictionary, match_len, occurs_at, phrases_fit};

verus! {

/// The output of a pass of table `m` (longest phrase `max`) over `text` from
/// position `pos` on: at each position the longest phrase that stands there is
/// replaced and skipped; a position where none stands keeps its character.
pub open spec fn pass_from(m: Map<Seq<char>, Seq<char>>, max: nat, text: Seq<char>, pos: int) -> Seq<char>
    decreases text.len() - pos,
{
    if pos < 0 || pos >= text.len() {
        Seq::empty()
    } else {
        let k = match_len(m, text, pos, max);
        if k == 0 || pos + k > text.len() {
            seq![text[pos]] + pass_from(m, max, text, pos + 1)
        } else {
            m[text.subrange(pos, pos + k)] + pass_from(m, max, text, pos + k)
        }
    }
}

/// The output of a whole pass of table `m` over `text`.
pub open spec fn pass(m: Map<Seq<char>, Seq<char>>, max: nat, text: Seq<char>) -> Seq<char> {
    pass_from(m, max, text, 0)
}

/// Character `c` occurs in some source phrase of `m`.
pub open spec fn mentions(m: Map<Seq<char>, Seq<char>>, c: char) -> bool {
    exists|k: Seq<char>| #[trigger] m.contains_key(k) && k.contains(c)
}

/// Applies `dict` to `text` in one longest-match pass.
pub fn apply(dict: &Dictionary, text: &[char]) -> (r: Vec<char>)
    requires
        dict.wf(),
    ensures
        r@ == pass(dict.table(), dict.max_len(), text@),
{
    let n = text.len();
    let ghost m = dict.table();
    let ghost max = dict.max_len();
    let mut out: Vec<char> = Vec::new();
    let mut pos: usize = 0;
    while pos < n
        invariant
            dict.wf(),
            n == text@.len(),
            pos <= n,
            m == dict.table(),
            max == dict.max_len(),
            out@ + pass_from(m, max, text@, pos as int) == pass(m, max, text@),
        decreases n - pos,
    {
        let ghost before = out@;
        match dict.lookup(text, pos) {
            Some((k, rep)) => {
                proof {
                    lemma_match_len(m, text@, pos as int, max);
                }
                let mut j: usize = 0;
                while j < rep.len()
                    invariant
                        j <= rep@.len(),
                        out@ == before + rep@.subrange(0, j as int),
                    decreases rep@.len() - j,
                {
                    out.push(rep[j]);
                    j = j + 1;
                    assert(out@ =~= before + rep@.subrange(0, j as int));
                }
                assert(rep@.subrange(0, j as int) =~= rep@);
                assert(before + (rep@ + pass_from(m, max, text@, pos + k)) =~= out@ + pass_from(
                    m,
                    max,
                    text@,
                    pos + k,
                ));
                pos = pos + k;
            },
            None => {
                out.push(text[pos]);
                assert(before + (seq![text@[pos as int]] + pass_from(m, max, text@, pos + 1))
                    =~= out@ + pass_from(m, max, text@, pos + 1));
                pos = pos + 1;
            },
        }
    }
    assert(out@ =~= out@ + pass_from(m, max, text@, pos as int));
    out
}

/// `match_len` is zero or the length of a phrase of `m` that stands at `pos`,
/// and no phrase of `m` of at most `k` characters standing there is longer.
pub proof fn lemma_match_len(m: Map<Seq<char>, Seq<char>>, text: Seq<char>, pos: int, k: nat)
    requires
        0 <= pos,
    ensures
        match_len(m, text, pos, k) <= k,
        match_len(m, text, pos, k) > 0 ==> pos + match_len(m, text, pos, k) <= text.len()
            && m.contains_key(text.subrange(pos, pos + match_len(m, text, pos, k))),
        forall|p: Seq<char>|
            #![trigger m.contains_key(p), occurs_at(text, pos, p)]
            m.contains_key(p) && occurs_at(text, pos, p) && p.len() <= k ==> p.len()
                <= match_len(m, text, pos, k),
    decreases k,
{
    if k > 0 {
        lemma_match_len(m, text, pos, (k - 1) as nat);
        assert forall|p: Seq<char>|
            #![trigger m.contains_key(p), occurs_at(text, pos, p)]
            m.contains_key(p) && occurs_at(text, pos, p) && p.len() <= k implies p.len()
                <= match_len(m, text, pos, k) by {
            if p.len() == k {
                assert(text.subrange(pos, pos + k) == p);
            }
        }
    }
}

/// Longest match: when phrases of `m` stand at `pos`, the pass replaces the
/// longest of them, and goes on after it.
pub proof fn lemma_longest_match(m: Map<Seq<char>, Seq<char>>, max: nat, text: Seq<char>, pos: int, p: Seq<char>)
    requires
        phrases_fit(m, max),
        0 <= pos < text.len(),
        m.contains_key(p),
        occurs_at(text, pos, p),
        forall|q: Seq<char>| #[trigger] m.contains_key(q) && occurs_at(text, pos, q) ==> q.len() <= p.len(),
    ensures
        pass_from(m, max, text, pos) == m[p] + pass_from(m, max, text, pos + p.len()),
{
    lemma_match_len(m, text, pos, max);
    let k = match_len(m, text, pos, max);
    assert(p.len() <= k);
    let q = text.subrange(pos, pos + k);
    assert(occurs_at(text, pos, q));
    assert(q.len() <= p.len());
    assert(k == p.len());
    assert(q =~= p);
}

/// Where a two-character phrase and a one-character phrase of `m` both stand
/// at `pos` and no longer phrase does, the two-character phrase is replaced.
pub proof fn lemma_two_over_one(m: Map<Seq<char>, Seq<char>>, max: nat, text: Seq<char>, pos: int)
    requires
        phrases_fit(m, max),
        0 <= pos,
        pos + 2 <= text.len(),
        m.contains_key(text.subrange(pos, pos + 2)),
        m.contains_key(text.subrange(pos, pos + 1)),
        forall|q: Seq<char>| #[trigger] m.contains_key(q) && occurs_at(text, pos, q) ==> q.len() <= 2,
    ensures
        pass_from(m, max, text, pos) == m[text.subrange(pos, pos + 2)] + pass_from(m, max, text, pos + 2),
{
    lemma_longest_match(m, max, text, pos, text.subrange(pos, pos + 2));
}

/// A span in which no phrase of `m` stands at any position is kept, in order,
/// at the front of the output.
pub proof fn lemma_unmatched_span_kept(m: Map<Seq<char>, Seq<char>>, max: nat, text: Seq<char>, from: int, to: int)
    requires
        0 <= from <= to <= text.len(),
        forall|i: int| from <= i < to ==> #[trigger] match_len(m, text, i, max) == 0,
    ensures
        pass_from(m, max, text, from) == text.subrange(from, to) + pass_from(m, max, text, to),
    decreases to - from,
{
    if from < to {
        lemma_unmatched_span_kept(m, max, text, from + 1, to);
        assert(match_len(m, text, from, max) == 0);
        assert(pass_from(m, max, text, from) == seq![text[from]] + pass_from(m, max, text, from + 1));
        assert(text.subrange(from, to) =~= seq![text[from]] + text.subrange(from + 1, to));
    } else {
        assert(text.subrange(from, to) =~= Seq::<char>::empty());
    }
}

/// A text none of whose characters occurs in a phrase of `m` passes unchanged.
pub proof fn lemma_pass_identity(m: Map<Seq<char>, Seq<char>>, max: nat, text: Seq<char>)
    requires
        phrases_fit(m, max),
        forall|i: int| 0 <= i < text.len() ==> !mentions(m, #[trigger] text[i]),
    ensures
        pass(m, max, text) == text,
{
    assert forall|i: int| 0 <= i < text.len() implies #[trigger] match_len(m, text, i, max) == 0 by {
        lemma_match_len(m, text, i, max);
        let k = match_len(m, text, i, max);
        if k > 0 {
            let q = text.subrange(i, i + k);
            assert(m.contains_key(q));
            assert(q[0] == text[i]);
            assert(q.contains(text[i]));
            assert(mentions(m, text[i]));
        }
    }
    lemma_unmatched_span_kept(m, max, text, 0, text.len() as int);
    assert(text.subrange(0, text.len() as int) =~= text);
    assert(pass_from(m, max, text, text.len() as int) =~= Seq::<char>::empty());
}

} // verus!
