//! Conversion pipeline: an ordered list of dictionary passes, each fed the
//! previous pass's output.
use vstd::prelude::*;
use crate::dict::{Dictionary, phrases_fit};
use crate::segment::{apply, pass, mentions, lemma_pass_identity};

verus! {

/// The table and longest phrase length of one pass.
pub type PassModel = (Map<Seq<char>, Seq<char>>, nat);

/// The output of the passes `ps`, in order, over `text`.
pub open spec fn run_passes(ps: Seq<PassModel>, text: Seq<char>) -> Seq<char>
    decreases ps.len(),
{
    if ps.len() == 0 {
        text
    } else {
        pass(ps.last().0, ps.last().1, run_passes(ps.drop_last(), text))
    }
}

/// A fresh vector holding the characters of `s`.
pub fn copy_chars(s: &[char]) -> (r: Vec<char>)
    ensures
        r@ == s@,
{
    let mut r: Vec<char> = Vec::new();
    let mut i: usize = 0;
    while i < s.len()
        invariant
            i <= s@.len(),
            r@ == s@.subrange(0, i as int),
        decreases s@.len() - i,
    {
        r.push(s[i]);
        i = i + 1;
        assert(r@ =~= s@.subrange(0, i as int));
    }
    assert(s@.subrange(0, i as int) =~= s@);
    r
}

/// An ordered list of dictionaries, applied one pass after another.
pub struct Pipeline {
    passes: Vec<Dictionary>,
}

impl Pipeline {
    /// The passes, in the order in which they run.
    pub closed spec fn model(&self) -> Seq<PassModel> {
        self.passes@.map_values(|d: Dictionary| (d.table(), d.max_len()))
    }

    /// Every dictionary of the pipeline is well formed.
    pub closed spec fn wf(&self) -> bool {
        forall|i: int| 0 <= i < self.passes@.len() ==> #[trigger] self.passes@[i].wf()
    }

    /// A pipeline with no passes.
    pub fn new() -> (r: Pipeline)
        ensures
            r.wf(),
            r.model() == Seq::<PassModel>::empty(),
    {
        let r = Pipeline { passes: Vec::new() };
        assert(r.model() =~= Seq::<PassModel>::empty());
        r
    }

    /// Appends a pass that runs after the present ones.
    pub fn push(&mut self, d: Dictionary)
        requires
            old(self).wf(),
            d.wf(),
        ensures
            final(self).wf(),
            final(self).model() == old(self).model().push((d.table(), d.max_len())),
    {
        self.passes.push(d);
        assert(self.model() =~= old(self).model().push((d.table(), d.max_len())));
    }

    /// Runs every pass, in order, over `text`.
    pub fn run(&self, text: &[char]) -> (r: Vec<char>)
        requires
            self.wf(),
        ensures
            r@ == run_passes(self.model(), text@),
    {
        let mut cur: Vec<char> = copy_chars(text);
        let mut i: usize = 0;
        assert(self.model().subrange(0, 0) =~= Seq::<PassModel>::empty());
        while i < self.passes.len()
            invariant
                self.wf(),
                i <= self.passes@.len(),
                cur@ == run_passes(self.model().subrange(0, i as int), text@),
            decreases self.passes@.len() - i,
        {
            let next = apply(&self.passes[i], cur.as_slice());
            assert(self.model().subrange(0, i + 1).drop_last() =~= self.model().subrange(0, i as int));
            cur = next;
            i = i + 1;
        }
        assert(self.model().subrange(0, i as int) =~= self.model());
        cur
    }
}

/// A text none of whose characters occurs in a phrase of any pass comes out
/// of the passes unchanged.
pub proof fn lemma_passthrough(ps: Seq<PassModel>, text: Seq<char>)
    requires
        forall|j: int| 0 <= j < ps.len() ==> phrases_fit(#[trigger] ps[j].0, ps[j].1),
        forall|i: int, j: int|
            0 <= i < text.len() && 0 <= j < ps.len() ==> !mentions(#[trigger] ps[j].0, #[trigger] text[i]),
    ensures
        run_passes(ps, text) == text,
    decreases ps.len(),
{
    if ps.len() > 0 {
        let rest = ps.drop_last();
        assert forall|j: int| 0 <= j < rest.len() implies phrases_fit(#[trigger] rest[j].0, rest[j].1) by {
            assert(rest[j] == ps[j]);
        }
        assert forall|i: int, j: int|
            0 <= i < text.len() && 0 <= j < rest.len() implies !mentions(#[trigger] rest[j].0, #[trigger] text[i]) by {
            assert(rest[j] == ps[j]);
        }
        lemma_passthrough(rest, text);
        let l = ps.len() - 1;
        assert(ps.last() == ps[l]);
        assert forall|i: int| 0 <= i < text.len() implies !mentions(ps.last().0, #[trigger] text[i]) by {
            assert(!mentions(ps[l].0, text[i]));
        }
        lemma_pass_identity(ps.last().0, ps.last().1, text);
    }
}

} // verus!
