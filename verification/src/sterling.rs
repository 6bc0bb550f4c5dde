//! The counting core of the streaming two-pass lift-set builder: per-word
//! token counts over a global corpus pass and a concept-tagged pass.

use vstd::prelude::*;

verus! {

/// `x + 1`, saturating at `u64::MAX`.
pub open spec fn sat_inc64(x: u64) -> u64 {
    if x == u64::MAX {
        x
    } else {
        (x + 1) as u64
    }
}

/// Fold a token stream into per-word counts and a running total, one token
/// at a time, each count saturating.
pub open spec fn fold_tokens(counts: Seq<u64>, total: u64, tokens: Seq<u32>) -> (Seq<u64>, u64)
    decreases tokens.len(),
{
    if tokens.len() == 0 {
        (counts, total)
    } else {
        let (c, t) = fold_tokens(counts, total, tokens.drop_last());
        let w = tokens.last() as int;
        (c.update(w, sat_inc64(c[w])), sat_inc64(t))
    }
}

/// Occurrences of word `w` in `tokens`.
pub open spec fn occurrences(tokens: Seq<u32>, w: int) -> int
    decreases tokens.len(),
{
    if tokens.len() == 0 {
        0
    } else {
        occurrences(tokens.drop_last(), w) + if tokens.last() as int == w {
            1int
        } else {
            0int
        }
    }
}

/// Every token is a word of a `vocab`-sized dictionary.
pub open spec fn tokens_in_vocab(tokens: Seq<u32>, vocab: int) -> bool {
    forall|i: int| 0 <= i < tokens.len() ==> (#[trigger] tokens[i]) < vocab
}

/// Per-word token counts of the two passes.
pub struct LiftCounts {
    /// Dictionary size.
    pub vocab: usize,
    /// Pass-1 (global) count per word.
    pub global_counts: Vec<u64>,
    /// Pass-2 (concept-tagged) count per word.
    pub tagged_counts: Vec<u64>,
    /// Pass-1 total token count.
    pub n_global: u64,
    /// Pass-2 total token count.
    pub n_tagged: u64,
}

impl LiftCounts {
    /// Both count tables have one entry per dictionary word.
    pub open spec fn wf(&self) -> bool {
        self.global_counts@.len() == self.vocab && self.tagged_counts@.len() == self.vocab
    }

    /// Empty counts over a `vocab`-sized dictionary.
    pub fn new(vocab: usize) -> (c: Self)
        ensures
            c.wf(),
            c.vocab == vocab,
            c.global_counts@ == Seq::new(vocab as nat, |i: int| 0u64),
            c.tagged_counts@ == Seq::new(vocab as nat, |i: int| 0u64),
            c.n_global == 0,
            c.n_tagged == 0,
    {
        let mut g: Vec<u64> = Vec::new();
        let mut t: Vec<u64> = Vec::new();
        let mut i: usize = 0;
        while i < vocab
            invariant
                i <= vocab,
                g@ == Seq::new(i as nat, |k: int| 0u64),
                t@ == Seq::new(i as nat, |k: int| 0u64),
            decreases vocab - i,
        {
            g.push(0);
            t.push(0);
            i += 1;
            assert(g@ =~= Seq::new(i as nat, |k: int| 0u64));
            assert(t@ =~= Seq::new(i as nat, |k: int| 0u64));
        }
        LiftCounts { vocab, global_counts: g, tagged_counts: t, n_global: 0, n_tagged: 0 }
    }

    /// Pass-1 observation: count one corpus chunk's tokens.
    pub fn observe_global(&mut self, tokens: &[u32])
        requires
            old(self).wf(),
            tokens_in_vocab(tokens@, old(self).vocab as int),
        ensures
            final(self).wf(),
            final(self).vocab == old(self).vocab,
            (final(self).global_counts@, final(self).n_global) == fold_tokens(
                old(self).global_counts@,
                old(self).n_global,
                tokens@,
            ),
            final(self).tagged_counts@ == old(self).tagged_counts@,
            final(self).n_tagged == old(self).n_tagged,
    {
        count_tokens(&mut self.global_counts, &mut self.n_global, tokens);
    }

    /// Pass-2 observation: count one concept-tagged chunk's tokens.
    pub fn observe_tagged(&mut self, tokens: &[u32])
        requires
            old(self).wf(),
            tokens_in_vocab(tokens@, old(self).vocab as int),
        ensures
            final(self).wf(),
            final(self).vocab == old(self).vocab,
            (final(self).tagged_counts@, final(self).n_tagged) == fold_tokens(
                old(self).tagged_counts@,
                old(self).n_tagged,
                tokens@,
            ),
            final(self).global_counts@ == old(self).global_counts@,
            final(self).n_global == old(self).n_global,
    {
        count_tokens(&mut self.tagged_counts, &mut self.n_tagged, tokens);
    }
}

/// Fold `tokens` into `counts` and `total`, saturating.
fn count_tokens(counts: &mut Vec<u64>, total: &mut u64, tokens: &[u32])
    requires
        tokens_in_vocab(tokens@, old(counts)@.len() as int),
    ensures
        (final(counts)@, *final(total)) == fold_tokens(old(counts)@, *old(total), tokens@),
        final(counts)@.len() == old(counts)@.len(),
{
    let mut i: usize = 0;
    while i < tokens.len()
        invariant
            i <= tokens@.len(),
            tokens_in_vocab(tokens@, old(counts)@.len() as int),
            counts@.len() == old(counts)@.len(),
            (counts@, *total) == fold_tokens(old(counts)@, *old(total), tokens@.subrange(0, i as int)),
        decreases tokens@.len() - i,
    {
        let w = tokens[i] as usize;
        assert(tokens@.subrange(0, i + 1).drop_last() =~= tokens@.subrange(0, i as int));
        let c = counts[w];
        counts.set(w, c.saturating_add(1));
        *total = (*total).saturating_add(1);
        i += 1;
    }
    assert(tokens@.subrange(0, i as int) =~= tokens@);
}

/// Without saturation, counting a chunk adds each word's occurrences to its
/// count and the chunk's length to the total: the counts are the histogram
/// of everything observed.
pub proof fn law_counts_are_histograms(counts: Seq<u64>, total: u64, tokens: Seq<u32>)
    requires
        tokens_in_vocab(tokens, counts.len() as int),
        total + tokens.len() <= u64::MAX,
        forall|w: int| 0 <= w < counts.len() ==> counts[w] <= total,
    ensures
        ({
            let (c, t) = fold_tokens(counts, total, tokens);
            &&& c.len() == counts.len()
            &&& t == total + tokens.len()
            &&& forall|w: int| 0 <= w < counts.len() ==> c[w] == counts[w] + occurrences(tokens, w)
            &&& forall|w: int| 0 <= w < counts.len() ==> c[w] <= t
        }),
    decreases tokens.len(),
{
    if tokens.len() > 0 {
        let rest = tokens.drop_last();
        assert forall|i: int| 0 <= i < rest.len() implies (#[trigger] rest[i]) < counts.len() by {
            assert(rest[i] == tokens[i]);
        }
        law_counts_are_histograms(counts, total, rest);
        assert(tokens[tokens.len() - 1] < counts.len());
    }
}

} // verus!
