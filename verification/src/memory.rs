use vstd::prelude::*;

use crate::names::{NameMap, lemma_store, lookup, store};
use crate::trit::Trit;

verus! {

/// A learned pattern: a chord, its trits, and a confidence (a binary64 value,
/// stored as its bit pattern).
#[derive(Debug, Clone)]
pub struct Pattern {
    pub chord: String,
    pub trits: Vec<Trit>,
    pub confidence: u64,
}

/// Muscle memory: a collection of learned patterns, found by name.
#[derive(Debug, Clone)]
pub struct MuscleMemory {
    pub patterns: NameMap<Pattern>,
}

/// `p` is the pattern of `chord` with `trits` and `confidence`.
pub open spec fn is_pattern(p: Pattern, chord: Seq<char>, trits: Seq<Trit>, confidence: u64) -> bool {
    &&& p.chord@ == chord
    &&& p.trits@ == trits
    &&& p.confidence == confidence
}

impl MuscleMemory {
    pub fn new() -> (m: MuscleMemory)
        ensures
            m.patterns.entries() == Seq::<(Seq<char>, Pattern)>::empty(),
    {
        MuscleMemory { patterns: NameMap::new() }
    }

    /// Learns (or relearns) the pattern `name`.
    pub fn add_pattern(&mut self, name: &str, chord: &str, trits: Vec<Trit>, confidence: u64)
        ensures
            exists|p: Pattern|
                is_pattern(p, chord@, trits@, confidence) && final(self).patterns.entries()
                    == store(old(self).patterns.entries(), name@, p),
            final(self).patterns.get_spec(name@) matches Some(p) && is_pattern(p, chord@, trits@, confidence),
            forall|k: Seq<char>| k != name@ ==> #[trigger] final(self).patterns.get_spec(k) == old(self).patterns.get_spec(k),
    {
        let p = Pattern { chord: chord.to_owned(), trits, confidence };
        let ghost gp = p;
        self.patterns.insert(name.to_owned(), p);
        assert(is_pattern(gp, chord@, trits@, confidence));
    }

    pub fn get_pattern(&self, name: &str) -> (r: Option<&Pattern>)
        ensures
            match r {
                Some(p) => self.patterns.get_spec(name@) == Some(*p),
                None => self.patterns.get_spec(name@) is None,
            },
    {
        self.patterns.get(name)
    }
}

impl Default for MuscleMemory {
    fn default() -> (m: MuscleMemory)
        ensures
            m.patterns.entries() == Seq::<(Seq<char>, Pattern)>::empty(),
    {
        MuscleMemory::new()
    }
}

/// What is read back of a memory after a pattern was learned: the learned pattern under its
/// name, and under every other name what was there before.
pub proof fn lemma_read_after_learn(
    before: Seq<(Seq<char>, Pattern)>,
    name: Seq<char>,
    p: Pattern,
    other: Seq<char>,
)
    requires
        crate::names::keys_distinct(before),
    ensures
        lookup(store(before, name, p), name) == Some(p),
        other != name ==> lookup(store(before, name, p), other) == lookup(before, other),
{
    lemma_store(before, name, p);
}

} // verus!
