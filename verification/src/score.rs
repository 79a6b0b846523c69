use vstd::prelude::*;

use crate::measure::{Fermata, Timing};

verus! {

/// Which reading of an agent a condition looks at.
#[derive(Debug, Clone)]
pub enum Reading {
    /// Last value from the agent.
    Last(String),
    /// Average value from the agent.
    Average(String),
    /// Number of readings from the agent.
    Count(String),
}

/// A condition for branching. Thresholds are binary64 values, stored as their
/// bit patterns.
#[derive(Debug, Clone)]
pub enum Condition {
    Gt(Reading, u64),
    Lt(Reading, u64),
    Eq(Reading, u64),
    Gte(Reading, u64),
    Lte(Reading, u64),
}

/// A single step in the score.
#[derive(Debug, Clone)]
pub struct Step {
    pub agent: String,
    pub chord: String,
    pub args: Vec<String>,
    pub timing: Timing,
}

/// The texts of a list of strings.
pub open spec fn texts(v: Seq<String>) -> Seq<Seq<char>> {
    v.map_values(|s: String| s@)
}

/// The texts of a list of string slices.
pub open spec fn slice_texts(v: Seq<&str>) -> Seq<Seq<char>> {
    v.map_values(|s: &str| s@)
}

/// `s` is the step of `agent` playing `chord` with `args` at `timing`.
pub open spec fn is_step(
    s: Step,
    agent: Seq<char>,
    chord: Seq<char>,
    args: Seq<Seq<char>>,
    timing: Timing,
) -> bool {
    &&& s.agent@ == agent
    &&& s.chord@ == chord
    &&& texts(s.args@) == args
    &&& s.timing == timing
}

impl Step {
    pub fn new(agent: &str, chord: &str, args: Vec<&str>) -> (s: Step)
        ensures
            is_step(s, agent@, chord@, slice_texts(args@), Timing::Immediate),
    {
        let mut owned: Vec<String> = Vec::new();
        let n = args.len();
        let mut i: usize = 0;
        while i < n
            invariant
                n == args@.len(),
                i <= n,
                texts(owned@) == slice_texts(args@.take(i as int)),
            decreases n - i,
        {
            let a = args[i].to_owned();
            let ghost before = owned@;
            owned.push(a);
            assert(texts(owned@) =~= texts(before).push(args@[i as int]@));
            assert(args@.take(i + 1) =~= args@.take(i as int).push(args@[i as int]));
            assert(slice_texts(args@.take(i + 1)) =~= slice_texts(args@.take(i as int)).push(
                args@[i as int]@,
            ));
            i += 1;
        }
        assert(args@.take(n as int) =~= args@);
        Step { agent: agent.to_owned(), chord: chord.to_owned(), args: owned, timing: Timing::Immediate }
    }

    pub fn with_timing(self, timing: Timing) -> (s: Step)
        ensures
            s == (Step { timing, ..self }),
    {
        let mut s = self;
        s.timing = timing;
        s
    }
}

/// An instruction in the score.
#[derive(Debug, Clone)]
pub enum Instruction {
    Step(Step),
    Branch { condition: Condition, then_steps: Vec<Step>, else_steps: Vec<Step> },
    /// Fan-out: every step, in order.
    Parallel(Vec<Step>),
    /// A wait gate, kept by the timing layer.
    Fermata(Fermata),
}

/// A score: a pre-computed plan for the ensemble.
#[derive(Debug, Clone)]
pub struct Score {
    pub instructions: Vec<Instruction>,
}

/// Builds a score one instruction at a time.
pub struct ScoreBuilder {
    instructions: Vec<Instruction>,
}

impl Score {
    pub fn builder() -> (b: ScoreBuilder)
        ensures
            b.pending() == Seq::<Instruction>::empty(),
    {
        ScoreBuilder { instructions: Vec::new() }
    }
}

impl ScoreBuilder {
    /// The instructions added so far, in order.
    pub closed spec fn pending(&self) -> Seq<Instruction> {
        self.instructions@
    }

    pub fn step(self, agent: &str, chord: &str, args: Vec<&str>, timing: Timing) -> (b: ScoreBuilder)
        ensures
            b.pending().len() == self.pending().len() + 1,
            b.pending().drop_last() == self.pending(),
            b.pending().last() matches Instruction::Step(s) && is_step(
                s,
                agent@,
                chord@,
                slice_texts(args@),
                timing,
            ),
    {
        let mut b = self;
        let s = Step::new(agent, chord, args).with_timing(timing);
        b.instructions.push(Instruction::Step(s));
        assert(b.pending().drop_last() =~= self.pending());
        b
    }

    pub fn branch(self, condition: Condition, then_steps: Vec<Step>, else_steps: Vec<Step>) -> (b:
        ScoreBuilder)
        ensures
            b.pending() == self.pending().push(
                Instruction::Branch { condition, then_steps, else_steps },
            ),
    {
        let mut b = self;
        b.instructions.push(Instruction::Branch { condition, then_steps, else_steps });
        b
    }

    pub fn parallel(self, steps: Vec<Step>) -> (b: ScoreBuilder)
        ensures
            b.pending() == self.pending().push(Instruction::Parallel(steps)),
    {
        let mut b = self;
        b.instructions.push(Instruction::Parallel(steps));
        b
    }

    pub fn fermata(self, fermata: Fermata) -> (b: ScoreBuilder)
        ensures
            b.pending() == self.pending().push(Instruction::Fermata(fermata)),
    {
        let mut b = self;
        b.instructions.push(Instruction::Fermata(fermata));
        b
    }

    pub fn build(self) -> (s: Score)
        ensures
            s.instructions@ == self.pending(),
    {
        Score { instructions: self.instructions }
    }
}

} // verus!
