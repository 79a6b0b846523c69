use vstd::prelude::*;

use crate::ensemble::{
    Comparison, Ensemble, Operand, StepDemand, comparison_of, condition_parts, demand_of,
    has_operand, is_operand, value_set,
};
use crate::score::{Condition, Instruction, Score, Step};

verus! {

/// The steps an instruction plays; `taken` is the outcome of a branch's
/// condition and matters for branches only.
pub open spec fn steps_of(i: Instruction, taken: bool) -> Seq<Step> {
    match i {
        Instruction::Step(s) => seq![s],
        Instruction::Branch { then_steps, else_steps, .. } => if taken {
            then_steps@
        } else {
            else_steps@
        },
        Instruction::Parallel(steps) => steps@,
        Instruction::Fermata(_) => Seq::empty(),
    }
}

/// How many branches the instructions hold.
pub open spec fn branch_count(instrs: Seq<Instruction>) -> nat
    decreases instrs.len(),
{
    if instrs.len() == 0 {
        0
    } else {
        branch_count(instrs.drop_last()) + if instrs.last() is Branch {
            1nat
        } else {
            0nat
        }
    }
}

/// The steps that playing `instrs` executes, in order, when the branches'
/// conditions come out as `outcomes` (one per branch, in order). Fermatas
/// play no step.
pub open spec fn executed(instrs: Seq<Instruction>, outcomes: Seq<bool>) -> Seq<Step>
    decreases instrs.len(),
{
    if instrs.len() == 0 {
        Seq::empty()
    } else if instrs.last() is Branch {
        executed(instrs.drop_last(), outcomes.drop_last()) + steps_of(
            instrs.last(),
            outcomes.last(),
        )
    } else {
        executed(instrs.drop_last(), outcomes) + steps_of(instrs.last(), false)
    }
}

/// The (agent, chord) of each step.
pub open spec fn step_keys(steps: Seq<Step>) -> Seq<(Seq<char>, Seq<char>)> {
    steps.map_values(|s: Step| (s.agent@, s.chord@))
}

/// The (agent, chord) of each played step.
pub open spec fn played_keys(played: Seq<(Seq<char>, Seq<char>, u64)>) -> Seq<(Seq<char>, Seq<char>)> {
    played.map_values(|p: (Seq<char>, Seq<char>, u64)| (p.0, p.1))
}

/// An upper bound on the moves that playing one instruction takes.
pub open spec fn instr_weight(i: Instruction) -> nat {
    3 + 2 * (steps_of(i, true).len() + steps_of(i, false).len())
}

/// An upper bound on the moves that playing the instructions from `k` on takes.
pub open spec fn weight_from(instrs: Seq<Instruction>, k: int) -> nat
    decreases instrs.len() - k,
{
    if k < 0 || k >= instrs.len() {
        0
    } else {
        instr_weight(instrs[k]) + weight_from(instrs, k + 1)
    }
}

/// What the player of a score needs next.
#[derive(Debug, Clone)]
pub enum Request {
    /// Multiply `factor` by `confidence` (binary64 bit patterns) and hand the
    /// product's bit pattern to `supply_product`.
    Product { factor: u64, confidence: u64 },
    /// Compare `operand` with `threshold` (binary64 bit patterns) by `test` and
    /// hand the outcome to `supply_comparison`.
    Compare { operand: Operand, test: Comparison, threshold: u64 },
    /// A move was made; ask again.
    Continue,
    /// The score has been played to its end.
    Finished,
}

#[derive(PartialEq, Eq, Structural)]
enum Waiting {
    Idle,
    Product,
    Comparison,
}

/// A score being played against an ensemble: which instruction is current,
/// how its branch was decided, how far its steps got, and what has been played.
pub struct ScoreRun {
    instr: usize,
    decided: Option<bool>,
    pos: usize,
    waiting: Waiting,
    results: Vec<(String, String, u64)>,
    outcomes: Ghost<Seq<bool>>,
}

fn list_len(i: &Instruction, taken: bool) -> (n: usize)
    ensures
        n == steps_of(*i, taken).len(),
{
    match i {
        Instruction::Step(_) => 1,
        Instruction::Branch { then_steps, else_steps, .. } => {
            if taken {
                then_steps.len()
            } else {
                else_steps.len()
            }
        },
        Instruction::Parallel(steps) => steps.len(),
        Instruction::Fermata(_) => 0,
    }
}

fn step_at(i: &Instruction, taken: bool, pos: usize) -> (s: &Step)
    requires
        pos < steps_of(*i, taken).len(),
    ensures
        *s == steps_of(*i, taken)[pos as int],
{
    match i {
        Instruction::Step(s) => s,
        Instruction::Branch { then_steps, else_steps, .. } => {
            if taken {
                &then_steps[pos]
            } else {
                &else_steps[pos]
            }
        },
        Instruction::Parallel(steps) => &steps[pos],
        Instruction::Fermata(_) => vstd::pervasive::unreached(),
    }
}

impl ScoreRun {
    /// The steps played so far, as (agent, chord, value).
    pub closed spec fn played(&self) -> Seq<(Seq<char>, Seq<char>, u64)> {
        self.results@.map_values(|r: (String, String, u64)| (r.0@, r.1@, r.2))
    }

    /// The outcomes of the conditions of the branches passed so far, in order.
    pub closed spec fn outcomes(&self) -> Seq<bool> {
        self.outcomes@
    }

    /// Index of the current instruction.
    pub closed spec fn current(&self) -> nat {
        self.instr as nat
    }

    /// The outcome of the current branch's condition, once known.
    pub closed spec fn decision(&self) -> Option<bool> {
        self.decided
    }

    /// How many of the current instruction's steps have been played.
    pub closed spec fn progress(&self) -> nat {
        self.pos as nat
    }

    pub closed spec fn idle(&self) -> bool {
        self.waiting == Waiting::Idle
    }

    pub closed spec fn awaiting_product(&self) -> bool {
        self.waiting == Waiting::Product
    }

    pub closed spec fn awaiting_comparison(&self) -> bool {
        self.waiting == Waiting::Comparison
    }

    /// An upper bound on the moves left before the run finishes; every move
    /// makes it smaller.
    pub closed spec fn remaining(&self, score: Score) -> nat {
        let instrs = score.instructions@;
        if self.instr >= instrs.len() {
            0
        } else {
            let i = instrs[self.instr as int];
            let undecided = i is Branch && self.decided is None;
            let b = match self.decided {
                Some(b) => b,
                None => false,
            };
            let decision_part: nat = if undecided {
                if self.waiting == Waiting::Comparison {
                    1
                } else {
                    2
                }
            } else {
                0
            };
            let steps_part: nat = if undecided {
                2 * (steps_of(i, true).len() + steps_of(i, false).len())
            } else {
                (2 * (steps_of(i, b).len() - self.pos) - if self.waiting == Waiting::Product {
                    1int
                } else {
                    0int
                }) as nat
            };
            weight_from(instrs, self.instr + 1) + 1 + decision_part + steps_part
        }
    }

    pub fn is_idle(&self) -> (r: bool)
        ensures
            r == self.idle(),
    {
        self.waiting == Waiting::Idle
    }

    pub fn is_awaiting_product(&self) -> (r: bool)
        ensures
            r == self.awaiting_product(),
    {
        self.waiting == Waiting::Product
    }

    pub fn is_awaiting_comparison(&self) -> (r: bool)
        ensures
            r == self.awaiting_comparison(),
    {
        self.waiting == Waiting::Comparison
    }

    /// The steps of the current instruction, as decided.
    pub open spec fn current_steps(&self, score: Score) -> Seq<Step> {
        steps_of(
            score.instructions@[self.current() as int],
            match self.decision() {
                Some(b) => b,
                None => false,
            },
        )
    }

    /// The step to play next within the current instruction.
    pub open spec fn current_step(&self, score: Score) -> Step {
        self.current_steps(score)[self.progress() as int]
    }

    /// The condition of the current instruction, when it is a branch.
    pub open spec fn current_condition(&self, score: Score) -> Condition {
        score.instructions@[self.current() as int]->condition
    }

    /// The run is a consistent state of playing `score`.
    pub closed spec fn valid_for(&self, score: Score) -> bool {
        let instrs = score.instructions@;
        let b = match self.decided {
            Some(b) => b,
            None => false,
        };
        &&& self.instr <= instrs.len()
        &&& self.outcomes@.len() == branch_count(instrs.take(self.instr as int))
        &&& (self.instr == instrs.len() ==> self.pos == 0 && self.decided is None && self.waiting
            == Waiting::Idle)
        &&& (self.instr < instrs.len() ==> {
            let i = instrs[self.instr as int];
            &&& (self.decided is Some ==> i is Branch)
            &&& (i is Branch && self.decided is None ==> self.pos == 0)
            &&& self.pos <= steps_of(i, b).len()
            &&& (self.waiting == Waiting::Product ==> !(i is Branch && self.decided is None)
                && self.pos < steps_of(i, b).len())
            &&& (self.waiting == Waiting::Comparison ==> i is Branch && self.decided is None)
            &&& played_keys(self.played()) == step_keys(
                executed(instrs.take(self.instr as int), self.outcomes@) + steps_of(i, b).take(
                    self.pos as int,
                ),
            )
        })
        &&& (self.instr == instrs.len() ==> played_keys(self.played()) == step_keys(
            executed(instrs, self.outcomes@),
        ))
    }

    /// A run that has played nothing yet.
    pub fn new() -> (r: ScoreRun)
        ensures
            forall|score: Score| #[trigger] r.valid_for(score),
            r.idle(),
            r.played() == Seq::<(Seq<char>, Seq<char>, u64)>::empty(),
            r.outcomes() == Seq::<bool>::empty(),
    {
        let r = ScoreRun {
            instr: 0,
            decided: None,
            pos: 0,
            waiting: Waiting::Idle,
            results: Vec::new(),
            outcomes: Ghost(Seq::empty()),
        };
        assert(r.played() =~= Seq::empty());
        assert(played_keys(r.played()) =~= Seq::empty());
        assert forall|score: Score| #[trigger] r.valid_for(score) by {
            let instrs = score.instructions@;
            assert(instrs.take(0) =~= Seq::<Instruction>::empty());
            assert(branch_count(instrs.take(0)) == 0);
            if instrs.len() > 0 {
                assert(step_keys(
                    executed(instrs.take(0), Seq::empty()) + steps_of(instrs[0], false).take(0),
                ) =~= Seq::empty());
            } else {
                assert(instrs =~= Seq::<Instruction>::empty());
                assert(step_keys(executed(instrs, Seq::empty())) =~= Seq::empty());
            }
        }
        r
    }

    /// The steps played so far, as (agent, chord, value).
    pub fn results(&self) -> (r: &Vec<(String, String, u64)>)
        ensures
            r@.map_values(|e: (String, String, u64)| (e.0@, e.1@, e.2)) == self.played(),
    {
        &self.results
    }

    /// Makes one move of playing `score` against `ensemble`, or says what
    /// outside work the next move needs.
    pub fn next(&mut self, ensemble: &Ensemble, score: &Score) -> (r: Request)
        requires
            old(self).valid_for(*score),
            old(self).idle(),
        ensures
            final(self).valid_for(*score),
            r is Finished <==> old(self).remaining(*score) == 0,
            !(r is Finished) ==> final(self).remaining(*score) < old(self).remaining(*score),
            old(self).current() <= final(self).current() <= old(self).current() + 1,
            final(self).current() == old(self).current() && old(self).decision() is Some
                ==> final(self).decision() == old(self).decision(),
            final(self).current() == old(self).current() && final(self).decision() != old(
                self,
            ).decision() ==> old(self).decision() is None && !has_operand(
                ensemble.agents.entries(),
                old(self).current_condition(*score),
            ) && final(self).decision() == Some(false),
            final(self).current() == old(self).current() + 1 ==> {
                &&& final(self).decision() is None
                &&& final(self).progress() == 0
                &&& old(self).progress() == old(self).current_steps(*score).len()
            },
            final(self).current() == old(self).current() && final(self).played().len()
                > old(self).played().len() ==> final(self).progress() == old(self).progress() + 1,
            match r {
                Request::Finished => {
                    &&& old(self).current() == score.instructions@.len()
                    &&& final(self).played() == old(self).played()
                    &&& final(self).idle()
                    &&& final(self).outcomes().len() == branch_count(score.instructions@)
                    &&& played_keys(final(self).played()) == step_keys(
                        executed(score.instructions@, final(self).outcomes()),
                    )
                },
                Request::Product { factor, confidence } => {
                    &&& old(self).current() < score.instructions@.len()
                    &&& final(self).awaiting_product()
                    &&& final(self).outcomes() == old(self).outcomes()
                    &&& final(self).played() == old(self).played()
                    &&& final(self).current_step(*score) == old(self).current_step(*score)
                    &&& demand_of(
                        ensemble.agents.entries(),
                        old(self).current_step(*score).agent@,
                        old(self).current_step(*score).chord@,
                    ) == (StepDemand::Scale { factor, confidence })
                },
                Request::Compare { operand, test, threshold } => {
                    &&& old(self).current() < score.instructions@.len()
                    &&& score.instructions@[old(self).current() as int] is Branch
                    &&& old(self).decision() is None
                    &&& final(self).awaiting_comparison()
                    &&& final(self).outcomes() == old(self).outcomes()
                    &&& final(self).played() == old(self).played()
                    &&& has_operand(ensemble.agents.entries(), old(self).current_condition(*score))
                    &&& is_operand(
                        ensemble.agents.entries(),
                        old(self).current_condition(*score),
                        operand,
                    )
                    &&& condition_parts(old(self).current_condition(*score)).1 == test
                    &&& condition_parts(old(self).current_condition(*score)).2 == threshold
                },
                Request::Continue => {
                    &&& old(self).current() < score.instructions@.len()
                    &&& final(self).idle()
                    &&& (final(self).outcomes() == old(self).outcomes() || (
                        score.instructions@[old(self).current() as int] is Branch
                        && old(self).decision() is Some
                        && final(self).outcomes() == old(self).outcomes().push(old(self).decision()->0)
                    ))
                    &&& (final(self).played() == old(self).played() || exists|v: u64|
                        {
                            &&& demand_of(
                                ensemble.agents.entries(),
                                old(self).current_step(*score).agent@,
                                old(self).current_step(*score).chord@,
                            ) == StepDemand::Ready(v)
                            &&& final(self).played() == old(self).played().push(
                                (
                                    old(self).current_step(*score).agent@,
                                    old(self).current_step(*score).chord@,
                                    v,
                                ),
                            )
                        })
                    &&& (score.instructions@[old(self).current() as int] is Branch
                        && old(self).decision() is None) ==> (!has_operand(
                        ensemble.agents.entries(),
                        old(self).current_condition(*score),
                    ) && final(self).decision() == Some(false))
                },
            },
    {
        let ghost instrs = score.instructions@;
        let n = score.instructions.len();
        if self.instr >= n {
            assert(instrs.take(n as int) =~= instrs);
            return Request::Finished;
        }
        let i = &score.instructions[self.instr];
        if self.decided.is_none() {
            if let Instruction::Branch { condition, .. } = i {
                match ensemble.condition_operand(condition) {
                    None => {
                        self.decided = Some(false);
                        proof {
                            assert(steps_of(*i, false).take(0) =~= Seq::<Step>::empty());
                        }
                        return Request::Continue;
                    },
                    Some(operand) => {
                        let (test, threshold) = comparison_of(condition);
                        self.waiting = Waiting::Comparison;
                        return Request::Compare { operand, test, threshold };
                    },
                }
            }
        }
        let taken = match self.decided {
            Some(b) => b,
            None => false,
        };
        let len = list_len(i, taken);
        if self.pos < len {
            let step = step_at(i, taken, self.pos);
            match ensemble.step_demand(step.agent.as_str(), step.chord.as_str()) {
                StepDemand::Ready(v) => {
                    let ghost before = self.results@;
                    self.results.push((step.agent.clone(), step.chord.clone(), v));
                    proof {
                        let prev = steps_of(*i, taken).take(self.pos as int);
                        assert(steps_of(*i, taken).take(self.pos + 1) =~= prev.push(*step));
                        let old_played = before.map_values(
                            |r: (String, String, u64)| (r.0@, r.1@, r.2),
                        );
                        assert(self.played() =~= old_played.push((step.agent@, step.chord@, v)));
                        let e = executed(instrs.take(self.instr as int), self.outcomes@);
                        assert(played_keys(old_played) == step_keys(e + prev));
                        assert(e + prev.push(*step) =~= (e + prev).push(*step));
                        assert(played_keys(old_played.push((step.agent@, step.chord@, v)))
                            =~= played_keys(old_played).push((step.agent@, step.chord@)));
                        assert(step_keys((e + prev).push(*step)) =~= step_keys(e + prev).push(
                            (step.agent@, step.chord@),
                        ));
                    }
                    self.pos = self.pos + 1;
                    Request::Continue
                },
                StepDemand::Scale { factor, confidence } => {
                    self.waiting = Waiting::Product;
                    Request::Product { factor, confidence }
                },
            }
        } else {
            proof {
                let k = self.instr as int;
                assert(instrs.take(k + 1).drop_last() =~= instrs.take(k));
                assert(steps_of(*i, taken).take(self.pos as int) =~= steps_of(*i, taken));
                if i is Branch {
                    let outs = self.outcomes@.push(taken);
                    assert(outs.drop_last() =~= self.outcomes@);
                    self.outcomes = Ghost(outs);
                }
            }
            self.instr = self.instr + 1;
            self.pos = 0;
            self.decided = None;
            proof {
                if self.instr < n {
                    let j = instrs[self.instr as int];
                    assert(steps_of(j, false).take(0) =~= Seq::<Step>::empty());
                    let e = executed(instrs.take(self.instr as int), self.outcomes@);
                    assert(e + steps_of(j, false).take(0) =~= e);
                } else {
                    assert(instrs.take(self.instr as int) =~= instrs);
                }
            }
            Request::Continue
        }
    }

    /// Hands over the outcome of the comparison that `next` asked for.
    pub fn supply_comparison(&mut self, score: &Score, outcome: bool)
        requires
            old(self).valid_for(*score),
            old(self).awaiting_comparison(),
        ensures
            final(self).valid_for(*score),
            final(self).idle(),
            final(self).played() == old(self).played(),
            final(self).outcomes() == old(self).outcomes(),
            final(self).current() == old(self).current(),
            final(self).decision() == Some(outcome),
            final(self).remaining(*score) < old(self).remaining(*score),
    {
        self.waiting = Waiting::Idle;
        self.decided = Some(outcome);
        proof {
            let i = score.instructions@[self.instr as int];
            assert(steps_of(i, outcome).take(0) =~= Seq::<Step>::empty());
            assert(steps_of(i, false).take(0) =~= Seq::<Step>::empty());
        }
    }

    /// Hands over the product that `next` asked for: it is the value of the
    /// current step, and the step's agent keeps it as its last value.
    pub fn supply_product(&mut self, ensemble: &mut Ensemble, score: &Score, product: u64)
        requires
            old(self).valid_for(*score),
            old(self).awaiting_product(),
        ensures
            final(self).valid_for(*score),
            final(self).idle(),
            final(self).outcomes() == old(self).outcomes(),
            final(self).played() == old(self).played().push(
                (
                    old(self).current_step(*score).agent@,
                    old(self).current_step(*score).chord@,
                    product,
                ),
            ),
            value_set(
                old(ensemble).agents.entries(),
                final(ensemble).agents.entries(),
                old(self).current_step(*score).agent@,
                product,
            ),
            final(self).remaining(*score) < old(self).remaining(*score),
    {
        let ghost instrs = score.instructions@;
        let i = &score.instructions[self.instr];
        let taken = match self.decided {
            Some(b) => b,
            None => false,
        };
        let len = list_len(i, taken);
        let step = step_at(i, taken, self.pos);
        ensemble.set_last_value(step.agent.as_str(), product);
        let ghost before = self.results@;
        self.results.push((step.agent.clone(), step.chord.clone(), product));
        proof {
            let prev = steps_of(*i, taken).take(self.pos as int);
            assert(steps_of(*i, taken).take(self.pos + 1) =~= prev.push(*step));
            let old_played = before.map_values(|r: (String, String, u64)| (r.0@, r.1@, r.2));
            assert(self.played() =~= old_played.push((step.agent@, step.chord@, product)));
            let e = executed(instrs.take(self.instr as int), self.outcomes@);
            assert(played_keys(old_played) == step_keys(e + prev));
            assert(e + prev.push(*step) =~= (e + prev).push(*step));
            assert(played_keys(old_played.push((step.agent@, step.chord@, product)))
                =~= played_keys(old_played).push((step.agent@, step.chord@)));
            assert(step_keys((e + prev).push(*step)) =~= step_keys(e + prev).push(
                (step.agent@, step.chord@),
            ));
        }
        self.pos = self.pos + 1;
        self.waiting = Waiting::Idle;
    }
}

} // verus!
