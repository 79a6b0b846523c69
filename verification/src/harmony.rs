use vstd::prelude::*;

use crate::names::{
    NameMap, has_key, key_pos, keys_distinct, lemma_lookup_at, lemma_store, lookup, store,
};
use crate::score::texts;
use crate::trit::{Trit, trit_value};

verus! {

/// Bit pattern of the binary64 value 1.0, the weight of a voter that the
/// weights do not name.
pub const UNIT_WEIGHT_BITS: u64 = 0x3FF0_0000_0000_0000u64;

/// Voting strategy for conflict resolution.
#[derive(Debug, Clone)]
pub enum VotingStrategy {
    /// Strict plurality of {+1, 0, -1}; `Zero` when there is none.
    Majority,
    /// Any -1 blocks; +1 only when every vote is +1.
    Consensus,
    /// Sign of the weighted sum of the votes. The weights are binary64 values,
    /// stored as their bit patterns.
    Weighted(NameMap<u64>),
}

/// Result of a harmony vote.
#[derive(Debug, Clone)]
pub struct VoteResult {
    pub outcome: Trit,
    pub for_count: usize,
    pub against_count: usize,
    pub abstain_count: usize,
    pub dissenters: Vec<String>,
}

/// Harmony: conflict resolution when agents disagree.
pub struct Harmony {
    pub strategy: VotingStrategy,
    /// How often each agent has been overruled.
    pub dissent_log: NameMap<u32>,
}

/// The votes as (name, trit) pairs.
pub open spec fn ballot(votes: Seq<(String, Trit)>) -> Seq<(Seq<char>, Trit)> {
    votes.map_values(|v: (String, Trit)| (v.0@, v.1))
}

/// How many of the votes are `t`.
pub open spec fn count_of(votes: Seq<(Seq<char>, Trit)>, t: Trit) -> nat
    decreases votes.len(),
{
    if votes.len() == 0 {
        0
    } else {
        count_of(votes.drop_last(), t) + if votes.last().1 == t {
            1nat
        } else {
            0nat
        }
    }
}

/// Outcome under the majority rule: the strict plurality of the votes, and
/// `Zero` when no value has more votes than each of the other two.
pub open spec fn majority_outcome(for_count: int, against_count: int, abstain_count: int) -> Trit {
    if for_count > against_count && for_count > abstain_count {
        Trit::PlusOne
    } else if against_count > for_count && against_count > abstain_count {
        Trit::MinusOne
    } else {
        Trit::Zero
    }
}

/// Outcome under the consensus rule.
pub open spec fn consensus_outcome(for_count: int, against_count: int, total: int) -> Trit {
    if against_count > 0 || total == 0 {
        Trit::MinusOne
    } else if for_count == total {
        Trit::PlusOne
    } else {
        Trit::Zero
    }
}

/// The outcome of a vote. Under the weighted rule it is `weighted_sign`, the
/// sign of the weighted sum of the votes.
pub open spec fn outcome_of(
    strategy: VotingStrategy,
    votes: Seq<(Seq<char>, Trit)>,
    weighted_sign: Trit,
) -> Trit {
    match strategy {
        VotingStrategy::Majority => majority_outcome(
            count_of(votes, Trit::PlusOne) as int,
            count_of(votes, Trit::MinusOne) as int,
            count_of(votes, Trit::Zero) as int,
        ),
        VotingStrategy::Consensus => consensus_outcome(
            count_of(votes, Trit::PlusOne) as int,
            count_of(votes, Trit::MinusOne) as int,
            votes.len() as int,
        ),
        VotingStrategy::Weighted(_) => weighted_sign,
    }
}

/// The names of the voters whose vote differs from `outcome`, in order.
pub open spec fn dissenters_of(votes: Seq<(Seq<char>, Trit)>, outcome: Trit) -> Seq<Seq<char>>
    decreases votes.len(),
{
    if votes.len() == 0 {
        Seq::empty()
    } else if votes.last().1 != outcome {
        dissenters_of(votes.drop_last(), outcome).push(votes.last().0)
    } else {
        dissenters_of(votes.drop_last(), outcome)
    }
}

/// How often `k` occurs in `names`.
pub open spec fn occurrences(names: Seq<Seq<char>>, k: Seq<char>) -> nat
    decreases names.len(),
{
    if names.len() == 0 {
        0
    } else {
        occurrences(names.drop_last(), k) + if names.last() == k {
            1nat
        } else {
            0nat
        }
    }
}

/// The count stored under `k`, zero when there is none.
pub open spec fn count_or_zero(log: Seq<(Seq<char>, u32)>, k: Seq<char>) -> nat {
    match lookup(log, k) {
        Some(c) => c as nat,
        None => 0,
    }
}

/// The log after one more dissent of `k`.
pub open spec fn bump(log: Seq<(Seq<char>, u32)>, k: Seq<char>) -> Seq<(Seq<char>, u32)> {
    store(log, k, (count_or_zero(log, k) + 1) as u32)
}

/// The log after one dissent of each name in `names`, in order.
pub open spec fn record_all(log: Seq<(Seq<char>, u32)>, names: Seq<Seq<char>>) -> Seq<
    (Seq<char>, u32),
>
    decreases names.len(),
{
    if names.len() == 0 {
        log
    } else {
        bump(record_all(log, names.drop_last()), names.last())
    }
}

/// The sum of all counts in the log.
pub open spec fn total_of(log: Seq<(Seq<char>, u32)>) -> nat
    decreases log.len(),
{
    if log.len() == 0 {
        0
    } else {
        total_of(log.drop_last()) + log.last().1 as nat
    }
}

/// No count overflows when each name in `names` is recorded once more.
pub open spec fn room_for(log: Seq<(Seq<char>, u32)>, names: Seq<Seq<char>>) -> bool {
    forall|k: Seq<char>| count_or_zero(log, k) + #[trigger] occurrences(names, k) <= u32::MAX
}

pub proof fn lemma_count_step(votes: Seq<(Seq<char>, Trit)>, i: int, t: Trit)
    requires
        0 <= i < votes.len(),
    ensures
        count_of(votes.take(i + 1), t) == count_of(votes.take(i), t) + if votes[i].1 == t {
            1nat
        } else {
            0nat
        },
{
    assert(votes.take(i + 1).drop_last() =~= votes.take(i));
}

pub proof fn lemma_dissenters_step(votes: Seq<(Seq<char>, Trit)>, i: int, outcome: Trit)
    requires
        0 <= i < votes.len(),
    ensures
        dissenters_of(votes.take(i + 1), outcome) == if votes[i].1 != outcome {
            dissenters_of(votes.take(i), outcome).push(votes[i].0)
        } else {
            dissenters_of(votes.take(i), outcome)
        },
{
    assert(votes.take(i + 1).drop_last() =~= votes.take(i));
}

/// The three counts of a ballot add up to the number of votes.
pub proof fn lemma_counts_partition(votes: Seq<(Seq<char>, Trit)>)
    ensures
        count_of(votes, Trit::PlusOne) + count_of(votes, Trit::MinusOne) + count_of(
            votes,
            Trit::Zero,
        ) == votes.len(),
    decreases votes.len(),
{
    if votes.len() > 0 {
        lemma_counts_partition(votes.drop_last());
    }
}

proof fn lemma_occurrences_prefix(names: Seq<Seq<char>>, m: int, k: Seq<char>)
    requires
        0 <= m <= names.len(),
    ensures
        occurrences(names.take(m), k) <= occurrences(names, k),
    decreases names.len() - m,
{
    if m < names.len() {
        lemma_occurrences_prefix(names, m + 1, k);
        assert(names.take(m + 1).drop_last() =~= names.take(m));
    } else {
        assert(names.take(m) =~= names);
    }
}

/// Recording dissents keeps the names distinct and adds, to each name's count,
/// the number of times it dissented.
pub proof fn lemma_record_all(log: Seq<(Seq<char>, u32)>, names: Seq<Seq<char>>)
    requires
        keys_distinct(log),
        room_for(log, names),
    ensures
        keys_distinct(record_all(log, names)),
        forall|k: Seq<char>| #[trigger]
            lookup(record_all(log, names), k) == if occurrences(names, k) > 0 {
                Some((count_or_zero(log, k) + occurrences(names, k)) as u32)
            } else {
                lookup(log, k)
            },
    decreases names.len(),
{
    if names.len() > 0 {
        let init = names.drop_last();
        let d = names.last();
        assert(room_for(log, init)) by {
            assert forall|k: Seq<char>| count_or_zero(log, k) + #[trigger] occurrences(init, k)
                <= u32::MAX by {
                assert(occurrences(names, k) >= occurrences(init, k));
            }
        }
        lemma_record_all(log, init);
        let r = record_all(log, init);
        assert(occurrences(names, d) == occurrences(init, d) + 1);
        assert(count_or_zero(log, d) + occurrences(names, d) <= u32::MAX);
        lemma_store(r, d, (count_or_zero(r, d) + 1) as u32);
    }
}

proof fn lemma_total_update(log: Seq<(Seq<char>, u32)>, p: int, e: (Seq<char>, u32))
    requires
        0 <= p < log.len(),
    ensures
        total_of(log.update(p, e)) + log[p].1 == total_of(log) + e.1,
    decreases log.len(),
{
    let u = log.update(p, e);
    if p == log.len() - 1 {
        assert(u.drop_last() =~= log.drop_last());
    } else {
        lemma_total_update(log.drop_last(), p, e);
        assert(u.drop_last() =~= log.drop_last().update(p, e));
    }
}

/// Each recorded dissent adds one to the total.
pub proof fn lemma_total_record_all(log: Seq<(Seq<char>, u32)>, names: Seq<Seq<char>>)
    requires
        keys_distinct(log),
        room_for(log, names),
    ensures
        total_of(record_all(log, names)) == total_of(log) + names.len(),
    decreases names.len(),
{
    if names.len() > 0 {
        let init = names.drop_last();
        let d = names.last();
        assert(room_for(log, init)) by {
            assert forall|k: Seq<char>| count_or_zero(log, k) + #[trigger] occurrences(init, k)
                <= u32::MAX by {
                assert(occurrences(names, k) >= occurrences(init, k));
            }
        }
        lemma_total_record_all(log, init);
        lemma_record_all(log, init);
        let r = record_all(log, init);
        assert(occurrences(names, d) == occurrences(init, d) + 1);
        let c = (count_or_zero(r, d) + 1) as u32;
        if has_key(r, d) {
            let p = key_pos(r, d);
            lemma_total_update(r, p, (d, c));
        } else {
            assert(r.push((d, c)).drop_last() =~= r);
        }
    }
}

proof fn lemma_total_prefix(log: Seq<(Seq<char>, u32)>, m: int)
    requires
        0 <= m <= log.len(),
    ensures
        total_of(log.take(m)) <= total_of(log),
    decreases log.len() - m,
{
    if m < log.len() {
        lemma_total_prefix(log, m + 1);
        assert(log.take(m + 1).drop_last() =~= log.take(m));
    } else {
        assert(log.take(m) =~= log);
    }
}

/// The log after a run of votes, each recording its dissenters in order.
pub open spec fn record_run(log: Seq<(Seq<char>, u32)>, runs: Seq<Seq<Seq<char>>>) -> Seq<
    (Seq<char>, u32),
>
    decreases runs.len(),
{
    if runs.len() == 0 {
        log
    } else {
        record_all(record_run(log, runs.drop_last()), runs.last())
    }
}

/// How many dissenters a run of votes had in all.
pub open spec fn run_length(runs: Seq<Seq<Seq<char>>>) -> nat
    decreases runs.len(),
{
    if runs.len() == 0 {
        0
    } else {
        run_length(runs.drop_last()) + runs.last().len()
    }
}

/// No count overflowed during the run.
pub open spec fn run_has_room(log: Seq<(Seq<char>, u32)>, runs: Seq<Seq<Seq<char>>>) -> bool {
    forall|i: int| 0 <= i < runs.len() ==> room_for(record_run(log, runs.take(i)), #[trigger] runs[i])
}

/// Over a run of votes, the total dissent grows by the number of all their dissenters; from
/// a fresh harmony (an empty log) it is exactly that number.
pub proof fn lemma_total_over_run(log: Seq<(Seq<char>, u32)>, runs: Seq<Seq<Seq<char>>>)
    requires
        keys_distinct(log),
        run_has_room(log, runs),
    ensures
        keys_distinct(record_run(log, runs)),
        total_of(record_run(log, runs)) == total_of(log) + run_length(runs),
    decreases runs.len(),
{
    if runs.len() > 0 {
        let init = runs.drop_last();
        let n = runs.len() - 1;
        assert forall|i: int| 0 <= i < init.len() implies room_for(
            record_run(log, init.take(i)),
            #[trigger] init[i],
        ) by {
            assert(init.take(i) =~= runs.take(i));
            assert(room_for(record_run(log, runs.take(i)), runs[i]));
        }
        lemma_total_over_run(log, init);
        assert(runs.take(n) =~= init);
        assert(room_for(record_run(log, runs.take(n)), runs[n]));
        lemma_total_record_all(record_run(log, init), runs.last());
        lemma_record_all(record_run(log, init), runs.last());
    }
}

/// The sum of the counts looked up under the first `n` names of the log.
pub open spec fn sum_of_counts(log: Seq<(Seq<char>, u32)>, n: int) -> nat
    decreases n,
{
    if n <= 0 {
        0
    } else {
        sum_of_counts(log, n - 1) + count_or_zero(log, log[n - 1].0)
    }
}

/// The total dissent is the sum, over the agents in the log, of each one's dissent count.
pub proof fn lemma_total_is_sum_of_counts(log: Seq<(Seq<char>, u32)>)
    requires
        keys_distinct(log),
    ensures
        total_of(log) == sum_of_counts(log, log.len() as int),
{
    assert forall|n: int| 0 <= n <= log.len() implies #[trigger] total_of(log.take(n))
        == sum_of_counts(log, n) by {
        lemma_total_prefix_sum(log, n);
    }
    assert(log.take(log.len() as int) =~= log);
}

proof fn lemma_total_prefix_sum(log: Seq<(Seq<char>, u32)>, n: int)
    requires
        keys_distinct(log),
        0 <= n <= log.len(),
    ensures
        total_of(log.take(n)) == sum_of_counts(log, n),
    decreases n,
{
    if n > 0 {
        lemma_total_prefix_sum(log, n - 1);
        assert(log.take(n).drop_last() =~= log.take(n - 1));
        lemma_lookup_at(log, n - 1);
    }
}

/// A voter dissents: some vote under its name differs from the outcome.
pub open spec fn dissents(votes: Seq<(Seq<char>, Trit)>, outcome: Trit, k: Seq<char>) -> bool {
    exists|i: int| 0 <= i < votes.len() && #[trigger] votes[i].0 == k && votes[i].1 != outcome
}

/// With distinct voter names (as a map of votes has), each voter is a dissenter at most once:
/// recording a vote raises the count of each voter who dissents by exactly one, and leaves the
/// others.
pub proof fn lemma_distinct_voters(votes: Seq<(Seq<char>, Trit)>, outcome: Trit)
    requires
        keys_distinct(votes),
    ensures
        forall|k: Seq<char>| #[trigger]
            occurrences(dissenters_of(votes, outcome), k) == if dissents(votes, outcome, k) {
                1nat
            } else {
                0nat
            },
    decreases votes.len(),
{
    if votes.len() > 0 {
        let init = votes.drop_last();
        let x = votes.last().0;
        let n = votes.len() - 1;
        assert(keys_distinct(init)) by {
            assert forall|i: int, j: int| 0 <= i < j < init.len() implies #[trigger] init[i].0
                != #[trigger] init[j].0 by {
                assert(votes[i].0 != votes[j].0);
            }
        }
        lemma_distinct_voters(init, outcome);
        assert forall|k: Seq<char>| #[trigger]
            occurrences(dissenters_of(votes, outcome), k) == if dissents(votes, outcome, k) {
                1nat
            } else {
                0nat
            } by {
            let d0 = dissenters_of(init, outcome);
            assert(occurrences(d0, k) == if dissents(init, outcome, k) {
                1nat
            } else {
                0nat
            });
            if votes[n].1 != outcome {
                assert(dissenters_of(votes, outcome) == d0.push(x));
                assert(d0.push(x).drop_last() =~= d0);
                assert(occurrences(d0.push(x), k) == occurrences(d0, k) + if x == k {
                    1nat
                } else {
                    0nat
                });
            } else {
                assert(dissenters_of(votes, outcome) == d0);
            }
            if k == x {
                assert(!dissents(init, outcome, k)) by {
                    if dissents(init, outcome, k) {
                        let i = choose|i: int|
                            0 <= i < init.len() && #[trigger] init[i].0 == k && init[i].1
                                != outcome;
                        assert(votes[i].0 != votes[n].0);
                    }
                }
                if votes[n].1 != outcome {
                    assert(votes[n].0 == k);
                    assert(dissents(votes, outcome, k));
                } else {
                    assert(!dissents(votes, outcome, k)) by {
                        if dissents(votes, outcome, k) {
                            let i = choose|i: int|
                                0 <= i < votes.len() && #[trigger] votes[i].0 == k && votes[i].1
                                    != outcome;
                            if i < n {
                                assert(init[i].0 == k);
                            }
                        }
                    }
                }
            } else {
                if dissents(votes, outcome, k) {
                    let i = choose|i: int|
                        0 <= i < votes.len() && #[trigger] votes[i].0 == k && votes[i].1 != outcome;
                    assert(i < n);
                    assert(init[i].0 == k);
                    assert(dissents(init, outcome, k));
                }
                if dissents(init, outcome, k) {
                    let i = choose|i: int|
                        0 <= i < init.len() && #[trigger] init[i].0 == k && init[i].1 != outcome;
                    assert(votes[i].0 == k);
                }
            }
        }
    }
}

/// The weight of voter `name`: its stored weight, or 1.0 when the weights do not name it.
pub open spec fn weight_of(weights: Seq<(Seq<char>, u64)>, name: Seq<char>) -> u64 {
    match lookup(weights, name) {
        Some(w) => w,
        None => UNIT_WEIGHT_BITS,
    }
}

/// For each vote, in order, its value and the bit pattern of its voter's weight:
/// the terms whose products sum to the weighted score.
pub fn weighted_terms(weights: &NameMap<u64>, votes: &Vec<(String, Trit)>) -> (r: Vec<(i8, u64)>)
    ensures
        r@.len() == votes@.len(),
        forall|i: int|
            0 <= i < votes@.len() ==> #[trigger] r@[i] == (
                trit_value(votes@[i].1) as i8,
                weight_of(weights.entries(), votes@[i].0@),
            ),
{
    let mut r: Vec<(i8, u64)> = Vec::new();
    let n = votes.len();
    let mut i: usize = 0;
    while i < n
        invariant
            n == votes@.len(),
            i <= n,
            r@.len() == i,
            forall|j: int|
                0 <= j < i ==> #[trigger] r@[j] == (
                    trit_value(votes@[j].1) as i8,
                    weight_of(weights.entries(), votes@[j].0@),
                ),
        decreases n - i,
    {
        let w = match weights.get(votes[i].0.as_str()) {
            Some(w) => *w,
            None => UNIT_WEIGHT_BITS,
        };
        r.push((votes[i].1.value(), w));
        i += 1;
    }
    r
}

/// How often `name` occurs among `names`.
fn count_in(names: &Vec<String>, name: &String) -> (r: usize)
    ensures
        r == occurrences(texts(names@), name@),
{
    let ghost ns = texts(names@);
    let n = names.len();
    let mut r: usize = 0;
    let mut i: usize = 0;
    while i < n
        invariant
            n == names@.len(),
            ns == texts(names@),
            i <= n,
            r == occurrences(ns.take(i as int), name@),
            r <= i,
        decreases n - i,
    {
        proof {
            assert(ns.take(i + 1).drop_last() =~= ns.take(i as int));
        }
        if names[i] == *name {
            r += 1;
        }
        i += 1;
    }
    assert(ns.take(n as int) =~= ns);
    r
}

proof fn lemma_occurs_at(names: Seq<Seq<char>>, k: Seq<char>)
    requires
        occurrences(names, k) > 0,
    ensures
        exists|j: int| 0 <= j < names.len() && #[trigger] names[j] == k,
    decreases names.len(),
{
    if names.last() != k {
        lemma_occurs_at(names.drop_last(), k);
        let j = choose|j: int| 0 <= j < names.drop_last().len() && #[trigger] names.drop_last()[j] == k;
        assert(names[j] == k);
    } else {
        assert(names[names.len() - 1] == k);
    }
}

/// Under consensus, a single vote against blocks the decision.
pub proof fn lemma_consensus_blocked(votes: Seq<(Seq<char>, Trit)>, weighted_sign: Trit)
    requires
        count_of(votes, Trit::MinusOne) > 0,
    ensures
        outcome_of(VotingStrategy::Consensus, votes, weighted_sign) == Trit::MinusOne,
{
}

/// Under consensus, the decision passes exactly when there are votes and every one is for it.
pub proof fn lemma_consensus_passes(votes: Seq<(Seq<char>, Trit)>, weighted_sign: Trit)
    ensures
        (outcome_of(VotingStrategy::Consensus, votes, weighted_sign) == Trit::PlusOne) <==> (
        votes.len() > 0 && count_of(votes, Trit::PlusOne) == votes.len()),
{
    lemma_counts_partition(votes);
}

/// Under majority, the value with more votes than each of the other two wins, and only
/// such a value: `PlusOne` needs strictly more for votes than against and abstaining votes,
/// `MinusOne` strictly more against votes than for and abstaining votes; otherwise (a tie
/// for the lead included) the outcome is `Zero`.
pub proof fn lemma_majority_plurality(votes: Seq<(Seq<char>, Trit)>, weighted_sign: Trit)
    ensures
        ({
            let f = count_of(votes, Trit::PlusOne);
            let a = count_of(votes, Trit::MinusOne);
            let z = count_of(votes, Trit::Zero);
            let o = outcome_of(VotingStrategy::Majority, votes, weighted_sign);
            &&& (f > a && f > z ==> o == Trit::PlusOne)
            &&& (a > f && a > z ==> o == Trit::MinusOne)
            &&& (z > f && z > a ==> o == Trit::Zero)
            &&& (f == a ==> o == Trit::Zero)
            &&& (o == Trit::PlusOne <==> f > a && f > z)
            &&& (o == Trit::MinusOne <==> a > f && a > z)
            &&& (o == Trit::Zero <==> !(f > a && f > z) && !(a > f && a > z))
        }),
{
}

/// Consensus is the strictest rule: whatever consensus passes, majority passes too, and
/// whatever majority rejects, consensus rejects too.
pub proof fn lemma_consensus_strictest(votes: Seq<(Seq<char>, Trit)>, weighted_sign: Trit)
    ensures
        outcome_of(VotingStrategy::Consensus, votes, weighted_sign) == Trit::PlusOne ==> outcome_of(
            VotingStrategy::Majority,
            votes,
            weighted_sign,
        ) == Trit::PlusOne,
        outcome_of(VotingStrategy::Majority, votes, weighted_sign) == Trit::MinusOne ==> outcome_of(
            VotingStrategy::Consensus,
            votes,
            weighted_sign,
        ) == Trit::MinusOne,
{
    lemma_counts_partition(votes);
}

/// Every voter whose vote differs from the outcome is a dissenter, once per vote: there are as
/// many dissenters as votes that are not the outcome.
pub proof fn lemma_dissenter_count(votes: Seq<(Seq<char>, Trit)>, outcome: Trit)
    ensures
        dissenters_of(votes, outcome).len() + count_of(votes, outcome) == votes.len(),
    decreases votes.len(),
{
    if votes.len() > 0 {
        lemma_dissenter_count(votes.drop_last(), outcome);
    }
}

/// Each vote adds its dissenters to the total dissent: the log's total grows by the number of
/// dissenters.
pub proof fn lemma_vote_total(
    log: Seq<(Seq<char>, u32)>,
    votes: Seq<(Seq<char>, Trit)>,
    outcome: Trit,
)
    requires
        keys_distinct(log),
        room_for(log, dissenters_of(votes, outcome)),
    ensures
        total_of(record_all(log, dissenters_of(votes, outcome))) == total_of(log) + votes.len()
            - count_of(votes, outcome),
{
    lemma_total_record_all(log, dissenters_of(votes, outcome));
    lemma_dissenter_count(votes, outcome);
}

impl Harmony {
    pub fn new(strategy: VotingStrategy) -> (h: Harmony)
        ensures
            h.strategy == strategy,
            h.dissent_log.entries() == Seq::<(Seq<char>, u32)>::empty(),
    {
        Harmony { strategy, dissent_log: NameMap::new() }
    }

    /// Tallies a vote among agents and decides it, without recording the
    /// dissent. `weighted_sign` is the sign of the weighted score of `votes`;
    /// it decides the outcome under the weighted strategy and is ignored under
    /// the others.
    pub fn decide(&self, votes: &Vec<(String, Trit)>, weighted_sign: Trit) -> (r: VoteResult)
        ensures
            r.for_count == count_of(ballot(votes@), Trit::PlusOne),
            r.against_count == count_of(ballot(votes@), Trit::MinusOne),
            r.abstain_count == count_of(ballot(votes@), Trit::Zero),
            r.outcome == outcome_of(self.strategy, ballot(votes@), weighted_sign),
            texts(r.dissenters@) == dissenters_of(ballot(votes@), r.outcome),
    {
        let ghost b = ballot(votes@);
        let n = votes.len();
        let mut for_count: usize = 0;
        let mut against_count: usize = 0;
        let mut abstain_count: usize = 0;
        let mut i: usize = 0;
        while i < n
            invariant
                n == votes@.len(),
                b == ballot(votes@),
                i <= n,
                for_count == count_of(b.take(i as int), Trit::PlusOne),
                against_count == count_of(b.take(i as int), Trit::MinusOne),
                abstain_count == count_of(b.take(i as int), Trit::Zero),
                for_count + against_count + abstain_count == i,
            decreases n - i,
        {
            proof {
                lemma_count_step(b, i as int, Trit::PlusOne);
                lemma_count_step(b, i as int, Trit::MinusOne);
                lemma_count_step(b, i as int, Trit::Zero);
            }
            match votes[i].1 {
                Trit::PlusOne => {
                    for_count += 1;
                },
                Trit::MinusOne => {
                    against_count += 1;
                },
                Trit::Zero => {
                    abstain_count += 1;
                },
            }
            i += 1;
        }
        assert(b.take(n as int) =~= b);

        let outcome = match &self.strategy {
            VotingStrategy::Majority => {
                if for_count > against_count && for_count > abstain_count {
                    Trit::PlusOne
                } else if against_count > for_count && against_count > abstain_count {
                    Trit::MinusOne
                } else {
                    Trit::Zero
                }
            },
            VotingStrategy::Consensus => {
                if against_count > 0 || n == 0 {
                    Trit::MinusOne
                } else if for_count == n {
                    Trit::PlusOne
                } else {
                    Trit::Zero
                }
            },
            VotingStrategy::Weighted(_) => weighted_sign,
        };

        let mut dissenters: Vec<String> = Vec::new();
        let mut i: usize = 0;
        while i < n
            invariant
                n == votes@.len(),
                b == ballot(votes@),
                i <= n,
                texts(dissenters@) == dissenters_of(b.take(i as int), outcome),
            decreases n - i,
        {
            proof {
                lemma_dissenters_step(b, i as int, outcome);
            }
            if votes[i].1 != outcome {
                let name = votes[i].0.clone();
                let ghost before = dissenters@;
                dissenters.push(name);
                assert(texts(dissenters@) =~= texts(before).push(b[i as int].0));
            }
            i += 1;
        }
        assert(b.take(n as int) =~= b);
        VoteResult { outcome, for_count, against_count, abstain_count, dissenters }
    }

    /// Whether recording one more dissent for each of `dissenters` keeps every
    /// count within `u32`.
    pub fn has_room_for(&self, dissenters: &Vec<String>) -> (r: bool)
        ensures
            r == room_for(self.dissent_log.entries(), texts(dissenters@)),
    {
        let ghost ds = texts(dissenters@);
        let ghost log = self.dissent_log.entries();
        let n = dissenters.len();
        let mut i: usize = 0;
        while i < n
            invariant
                n == dissenters@.len(),
                ds == texts(dissenters@),
                log == self.dissent_log.entries(),
                i <= n,
                forall|j: int|
                    0 <= j < i ==> count_or_zero(log, #[trigger] ds[j]) + occurrences(ds, ds[j])
                        <= u32::MAX,
            decreases n - i,
        {
            let name = &dissenters[i];
            let occ = count_in(dissenters, name);
            let current: u32 = self.dissent_count(name.as_str());
            if occ > u32::MAX as usize {
                return false;
            }
            if current as u64 + occ as u64 > u32::MAX as u64 {
                return false;
            }
            i += 1;
        }
        assert forall|k: Seq<char>| count_or_zero(log, k) + #[trigger] occurrences(ds, k)
            <= u32::MAX by {
            if occurrences(ds, k) > 0 {
                lemma_occurs_at(ds, k);
            }
        }
        true
    }

    /// Records one more dissent for each of `dissenters`, in order.
    pub fn record_dissent(&mut self, dissenters: &Vec<String>)
        requires
            room_for(old(self).dissent_log.entries(), texts(dissenters@)),
        ensures
            final(self).strategy == old(self).strategy,
            final(self).dissent_log.entries() == record_all(
                old(self).dissent_log.entries(),
                texts(dissenters@),
            ),
            forall|k: Seq<char>| #[trigger]
                final(self).dissent_log.get_spec(k) == if occurrences(texts(dissenters@), k) > 0 {
                    Some(
                        (count_or_zero(old(self).dissent_log.entries(), k) + occurrences(
                            texts(dissenters@),
                            k,
                        )) as u32,
                    )
                } else {
                    old(self).dissent_log.get_spec(k)
                },
    {
        let ghost ds = texts(dissenters@);
        let ghost log0 = self.dissent_log.entries();
        self.dissent_log.distinct_names();
        let m = dissenters.len();
        let mut j: usize = 0;
        while j < m
            invariant
                m == dissenters@.len(),
                texts(dissenters@) == ds,
                j <= m,
                keys_distinct(log0),
                room_for(log0, ds),
                self.strategy == old(self).strategy,
                self.dissent_log.entries() == record_all(log0, ds.take(j as int)),
            decreases m - j,
        {
            let ghost dsj = ds.take(j as int);
            proof {
                assert(ds.take(j + 1).drop_last() =~= dsj);
                assert(ds[j as int] == dissenters@[j as int]@);
                lemma_occurrences_prefix(ds, j + 1, ds[j as int]);
                assert(room_for(log0, dsj)) by {
                    assert forall|k: Seq<char>| count_or_zero(log0, k) + #[trigger] occurrences(
                        dsj,
                        k,
                    ) <= u32::MAX by {
                        lemma_occurrences_prefix(ds, j as int, k);
                    }
                }
                lemma_record_all(log0, dsj);
                assert(occurrences(ds.take(j + 1), ds[j as int]) == occurrences(dsj, ds[j as int])
                    + 1);
            }
            let current: u32 = match self.dissent_log.get(dissenters[j].as_str()) {
                Some(c) => *c,
                None => 0,
            };
            self.dissent_log.insert(dissenters[j].clone(), current + 1);
            j += 1;
        }
        proof {
            assert(ds.take(m as int) =~= ds);
            lemma_record_all(log0, ds);
        }
    }

    /// Conducts a vote among agents: decides it, then records each dissenter
    /// as overruled once more. `weighted_sign` is as for `decide`.
    pub fn vote(&mut self, votes: Vec<(String, Trit)>, weighted_sign: Trit) -> (r: VoteResult)
        requires
            room_for(
                old(self).dissent_log.entries(),
                dissenters_of(
                    ballot(votes@),
                    outcome_of(old(self).strategy, ballot(votes@), weighted_sign),
                ),
            ),
        ensures
            r.for_count == count_of(ballot(votes@), Trit::PlusOne),
            r.against_count == count_of(ballot(votes@), Trit::MinusOne),
            r.abstain_count == count_of(ballot(votes@), Trit::Zero),
            r.outcome == outcome_of(old(self).strategy, ballot(votes@), weighted_sign),
            texts(r.dissenters@) == dissenters_of(ballot(votes@), r.outcome),
            final(self).strategy == old(self).strategy,
            final(self).dissent_log.entries() == record_all(
                old(self).dissent_log.entries(),
                dissenters_of(ballot(votes@), r.outcome),
            ),
            forall|k: Seq<char>| #[trigger]
                final(self).dissent_log.get_spec(k) == if occurrences(
                    dissenters_of(ballot(votes@), r.outcome),
                    k,
                ) > 0 {
                    Some(
                        (count_or_zero(old(self).dissent_log.entries(), k) + occurrences(
                            dissenters_of(ballot(votes@), r.outcome),
                            k,
                        )) as u32,
                    )
                } else {
                    old(self).dissent_log.get_spec(k)
                },
    {
        let r = self.decide(&votes, weighted_sign);
        self.record_dissent(&r.dissenters);
        r
    }

    /// How many times an agent has been overruled.
    pub fn dissent_count(&self, agent: &str) -> (r: u32)
        ensures
            r == count_or_zero(self.dissent_log.entries(), agent@),
    {
        match self.dissent_log.get(agent) {
            Some(c) => *c,
            None => 0,
        }
    }

    /// Whether the total of all dissent counts fits in `u32`.
    pub fn total_fits(&self) -> (r: bool)
        ensures
            r == (total_of(self.dissent_log.entries()) <= u32::MAX),
    {
        let ghost log = self.dissent_log.entries();
        let n = self.dissent_log.len();
        let mut total: u64 = 0;
        let mut i: usize = 0;
        while i < n
            invariant
                n == log.len(),
                log == self.dissent_log.entries(),
                i <= n,
                total == total_of(log.take(i as int)),
                total <= u32::MAX,
            decreases n - i,
        {
            proof {
                assert(log.take(i + 1).drop_last() =~= log.take(i as int));
            }
            total = total + *self.dissent_log.value_at(i) as u64;
            if total > u32::MAX as u64 {
                proof {
                    lemma_total_prefix(log, i + 1);
                }
                return false;
            }
            i += 1;
        }
        assert(log.take(n as int) =~= log);
        true
    }

    /// Total dissent events.
    pub fn total_dissent(&self) -> (r: u32)
        requires
            total_of(self.dissent_log.entries()) <= u32::MAX,
        ensures
            r == total_of(self.dissent_log.entries()),
    {
        let ghost log = self.dissent_log.entries();
        let n = self.dissent_log.len();
        let mut total: u32 = 0;
        let mut i: usize = 0;
        while i < n
            invariant
                n == log.len(),
                log == self.dissent_log.entries(),
                total_of(log) <= u32::MAX,
                i <= n,
                total == total_of(log.take(i as int)),
            decreases n - i,
        {
            proof {
                assert(log.take(i + 1).drop_last() =~= log.take(i as int));
                lemma_total_prefix(log, i + 1);
            }
            total = total + *self.dissent_log.value_at(i);
            i += 1;
        }
        assert(log.take(n as int) =~= log);
        total
    }
}

} // verus!
