use vstd::prelude::*;

use crate::memory::MuscleMemory;
use crate::names::{NameMap, has_key, key_pos, keys_distinct, lemma_lookup_at, lemma_lookup_last, lookup};
use crate::score::{Condition, Reading};

verus! {

/// Bit pattern of the binary64 value 0.0, the value of an agent that has none.
pub const ZERO_BITS: u64 = 0u64;

/// An intent to conduct: a named task with a target value (a binary64 value,
/// stored as its bit pattern).
#[derive(Debug, Clone)]
pub struct ConductIntent {
    pub name: String,
    pub target: u64,
}

impl ConductIntent {
    pub fn new(name: &str, target: u64) -> (c: ConductIntent)
        ensures
            c.name@ == name@,
            c.target == target,
    {
        ConductIntent { name: name.to_owned(), target }
    }
}

/// An agent in the ensemble: a name, its muscle memory, the last value it
/// produced, and every value it produced, in order (its readings). Values are
/// binary64 values, stored as their bit patterns.
#[derive(Debug, Clone)]
pub struct Agent {
    pub id: String,
    pub memory: MuscleMemory,
    pub last_value: Option<u64>,
    pub readings: Vec<u64>,
}

impl Agent {
    pub fn new(id: &str, memory: MuscleMemory) -> (a: Agent)
        ensures
            a.id@ == id@,
            a.memory == memory,
            a.last_value is None,
            a.readings@ == Seq::<u64>::empty(),
    {
        Agent { id: id.to_owned(), memory, last_value: None, readings: Vec::new() }
    }
}

/// The ensemble: the agents coordinated by the conductor, found by name.
#[derive(Debug)]
pub struct Ensemble {
    pub agents: NameMap<Agent>,
}

/// An agent's last value, 0.0 when it has none.
pub open spec fn value_or_zero(v: Option<u64>) -> u64 {
    match v {
        Some(x) => x,
        None => ZERO_BITS,
    }
}

/// `after` is the agent `before` once it produced `value`: it becomes its last
/// value and is added to its readings.
pub open spec fn produced(before: Agent, after: Agent, value: u64) -> bool {
    &&& after.id == before.id
    &&& after.memory == before.memory
    &&& after.last_value == Some(value)
    &&& after.readings@ == before.readings@.push(value)
}

/// `after` are the agents `before` once the agent named `id`, if there is one,
/// produced `value`; every other agent is unchanged.
pub open spec fn value_set(
    before: Seq<(Seq<char>, Agent)>,
    after: Seq<(Seq<char>, Agent)>,
    id: Seq<char>,
    value: u64,
) -> bool {
    if has_key(before, id) {
        let p = key_pos(before, id);
        &&& after.len() == before.len()
        &&& after[p].0 == id
        &&& produced(before[p].1, after[p].1, value)
        &&& forall|j: int| 0 <= j < before.len() && j != p ==> #[trigger] after[j] == before[j]
    } else {
        after == before
    }
}

/// The values, in order, that `values` hands to the agent named `id`.
pub open spec fn values_for(values: Seq<(Seq<char>, u64)>, id: Seq<char>) -> Seq<u64>
    decreases values.len(),
{
    if values.len() == 0 {
        Seq::empty()
    } else if values.last().0 == id {
        values_for(values.drop_last(), id).push(values.last().1)
    } else {
        values_for(values.drop_last(), id)
    }
}

/// `after` is the agent `before` once it produced `values`, in order: its
/// readings grow by them, and the last of them becomes its last value.
pub open spec fn produced_all(before: Agent, after: Agent, values: Seq<u64>) -> bool {
    &&& after.id == before.id
    &&& after.memory == before.memory
    &&& after.readings@ == before.readings@ + values
    &&& after.last_value == if values.len() == 0 {
        before.last_value
    } else {
        Some(values.last())
    }
}

/// `after` are the agents `before` once each named agent produced its values,
/// in order.
pub open spec fn values_set(
    before: Seq<(Seq<char>, Agent)>,
    after: Seq<(Seq<char>, Agent)>,
    values: Seq<(Seq<char>, u64)>,
) -> bool {
    &&& after.len() == before.len()
    &&& forall|p: int|
        0 <= p < before.len() ==> #[trigger] after[p].0 == before[p].0 && produced_all(
            before[p].1,
            after[p].1,
            values_for(values, before[p].0),
        )
}

proof fn lemma_values_set_step(
    b: Seq<(Seq<char>, Agent)>,
    c: Seq<(Seq<char>, Agent)>,
    d: Seq<(Seq<char>, Agent)>,
    vs: Seq<(Seq<char>, u64)>,
    id: Seq<char>,
    v: u64,
)
    requires
        keys_distinct(b),
        values_set(b, c, vs),
        value_set(c, d, id, v),
    ensures
        values_set(b, d, vs.push((id, v))),
{
    let vs2 = vs.push((id, v));
    assert(vs2.drop_last() =~= vs);
    assert(d.len() == b.len());
    assert forall|p: int| 0 <= p < b.len() implies #[trigger] d[p].0 == b[p].0 && produced_all(
        b[p].1,
        d[p].1,
        values_for(vs2, b[p].0),
    ) by {
        let u = values_for(vs, b[p].0);
        assert(c[p].0 == b[p].0);
        if has_key(c, id) {
            let q = key_pos(c, id);
            assert(c[q].0 == b[q].0);
            if p == q {
                assert(values_for(vs2, b[p].0) == u.push(v));
                assert(b[p].1.readings@ + u.push(v) =~= (b[p].1.readings@ + u).push(v));
            } else {
                if b[p].0 == id {
                    if p < q {
                        assert(b[p].0 != b[q].0);
                    } else {
                        assert(b[q].0 != b[p].0);
                    }
                }
                assert(d[p] == c[p]);
                assert(values_for(vs2, b[p].0) == u);
            }
        } else {
            assert(b[p].0 != id);
            assert(values_for(vs2, b[p].0) == u);
        }
    }
}

/// The agents that know the pattern `name`, in order, each with that pattern's confidence.
pub open spec fn responders(agents: Seq<(Seq<char>, Agent)>, name: Seq<char>) -> Seq<
    (Seq<char>, u64),
>
    decreases agents.len(),
{
    if agents.len() == 0 {
        Seq::empty()
    } else {
        let rest = responders(agents.drop_last(), name);
        match lookup(agents.last().1.memory.patterns.entries(), name) {
            Some(p) => rest.push((agents.last().0, p.confidence)),
            None => rest,
        }
    }
}

/// What executing a step asks for.
#[derive(Debug, Clone, Copy, PartialEq, Eq, Structural)]
pub enum StepDemand {
    /// The step's value is known: the agent is missing (0.0), or it does not
    /// know the chord (its last value, or 0.0).
    Ready(u64),
    /// The step's value is `factor * confidence`, which the agent then keeps
    /// as its last value.
    Scale { factor: u64, confidence: u64 },
}

/// What executing the step of `agent` playing `chord` asks for.
pub open spec fn demand_of(agents: Seq<(Seq<char>, Agent)>, agent: Seq<char>, chord: Seq<char>) -> StepDemand {
    match lookup(agents, agent) {
        None => StepDemand::Ready(ZERO_BITS),
        Some(a) => match lookup(a.memory.patterns.entries(), chord) {
            None => StepDemand::Ready(value_or_zero(a.last_value)),
            Some(p) => StepDemand::Scale {
                factor: value_or_zero(a.last_value),
                confidence: p.confidence,
            },
        },
    }
}

/// The agent that a reading looks at.
pub open spec fn reading_agent(r: Reading) -> Seq<char> {
    match r {
        Reading::Last(id) => id@,
        Reading::Average(id) => id@,
        Reading::Count(id) => id@,
    }
}

/// The test a condition applies.
#[derive(Debug, Clone, Copy, PartialEq, Eq, Structural)]
pub enum Comparison {
    /// value > threshold
    Gt,
    /// value < threshold
    Lt,
    /// |value - threshold| < 0.001
    Eq,
    /// value >= threshold
    Gte,
    /// value <= threshold
    Lte,
}

/// The reading, test and threshold of a condition.
pub open spec fn condition_parts(c: Condition) -> (Reading, Comparison, u64) {
    match c {
        Condition::Gt(r, t) => (r, Comparison::Gt, t),
        Condition::Lt(r, t) => (r, Comparison::Lt, t),
        Condition::Eq(r, t) => (r, Comparison::Eq, t),
        Condition::Gte(r, t) => (r, Comparison::Gte, t),
        Condition::Lte(r, t) => (r, Comparison::Lte, t),
    }
}

/// The readings a condition sees of an agent: its recorded readings, or, when
/// none were recorded, its last value if it has one (a value written straight
/// into `last_value` counts as one reading).
pub open spec fn readings_of(a: Agent) -> Seq<u64> {
    if a.readings@.len() > 0 {
        a.readings@
    } else {
        match a.last_value {
            Some(v) => seq![v],
            None => Seq::empty(),
        }
    }
}

impl Agent {
    /// The readings a condition sees of this agent.
    pub fn seen_readings(&self) -> (r: Vec<u64>)
        ensures
            r@ == readings_of(*self),
    {
        if self.readings.len() > 0 {
            let r = self.readings.clone();
            assert(r@ =~= self.readings@);
            r
        } else {
            let mut r: Vec<u64> = Vec::new();
            match self.last_value {
                Some(v) => {
                    r.push(v);
                    assert(r@ =~= seq![v]);
                },
                None => {
                    assert(r@ =~= Seq::<u64>::empty());
                },
            }
            r
        }
    }
}

/// What a condition compares with its threshold.
#[derive(Debug, Clone)]
pub enum Operand {
    /// The agent's last value.
    Value(u64),
    /// The average of the agent's readings (`readings_of`), which are given
    /// (never empty).
    Mean(Vec<u64>),
    /// The number of the agent's readings (`readings_of`).
    Count(usize),
}

/// Whether a condition has something to compare: the agent it reads exists
/// and, for `Last`, has a value, for `Average`, has a reading (`readings_of`).
/// Without it the condition is false.
pub open spec fn has_operand(agents: Seq<(Seq<char>, Agent)>, c: Condition) -> bool {
    match lookup(agents, reading_agent(condition_parts(c).0)) {
        Some(a) => match condition_parts(c).0 {
            Reading::Last(_) => a.last_value is Some,
            Reading::Average(_) => readings_of(a).len() > 0,
            Reading::Count(_) => true,
        },
        None => false,
    }
}

/// `op` is what the condition compares.
pub open spec fn is_operand(agents: Seq<(Seq<char>, Agent)>, c: Condition, op: Operand) -> bool {
    match lookup(agents, reading_agent(condition_parts(c).0)) {
        Some(a) => match (condition_parts(c).0, op) {
            (Reading::Last(_), Operand::Value(v)) => a.last_value == Some(v),
            (Reading::Average(_), Operand::Mean(rs)) => readings_of(a).len() > 0 && rs@
                == readings_of(a),
            (Reading::Count(_), Operand::Count(n)) => n == readings_of(a).len(),
            _ => false,
        },
        None => false,
    }
}

/// The test and threshold of a condition.
pub fn comparison_of(condition: &Condition) -> (r: (Comparison, u64))
    ensures
        r == (condition_parts(*condition).1, condition_parts(*condition).2),
        match *condition {
            Condition::Gt(_, t) => r == (Comparison::Gt, t),
            Condition::Lt(_, t) => r == (Comparison::Lt, t),
            Condition::Eq(_, t) => r == (Comparison::Eq, t),
            Condition::Gte(_, t) => r == (Comparison::Gte, t),
            Condition::Lte(_, t) => r == (Comparison::Lte, t),
        },
{
    match condition {
        Condition::Gt(_, t) => (Comparison::Gt, *t),
        Condition::Lt(_, t) => (Comparison::Lt, *t),
        Condition::Eq(_, t) => (Comparison::Eq, *t),
        Condition::Gte(_, t) => (Comparison::Gte, *t),
        Condition::Lte(_, t) => (Comparison::Lte, *t),
    }
}

impl Ensemble {
    pub fn new() -> (e: Ensemble)
        ensures
            e.agents.entries() == Seq::<(Seq<char>, Agent)>::empty(),
    {
        Ensemble { agents: NameMap::new() }
    }

    /// Adds (or replaces) the agent `id` with this memory and no value.
    pub fn add_agent(&mut self, id: &str, memory: MuscleMemory)
        ensures
            exists|a: Agent|
                a.id@ == id@ && a.memory == memory && a.last_value is None && a.readings@.len()
                    == 0 && final(self).agents.entries() == crate::names::store(
                    old(self).agents.entries(),
                    id@,
                    a,
                ),
            final(self).agents.get_spec(id@) matches Some(a) && a.id@ == id@ && a.memory == memory
                && a.last_value is None && a.readings@.len() == 0,
            forall|k: Seq<char>| k != id@ ==> #[trigger] final(self).agents.get_spec(k) == old(self).agents.get_spec(k),
    {
        let a = Agent::new(id, memory);
        let ghost ga = a;
        self.agents.insert(id.to_owned(), a);
        assert(ga.id@ == id@ && ga.memory == memory && ga.last_value is None && ga.readings@.len()
            == 0);
    }

    /// Gets an agent by id.
    pub fn get_agent(&self, id: &str) -> (r: Option<&Agent>)
        ensures
            match r {
                Some(a) => self.agents.get_spec(id@) == Some(*a),
                None => self.agents.get_spec(id@) is None,
            },
    {
        self.agents.get(id)
    }

    pub fn get_agent_mut(&mut self, id: &str) -> (r: Option<&mut Agent>)
        ensures
            match r {
                Some(a) => {
                    &&& has_key(old(self).agents.entries(), id@)
                    &&& old(self).agents.get_spec(id@) == Some(*a)
                    &&& final(self).agents.entries() == old(self).agents.entries().update(
                        key_pos(old(self).agents.entries(), id@),
                        (id@, *final(a)),
                    )
                },
                None => {
                    &&& !has_key(old(self).agents.entries(), id@)
                    &&& final(self).agents.entries() == old(self).agents.entries()
                },
            },
    {
        self.agents.get_mut(id)
    }

    /// The agent `id`, if present, produced `value`: it becomes its last value
    /// and is added to its readings.
    pub fn set_last_value(&mut self, id: &str, value: u64)
        ensures
            value_set(old(self).agents.entries(), final(self).agents.entries(), id@, value),
    {
        match self.agents.get_mut(id) {
            Some(a) => {
                a.last_value = Some(value);
                a.readings.push(value);
            },
            None => {},
        }
    }

    /// The first half of conducting an intent: the agents that know a pattern
    /// named as the intent, in order, with that pattern's confidence. Each one's
    /// value is the intent's target times the confidence.
    pub fn conduct_requests(&self, intent: &ConductIntent) -> (r: Vec<(String, u64)>)
        ensures
            r@.map_values(|e: (String, u64)| (e.0@, e.1)) == responders(
                self.agents.entries(),
                intent.name@,
            ),
    {
        let ghost agents = self.agents.entries();
        let mut r: Vec<(String, u64)> = Vec::new();
        let n = self.agents.len();
        let mut i: usize = 0;
        while i < n
            invariant
                n == agents.len(),
                agents == self.agents.entries(),
                i <= n,
                r@.map_values(|e: (String, u64)| (e.0@, e.1)) == responders(
                    agents.take(i as int),
                    intent.name@,
                ),
            decreases n - i,
        {
            proof {
                assert(agents.take(i + 1).drop_last() =~= agents.take(i as int));
            }
            let agent = self.agents.value_at(i);
            match agent.memory.get_pattern(intent.name.as_str()) {
                Some(p) => {
                    let ghost before = r@;
                    r.push((self.agents.name_at(i).clone(), p.confidence));
                    assert(r@.map_values(|e: (String, u64)| (e.0@, e.1)) =~= before.map_values(
                        |e: (String, u64)| (e.0@, e.1),
                    ).push((agents[i as int].0, p.confidence)));
                },
                None => {},
            }
            i += 1;
        }
        assert(agents.take(n as int) =~= agents);
        r
    }

    /// The second half of conducting an intent: each named agent produced its
    /// value, in order.
    pub fn record_values(&mut self, values: &Vec<(String, u64)>)
        ensures
            values_set(
                old(self).agents.entries(),
                final(self).agents.entries(),
                values@.map_values(|e: (String, u64)| (e.0@, e.1)),
            ),
    {
        let ghost vs = values@.map_values(|e: (String, u64)| (e.0@, e.1));
        let ghost b = self.agents.entries();
        self.agents.distinct_names();
        proof {
            assert forall|p: int| 0 <= p < b.len() implies #[trigger] b[p].0 == b[p].0
                && produced_all(b[p].1, b[p].1, values_for(vs.take(0), b[p].0)) by {
                assert(values_for(vs.take(0), b[p].0) == Seq::<u64>::empty());
                assert(b[p].1.readings@ + Seq::<u64>::empty() =~= b[p].1.readings@);
            }
        }
        let n = values.len();
        let mut i: usize = 0;
        while i < n
            invariant
                n == values@.len(),
                vs == values@.map_values(|e: (String, u64)| (e.0@, e.1)),
                i <= n,
                b == old(self).agents.entries(),
                keys_distinct(b),
                values_set(b, self.agents.entries(), vs.take(i as int)),
            decreases n - i,
        {
            let ghost c = self.agents.entries();
            self.set_last_value(values[i].0.as_str(), values[i].1);
            proof {
                assert(vs.take(i + 1) =~= vs.take(i as int).push((values@[i as int].0@, values@[i as int].1)));
                lemma_values_set_step(b, c, self.agents.entries(), vs.take(i as int), values@[i as int].0@, values@[i as int].1);
            }
            i += 1;
        }
        assert(vs.take(n as int) =~= vs);
    }

    /// What executing the step of `agent_id` playing `chord` asks for.
    pub fn step_demand(&self, agent_id: &str, chord: &str) -> (r: StepDemand)
        ensures
            r == demand_of(self.agents.entries(), agent_id@, chord@),
    {
        match self.agents.get(agent_id) {
            Some(agent) => match agent.memory.get_pattern(chord) {
                Some(p) => {
                    let factor = match agent.last_value {
                        Some(v) => v,
                        None => ZERO_BITS,
                    };
                    StepDemand::Scale { factor, confidence: p.confidence }
                },
                None => match agent.last_value {
                    Some(v) => StepDemand::Ready(v),
                    None => StepDemand::Ready(ZERO_BITS),
                },
            },
            None => StepDemand::Ready(ZERO_BITS),
        }
    }

    /// What a condition compares, if there is anything; without it the
    /// condition is false.
    pub fn condition_operand(&self, condition: &Condition) -> (r: Option<Operand>)
        ensures
            match r {
                Some(op) => has_operand(self.agents.entries(), *condition) && is_operand(
                    self.agents.entries(),
                    *condition,
                    op,
                ),
                None => !has_operand(self.agents.entries(), *condition),
            },
    {
        let reading = match condition {
            Condition::Gt(r, _) => r,
            Condition::Lt(r, _) => r,
            Condition::Eq(r, _) => r,
            Condition::Gte(r, _) => r,
            Condition::Lte(r, _) => r,
        };
        let agent_id = match reading {
            Reading::Last(id) => id,
            Reading::Average(id) => id,
            Reading::Count(id) => id,
        };
        match self.agents.get(agent_id.as_str()) {
            Some(agent) => match reading {
                Reading::Last(_) => match agent.last_value {
                    Some(v) => Some(Operand::Value(v)),
                    None => None,
                },
                Reading::Average(_) => {
                    let seen = agent.seen_readings();
                    if seen.len() > 0 {
                        Some(Operand::Mean(seen))
                    } else {
                        None
                    }
                },
                Reading::Count(_) => Some(Operand::Count(agent.seen_readings().len())),
            },
            None => None,
        }
    }
}

impl Default for Ensemble {
    fn default() -> (e: Ensemble)
        ensures
            e.agents.entries() == Seq::<(Seq<char>, Agent)>::empty(),
    {
        Ensemble::new()
    }
}

/// Conducting reaches exactly the agents that know the intent: `(id, c)` is
/// among the responders to `name` if and only if the agent `id` has a pattern
/// named `name` with confidence `c`, whatever its values so far.
pub proof fn lemma_responders_exact(
    agents: Seq<(Seq<char>, Agent)>,
    name: Seq<char>,
    id: Seq<char>,
    c: u64,
)
    requires
        keys_distinct(agents),
    ensures
        responders(agents, name).contains((id, c)) <==> (lookup(agents, id) matches Some(a) && (
        lookup(a.memory.patterns.entries(), name) matches Some(p) && p.confidence == c)),
    decreases agents.len(),
{
    if agents.len() > 0 {
        let d = agents.drop_last();
        lemma_lookup_last(agents, id);
        lemma_responders_exact(d, name, id, c);
        let rest = responders(d, name);
        let last = agents.last();
        if last.0 == id {
            assert(!has_key(d, id)) by {
                if has_key(d, id) {
                    let i = key_pos(d, id);
                    assert(agents[i].0 != agents[agents.len() - 1].0);
                }
            }
            assert(!rest.contains((id, c)));
        }
        match lookup(last.1.memory.patterns.entries(), name) {
            Some(p) => {
                let y = (last.0, p.confidence);
                assert(responders(agents, name) == rest.push(y));
                if rest.contains((id, c)) {
                    let w = choose|w: int| 0 <= w < rest.len() && rest[w] == (id, c);
                    assert(rest.push(y)[w] == (id, c));
                }
                if (id, c) == y {
                    assert(rest.push(y)[rest.len() as int] == y);
                }
                if rest.push(y).contains((id, c)) {
                    let w = choose|w: int| 0 <= w < rest.len() + 1 && rest.push(y)[w] == (id, c);
                    if w < rest.len() {
                        assert(rest[w] == (id, c));
                    }
                }
            },
            None => {
                assert(responders(agents, name) == rest);
            },
        }
    }
}

/// Producing values changes no agent's patterns: the agents that answer an
/// intent are the same before and after the values of a conduct are recorded.
pub proof fn lemma_responders_after_values(
    before: Seq<(Seq<char>, Agent)>,
    after: Seq<(Seq<char>, Agent)>,
    values: Seq<(Seq<char>, u64)>,
    name: Seq<char>,
)
    requires
        values_set(before, after, values),
    ensures
        responders(after, name) == responders(before, name),
    decreases before.len(),
{
    if before.len() > 0 {
        let n = before.len() - 1;
        let b = before.drop_last();
        let a = after.drop_last();
        assert(values_set(b, a, values)) by {
            assert forall|p: int| 0 <= p < b.len() implies #[trigger] a[p].0 == b[p].0
                && produced_all(b[p].1, a[p].1, values_for(values, b[p].0)) by {
                assert(after[p].0 == before[p].0);
            }
        }
        lemma_responders_after_values(b, a, values, name);
        assert(after[n].0 == before[n].0);
    }
}

/// A step of an agent that knows the chord scales the agent's last value (0.0
/// when it has none) by the pattern's confidence, and such an agent always
/// gets a scaled step; an agent that does not know the chord answers with its
/// last value (0.0 when it has none), and a missing agent with 0.0.
pub proof fn lemma_demand_scales_last_value(
    agents: Seq<(Seq<char>, Agent)>,
    id: Seq<char>,
    chord: Seq<char>,
)
    ensures
        demand_of(agents, id, chord) matches StepDemand::Scale { factor, confidence } ==> (lookup(
            agents,
            id,
        ) matches Some(a) && factor == value_or_zero(a.last_value) && (lookup(
            a.memory.patterns.entries(),
            chord,
        ) matches Some(p) && p.confidence == confidence)),
        (lookup(agents, id) matches Some(a) && lookup(a.memory.patterns.entries(), chord) is Some)
            ==> demand_of(agents, id, chord) is Scale,
        lookup(agents, id) is None ==> demand_of(agents, id, chord) == StepDemand::Ready(
            ZERO_BITS,
        ),
        lookup(agents, id) matches Some(a) ==> (lookup(a.memory.patterns.entries(), chord) is None
            ==> demand_of(agents, id, chord) == StepDemand::Ready(value_or_zero(a.last_value))),
{
}

/// Steps chain: once an agent that knows the chord produced `v`, its next step
/// on that chord scales `v`, with the same confidence.
pub proof fn lemma_demand_after_value(
    before: Seq<(Seq<char>, Agent)>,
    after: Seq<(Seq<char>, Agent)>,
    id: Seq<char>,
    v: u64,
    chord: Seq<char>,
)
    requires
        keys_distinct(before),
        value_set(before, after, id, v),
        demand_of(before, id, chord) is Scale,
    ensures
        demand_of(after, id, chord) == (StepDemand::Scale {
            factor: v,
            confidence: demand_of(before, id, chord)->confidence,
        }),
{
    let p = key_pos(before, id);
    assert(keys_distinct(after)) by {
        assert forall|i: int, j: int| 0 <= i < j < after.len() implies #[trigger] after[i].0
            != #[trigger] after[j].0 by {
            if i == p {
                assert(after[j] == before[j]);
                assert(before[i].0 != before[j].0);
            } else if j == p {
                assert(after[i] == before[i]);
                assert(before[i].0 != before[j].0);
            } else {
                assert(after[i] == before[i]);
                assert(after[j] == before[j]);
                assert(before[i].0 != before[j].0);
            }
        }
    }
    lemma_lookup_at(after, p);
}

/// Each kind of condition applies its own test to its own reading and
/// threshold: `Gt` tests value > threshold, `Lt` value < threshold, `Eq`
/// value = threshold (within 0.001), `Gte` value >= threshold, and `Lte`
/// value <= threshold.
pub proof fn lemma_condition_tests(r: Reading, t: u64)
    ensures
        condition_parts(Condition::Gt(r, t)) == (r, Comparison::Gt, t),
        condition_parts(Condition::Lt(r, t)) == (r, Comparison::Lt, t),
        condition_parts(Condition::Eq(r, t)) == (r, Comparison::Eq, t),
        condition_parts(Condition::Gte(r, t)) == (r, Comparison::Gte, t),
        condition_parts(Condition::Lte(r, t)) == (r, Comparison::Lte, t),
{
}

} // verus!
