use openmind_conductor::baton::LocalBaton;
use openmind_conductor::conductor::{Request, ScoreRun};
use openmind_conductor::ensemble::{comparison_of, Comparison, ConductIntent, Ensemble, Operand, StepDemand, ZERO_BITS};
use openmind_conductor::harmony::{weighted_terms, Harmony, VotingStrategy, UNIT_WEIGHT_BITS};
use openmind_conductor::measure::{fermata_next, Fermata, FermataEvent, FermataStep, POLL_INTERVAL_MS};
use openmind_conductor::memory::MuscleMemory;
use openmind_conductor::names::NameMap;
use openmind_conductor::score::{Condition, Instruction, Reading, Score, Step};
use openmind_conductor::measure::Timing;
use openmind_conductor::trit::Trit;

fn bits(x: f64) -> u64 {
    x.to_bits()
}

fn ballot(v: &[(&str, Trit)]) -> Vec<(String, Trit)> {
    v.iter().map(|(n, t)| (n.to_string(), *t)).collect()
}

#[test]
fn trit_values_and_signs() {
    assert_eq!(Trit::MinusOne.value(), -1);
    assert_eq!(Trit::Zero.value(), 0);
    assert_eq!(Trit::PlusOne.value(), 1);
    assert_eq!(Trit::from_value(-128), Trit::MinusOne);
    assert_eq!(Trit::from_value(-1), Trit::MinusOne);
    assert_eq!(Trit::from_value(0), Trit::Zero);
    assert_eq!(Trit::from_value(1), Trit::PlusOne);
    assert_eq!(Trit::from_value(127), Trit::PlusOne);
    let t: Trit = Trit::from(-7i8);
    assert_eq!(t, Trit::MinusOne);
    let v: i8 = i8::from(Trit::PlusOne);
    assert_eq!(v, 1);
    for t in [Trit::MinusOne, Trit::Zero, Trit::PlusOne] {
        assert_eq!(Trit::from_value(t.value()), t);
    }
}

#[test]
fn name_map_insert_get_and_overwrite() {
    let mut m: NameMap<u32> = NameMap::new();
    assert_eq!(m.len(), 0);
    m.insert("a".to_string(), 1);
    m.insert("b".to_string(), 2);
    m.insert("a".to_string(), 3);
    assert_eq!(m.len(), 2);
    assert_eq!(m.get("a"), Some(&3));
    assert_eq!(m.get("b"), Some(&2));
    assert_eq!(m.get("c"), None);
    assert_eq!(m.position("a"), Some(0));
    assert_eq!(m.name_at(1), "b");
    assert!(m.contains_key("b"));
    *m.get_mut("b").unwrap() = 9;
    assert_eq!(*m.value_at(1), 9);
    assert!(m.get_mut("z").is_none());
}

#[test]
fn memory_read_after_learn() {
    let mut mem = MuscleMemory::new();
    mem.add_pattern("move_forward", "motor.go", vec![Trit::PlusOne, Trit::PlusOne, Trit::Zero], bits(0.95));
    let p = mem.get_pattern("move_forward").unwrap();
    assert_eq!(p.chord, "motor.go");
    assert_eq!(p.trits, vec![Trit::PlusOne, Trit::PlusOne, Trit::Zero]);
    assert_eq!(p.confidence, bits(0.95));
    mem.add_pattern("move_forward", "motor.stop", vec![], bits(0.5));
    assert_eq!(mem.get_pattern("move_forward").unwrap().chord, "motor.stop");
    assert!(mem.get_pattern("other").is_none());
    assert_eq!(MuscleMemory::default().patterns.len(), 0);
}

#[test]
fn majority_tie_and_abstain() {
    let mut h = Harmony::new(VotingStrategy::Majority);
    let r = h.vote(ballot(&[("a", Trit::PlusOne), ("b", Trit::MinusOne)]), Trit::Zero);
    assert_eq!(r.outcome, Trit::Zero);
    assert_eq!(r.dissenters, vec!["a".to_string(), "b".to_string()]);
    let r = h.vote(ballot(&[("a", Trit::PlusOne), ("b", Trit::Zero), ("c", Trit::Zero)]), Trit::Zero);
    assert_eq!(r.outcome, Trit::Zero);
    assert_eq!((r.for_count, r.against_count, r.abstain_count), (1, 0, 2));
    assert_eq!(r.dissenters, vec!["a".to_string()]);
    let r = h.vote(ballot(&[("a", Trit::MinusOne), ("b", Trit::MinusOne), ("c", Trit::PlusOne)]), Trit::PlusOne);
    assert_eq!(r.outcome, Trit::MinusOne);
    assert_eq!(h.dissent_count("a"), 2);
    assert_eq!(h.dissent_count("c"), 1);
    assert_eq!(h.total_dissent(), 4);
}

#[test]
fn consensus_edges() {
    let mut h = Harmony::new(VotingStrategy::Consensus);
    let r = h.vote(Vec::new(), Trit::PlusOne);
    assert_eq!(r.outcome, Trit::MinusOne);
    assert!(r.dissenters.is_empty());
    let r = h.vote(ballot(&[("a", Trit::PlusOne), ("b", Trit::Zero)]), Trit::PlusOne);
    assert_eq!(r.outcome, Trit::Zero);
    assert_eq!(r.dissenters, vec!["a".to_string()]);
}

#[test]
fn weighted_outcome_follows_supplied_sign() {
    let mut weights = NameMap::new();
    weights.insert("a".to_string(), bits(3.0));
    let mut h = Harmony::new(VotingStrategy::Weighted(weights));
    let votes = ballot(&[("a", Trit::MinusOne), ("b", Trit::PlusOne)]);
    if let VotingStrategy::Weighted(w) = &h.strategy {
        let terms = weighted_terms(w, &votes);
        assert_eq!(terms, vec![(-1, bits(3.0)), (1, UNIT_WEIGHT_BITS)]);
        assert_eq!(f64::from_bits(UNIT_WEIGHT_BITS), 1.0);
    }
    let r = h.vote(votes, Trit::MinusOne);
    assert_eq!(r.outcome, Trit::MinusOne);
    assert_eq!(r.dissenters, vec!["b".to_string()]);
}

#[test]
fn dissent_room_and_total() {
    let mut h = Harmony::new(VotingStrategy::Majority);
    h.dissent_log.insert("a".to_string(), u32::MAX);
    assert!(!h.has_room_for(&vec!["a".to_string()]));
    assert!(h.has_room_for(&vec!["b".to_string(), "b".to_string()]));
    assert!(h.total_fits());
    h.dissent_log.insert("b".to_string(), 1);
    assert!(!h.total_fits());
    let r = h.decide(&ballot(&[("a", Trit::PlusOne), ("b", Trit::MinusOne), ("c", Trit::MinusOne)]), Trit::Zero);
    assert_eq!(r.dissenters, vec!["a".to_string()]);
    assert!(!h.has_room_for(&r.dissenters));
}

#[test]
fn ensemble_demands_and_operands() {
    let mut ens = Ensemble::default();
    let mut mem = MuscleMemory::new();
    mem.add_pattern("go", "motor", vec![Trit::PlusOne], bits(0.5));
    ens.add_agent("m", mem);
    assert_eq!(ens.step_demand("ghost", "go"), StepDemand::Ready(ZERO_BITS));
    assert_eq!(ens.step_demand("m", "stop"), StepDemand::Ready(ZERO_BITS));
    assert_eq!(ens.step_demand("m", "go"), StepDemand::Scale { factor: ZERO_BITS, confidence: bits(0.5) });
    let cond = Condition::Lte(Reading::Average("m".into()), bits(2.0));
    assert!(ens.condition_operand(&cond).is_none());
    ens.set_last_value("m", bits(4.0));
    assert_eq!(ens.step_demand("m", "stop"), StepDemand::Ready(bits(4.0)));
    match ens.condition_operand(&cond) {
        Some(Operand::Mean(rs)) => assert_eq!(rs, vec![bits(4.0)]),
        other => panic!("unexpected operand {:?}", other),
    }
    let last = Condition::Gt(Reading::Last("m".into()), bits(1.0));
    assert!(matches!(ens.condition_operand(&last), Some(Operand::Value(v)) if v == bits(4.0)));
    ens.set_last_value("m", bits(6.0));
    assert_eq!(ens.get_agent("m").unwrap().readings, vec![bits(4.0), bits(6.0)]);
    let count = Condition::Gte(Reading::Count("m".into()), bits(2.0));
    assert!(matches!(ens.condition_operand(&count), Some(Operand::Count(2))));
    assert_eq!(comparison_of(&cond), (Comparison::Lte, bits(2.0)));
    assert!(ens.condition_operand(&Condition::Eq(Reading::Count("x".into()), bits(1.0))).is_none());
    ens.set_last_value("ghost", bits(1.0));
    assert!(ens.get_agent("ghost").is_none());
}

#[test]
fn conduct_requests_in_agent_order() {
    let mut ens = Ensemble::new();
    let mut m1 = MuscleMemory::new();
    m1.add_pattern("act", "c", vec![], bits(0.25));
    ens.add_agent("first", m1);
    ens.add_agent("silent", MuscleMemory::new());
    let mut m2 = MuscleMemory::new();
    m2.add_pattern("act", "c", vec![], bits(2.0));
    ens.add_agent("second", m2);
    let intent = ConductIntent::new("act", bits(8.0));
    let reqs = ens.conduct_requests(&intent);
    assert_eq!(reqs, vec![("first".to_string(), bits(0.25)), ("second".to_string(), bits(2.0))]);
    ens.record_values(&vec![("first".to_string(), bits(2.0)), ("second".to_string(), bits(16.0))]);
    assert_eq!(ens.get_agent("first").unwrap().last_value, Some(bits(2.0)));
    assert_eq!(ens.get_agent("second").unwrap().last_value, Some(bits(16.0)));
    assert_eq!(ens.get_agent("silent").unwrap().last_value, None);
}

fn play(ens: &mut Ensemble, score: &Score, answers: &mut Vec<bool>) -> (Vec<(String, String, u64)>, usize) {
    let mut run = ScoreRun::new();
    let mut products = 0;
    loop {
        match run.next(ens, score) {
            Request::Finished => break,
            Request::Continue => {}
            Request::Product { factor, confidence } => {
                products += 1;
                let p = f64::from_bits(factor) * f64::from_bits(confidence);
                run.supply_product(ens, score, p.to_bits());
            }
            Request::Compare { .. } => {
                assert!(run.is_awaiting_comparison());
                run.supply_comparison(score, answers.remove(0));
            }
        }
    }
    assert!(run.is_idle());
    (run.results().clone(), products)
}

#[test]
fn score_run_values_fermata_and_missing_agents() {
    let mut ens = Ensemble::new();
    let mut mem = MuscleMemory::new();
    mem.add_pattern("double", "x", vec![], bits(2.0));
    ens.add_agent("s", mem);
    ens.get_agent_mut("s").unwrap().last_value = Some(bits(3.0));
    let score = Score::builder()
        .step("s", "double", vec![], Timing::Immediate)
        .fermata(Fermata::ForDuration(10))
        .step("s", "unknown", vec![], Timing::Immediate)
        .step("nobody", "double", vec![], Timing::OnBeat(2))
        .branch(
            Condition::Gt(Reading::Last("nobody".into()), bits(0.0)),
            vec![Step::new("s", "double", vec![])],
            vec![],
        )
        .branch(
            Condition::Gt(Reading::Last("s".into()), bits(5.0)),
            vec![Step::new("s", "double", vec![])],
            vec![],
        )
        .build();
    let mut answers = vec![true];
    let (results, products) = play(&mut ens, &score, &mut answers);
    assert_eq!(products, 2);
    assert!(answers.is_empty());
    assert_eq!(
        results,
        vec![
            ("s".to_string(), "double".to_string(), bits(6.0)),
            ("s".to_string(), "unknown".to_string(), bits(6.0)),
            ("nobody".to_string(), "double".to_string(), ZERO_BITS),
            ("s".to_string(), "double".to_string(), bits(12.0)),
        ]
    );
    assert_eq!(ens.get_agent("s").unwrap().last_value, Some(bits(12.0)));
}

#[test]
fn score_run_on_empty_score_finishes_at_once() {
    let mut ens = Ensemble::new();
    let score = Score::builder().build();
    let mut run = ScoreRun::new();
    assert!(matches!(run.next(&mut ens, &score), Request::Finished));
    assert!(run.results().is_empty());
}

#[test]
fn step_and_builder_shapes() {
    let s = Step::new("a", "b", vec!["x", "y"]).with_timing(Timing::After(5));
    assert_eq!(s.agent, "a");
    assert_eq!(s.chord, "b");
    assert_eq!(s.args, vec!["x".to_string(), "y".to_string()]);
    assert!(matches!(s.timing, Timing::After(5)));
    let score = Score::builder()
        .fermata(Fermata::UntilCount { agent: "a".into(), count: 3 })
        .branch(Condition::Lt(Reading::Last("a".into()), bits(1.0)), vec![], vec![s.clone()])
        .build();
    assert_eq!(score.instructions.len(), 2);
    assert!(matches!(score.instructions[0], Instruction::Fermata(Fermata::UntilCount { count: 3, .. })));
    match &score.instructions[1] {
        Instruction::Branch { then_steps, else_steps, .. } => {
            assert!(then_steps.is_empty());
            assert_eq!(else_steps.len(), 1);
        }
        _ => panic!("Expected Branch"),
    }
}

#[test]
fn fermata_rules() {
    let watch = Fermata::UntilValueExceeds { agent: "s".into(), threshold: bits(1.0) };
    assert_eq!(fermata_next(&watch, FermataEvent::Started), FermataStep::Check);
    assert_eq!(
        fermata_next(&watch, FermataEvent::Checked { met: false, past_deadline: false }),
        FermataStep::Sleep(POLL_INTERVAL_MS)
    );
    assert_eq!(fermata_next(&watch, FermataEvent::Slept), FermataStep::Check);
    assert_eq!(
        fermata_next(&watch, FermataEvent::Checked { met: true, past_deadline: true }),
        FermataStep::Finish(true)
    );
    let below = Fermata::UntilValueBelow { agent: "s".into(), threshold: bits(1.0) };
    assert_eq!(
        fermata_next(&below, FermataEvent::Checked { met: false, past_deadline: true }),
        FermataStep::Finish(false)
    );
    let count = Fermata::UntilCount { agent: "s".into(), count: 4 };
    assert_eq!(fermata_next(&count, FermataEvent::Started), FermataStep::Finish(true));
    let pause = Fermata::ForDuration(70);
    assert_eq!(fermata_next(&pause, FermataEvent::Started), FermataStep::Sleep(70));
    assert_eq!(fermata_next(&pause, FermataEvent::Slept), FermataStep::Finish(true));
}

#[test]
fn baton_routes_and_capacities() {
    let mut baton = LocalBaton::new();
    assert_eq!(baton.route("ghost").unwrap_err(), "Agent 'ghost' not registered");
    let _rx = baton.register("a");
    let tx = baton.route("a").unwrap();
    assert_eq!(tx.max_capacity(), 256);
    assert_eq!(baton.response_sender().max_capacity(), 256);
    let _rx2 = baton.register("a");
    assert!(baton.route("a").is_ok());
    assert!(baton.route("b").is_err());
}

#[test]
fn consensus_is_strictest_on_concrete_ballots() {
    let ballots = [
        ballot(&[("a", Trit::PlusOne), ("b", Trit::PlusOne)]),
        ballot(&[("a", Trit::PlusOne), ("b", Trit::Zero), ("c", Trit::PlusOne)]),
        ballot(&[("a", Trit::MinusOne), ("b", Trit::MinusOne), ("c", Trit::PlusOne)]),
        ballot(&[("a", Trit::Zero)]),
    ];
    for votes in ballots.iter() {
        let c = Harmony::new(VotingStrategy::Consensus).decide(votes, Trit::Zero);
        let m = Harmony::new(VotingStrategy::Majority).decide(votes, Trit::Zero);
        if c.outcome == Trit::PlusOne {
            assert_eq!(m.outcome, Trit::PlusOne);
        }
        if m.outcome == Trit::MinusOne {
            assert_eq!(c.outcome, Trit::MinusOne);
        }
        assert_eq!(c.for_count + c.against_count + c.abstain_count, votes.len());
        let agreeing = votes.iter().filter(|(_, t)| *t == m.outcome).count();
        assert_eq!(m.dissenters.len() + agreeing, votes.len());
    }
}

#[test]
fn count_reading_of_a_fresh_agent_is_zero() {
    let mut ens = Ensemble::new();
    ens.add_agent("s", MuscleMemory::new());
    let cond = Condition::Lt(Reading::Count("s".into()), bits(1.0));
    assert!(matches!(ens.condition_operand(&cond), Some(Operand::Count(0))));
    let avg = Condition::Lt(Reading::Average("s".into()), bits(1.0));
    assert!(ens.condition_operand(&avg).is_none());
    let score = Score::builder()
        .branch(cond, vec![Step::new("s", "few", vec![])], vec![Step::new("s", "many", vec![])])
        .build();
    let mut run = ScoreRun::new();
    let mut chosen = None;
    loop {
        match run.next(&ens, &score) {
            Request::Finished => break,
            Request::Continue => {}
            Request::Product { .. } => panic!("no pattern, no product"),
            Request::Compare { operand, test, threshold } => {
                assert!(matches!(operand, Operand::Count(0)));
                assert_eq!(test, Comparison::Lt);
                let met = 0.0 < f64::from_bits(threshold);
                chosen = Some(met);
                run.supply_comparison(&score, met);
            }
        }
    }
    assert_eq!(chosen, Some(true));
    assert_eq!(run.results()[0].1, "few");
}

#[test]
fn majority_is_strict_plurality() {
    let mut h = Harmony::new(VotingStrategy::Majority);
    let r = h.decide(&ballot(&[("a", Trit::MinusOne), ("b", Trit::Zero), ("c", Trit::Zero)]), Trit::PlusOne);
    assert_eq!(r.outcome, Trit::Zero);
    let r = h.decide(&ballot(&[("a", Trit::MinusOne), ("b", Trit::MinusOne), ("c", Trit::Zero), ("d", Trit::Zero), ("e", Trit::PlusOne)]), Trit::PlusOne);
    assert_eq!(r.outcome, Trit::Zero);
    let r = h.decide(&ballot(&[("a", Trit::MinusOne), ("b", Trit::MinusOne), ("c", Trit::Zero)]), Trit::PlusOne);
    assert_eq!(r.outcome, Trit::MinusOne);
    let _ = h.vote(ballot(&[("a", Trit::PlusOne)]), Trit::Zero);
}

#[test]
fn average_and_count_see_a_written_last_value() {
    let mut ens = Ensemble::new();
    ens.add_agent("s", MuscleMemory::new());
    ens.agents.get_mut("s").unwrap().last_value = Some(bits(30.0));
    let avg = Condition::Gt(Reading::Average("s".into()), bits(25.0));
    assert!(matches!(ens.condition_operand(&avg), Some(Operand::Mean(ref rs)) if *rs == vec![bits(30.0)]));
    let count = Condition::Eq(Reading::Count("s".into()), bits(1.0));
    assert!(matches!(ens.condition_operand(&count), Some(Operand::Count(1))));
    assert_eq!(ens.get_agent("s").unwrap().seen_readings(), vec![bits(30.0)]);
    ens.set_last_value("s", bits(10.0));
    ens.set_last_value("s", bits(20.0));
    assert!(matches!(ens.condition_operand(&avg), Some(Operand::Mean(ref rs)) if *rs == vec![bits(10.0), bits(20.0)]));
}

#[test]
fn branch_decision_is_kept_once_made() {
    let mut ens = Ensemble::new();
    ens.add_agent("s", MuscleMemory::new());
    ens.agents.get_mut("s").unwrap().last_value = Some(bits(30.0));
    let score = Score::builder()
        .branch(
            Condition::Gt(Reading::Last("s".into()), bits(25.0)),
            vec![Step::new("s", "a", vec![]), Step::new("s", "b", vec![])],
            vec![Step::new("s", "c", vec![])],
        )
        .build();
    let mut answers = vec![true];
    let (results, _) = play(&mut ens, &score, &mut answers);
    let chords: Vec<&str> = results.iter().map(|r| r.1.as_str()).collect();
    assert_eq!(chords, vec!["a", "b"]);
}
