use openmind_conductor::baton::{FlexRequest, FlexResponse, LocalBaton};
use openmind_conductor::conductor::{Request, ScoreRun};
use openmind_conductor::ensemble::{Comparison, ConductIntent, Ensemble, Operand};
use openmind_conductor::harmony::{weighted_terms, Harmony, VotingStrategy};
use openmind_conductor::measure::{fermata_next, Fermata, FermataEvent, FermataStep, Timing};
use openmind_conductor::memory::MuscleMemory;
use openmind_conductor::names::NameMap;
use openmind_conductor::score::{Condition, Instruction, Reading, Score, Step};
use openmind_conductor::trit::Trit;

fn bits(x: f64) -> u64 {
    x.to_bits()
}

fn as_f64(b: u64) -> f64 {
    f64::from_bits(b)
}

/// Conducts an intent: the library picks the agents, the products are taken here.
fn conduct(ens: &mut Ensemble, intent: &ConductIntent) -> Vec<(String, f64)> {
    let requests = ens.conduct_requests(intent);
    let values: Vec<(String, u64)> = requests
        .iter()
        .map(|(id, c)| (id.clone(), bits(as_f64(intent.target) * as_f64(*c))))
        .collect();
    ens.record_values(&values);
    values.into_iter().map(|(id, v)| (id, as_f64(v))).collect()
}

fn compare(operand: &Operand, test: Comparison, threshold: u64) -> bool {
    let v = match operand {
        Operand::Value(v) => as_f64(*v),
        Operand::Mean(rs) => rs.iter().map(|r| as_f64(*r)).sum::<f64>() / rs.len() as f64,
        Operand::Count(n) => *n as f64,
    };
    let t = as_f64(threshold);
    match test {
        Comparison::Gt => v > t,
        Comparison::Lt => v < t,
        Comparison::Eq => (v - t).abs() < 0.001,
        Comparison::Gte => v >= t,
        Comparison::Lte => v <= t,
    }
}

/// Plays a score to its end; the products and comparisons are taken here.
fn execute_score_direct(ens: &mut Ensemble, score: &Score) -> Vec<(String, String, f64)> {
    let mut run = ScoreRun::new();
    loop {
        match run.next(ens, score) {
            Request::Finished => break,
            Request::Continue => {}
            Request::Product { factor, confidence } => {
                run.supply_product(ens, score, bits(as_f64(factor) * as_f64(confidence)));
            }
            Request::Compare { operand, test, threshold } => {
                run.supply_comparison(score, compare(&operand, test, threshold));
            }
        }
    }
    run.results().iter().map(|(a, c, v)| (a.clone(), c.clone(), as_f64(*v))).collect()
}

fn weighted_sign(weights: &NameMap<u64>, votes: &Vec<(String, Trit)>) -> Trit {
    let mut score = 0.0_f64;
    for (v, w) in weighted_terms(weights, votes) {
        score += v as f64 * as_f64(w);
    }
    if score > 0.0 {
        Trit::PlusOne
    } else if score < 0.0 {
        Trit::MinusOne
    } else {
        Trit::Zero
    }
}

fn vote(h: &mut Harmony, votes: Vec<(String, Trit)>) -> openmind_conductor::harmony::VoteResult {
    let sign = match &h.strategy {
        VotingStrategy::Weighted(w) => weighted_sign(w, &votes),
        _ => Trit::Zero,
    };
    h.vote(votes, sign)
}

fn ballot(v: &[(&str, Trit)]) -> Vec<(String, Trit)> {
    v.iter().map(|(n, t)| (n.to_string(), *t)).collect()
}

// ensemble

#[test]
fn test_add_agents() {
    let mut ens = Ensemble::new();
    ens.add_agent("sensor", MuscleMemory::new());
    ens.add_agent("motor", MuscleMemory::new());
    assert!(ens.get_agent("sensor").is_some());
    assert!(ens.get_agent("motor").is_some());
    assert!(ens.get_agent("light").is_none());
}

#[test]
fn test_conduct_simple_task() {
    let mut ens = Ensemble::new();
    let mut mem = MuscleMemory::new();
    mem.add_pattern("read_temperature", "temp_sensor", vec![Trit::PlusOne], bits(0.9));
    ens.add_agent("sensor", mem);

    let results = conduct(&mut ens, &ConductIntent::new("read_temperature", bits(22.0)));
    assert_eq!(results.len(), 1);
    assert_eq!(results[0].0, "sensor");
    assert!((results[0].1 - 22.0 * 0.9).abs() < 0.01);
}

#[test]
fn test_conduct_no_matching_pattern() {
    let mut ens = Ensemble::new();
    ens.add_agent("sensor", MuscleMemory::new());
    let results = conduct(&mut ens, &ConductIntent::new("nonexistent", bits(10.0)));
    assert!(results.is_empty());
}

#[test]
fn test_conduct_parallel_task() {
    let mut ens = Ensemble::new();
    let mut mem1 = MuscleMemory::new();
    mem1.add_pattern("act", "chord", vec![Trit::PlusOne], bits(1.0));
    let mut mem2 = MuscleMemory::new();
    mem2.add_pattern("act", "chord", vec![Trit::Zero], bits(0.8));

    ens.add_agent("a", mem1);
    ens.add_agent("b", mem2);

    let score = Score::builder()
        .parallel(vec![Step::new("a", "act", vec![]), Step::new("b", "act", vec![])])
        .build();

    let results = execute_score_direct(&mut ens, &score);
    assert_eq!(results.len(), 2);
    assert!(results.iter().any(|(id, _, _)| id == "a"));
    assert!(results.iter().any(|(id, _, _)| id == "b"));
}

// score

#[test]
fn test_build_score() {
    let score = Score::builder()
        .step("sensor", "read", vec![], Timing::Immediate)
        .step("motor", "move", vec!["fast"], Timing::After(100))
        .build();

    assert_eq!(score.instructions.len(), 2);
}

#[test]
fn test_branching_true_path() {
    let mut ens = Ensemble::new();
    let mut mem = MuscleMemory::new();
    mem.add_pattern("read_temp", "temp", vec![Trit::PlusOne], bits(1.0));
    ens.add_agent("sensor", mem);
    ens.agents.get_mut("sensor").unwrap().last_value = Some(bits(30.0));

    let score = Score::builder()
        .branch(
            Condition::Gt(Reading::Last("sensor".into()), bits(25.0)),
            vec![Step::new("sensor", "hot", vec![])],
            vec![Step::new("sensor", "cold", vec![])],
        )
        .build();

    let results = execute_score_direct(&mut ens, &score);
    assert_eq!(results.len(), 1);
    assert_eq!(results[0].1, "hot");
}

#[test]
fn test_branching_false_path() {
    let mut ens = Ensemble::new();
    let mem = MuscleMemory::new();
    ens.add_agent("sensor", mem);
    ens.agents.get_mut("sensor").unwrap().last_value = Some(bits(20.0));

    let score = Score::builder()
        .branch(
            Condition::Gt(Reading::Last("sensor".into()), bits(25.0)),
            vec![Step::new("sensor", "hot", vec![])],
            vec![Step::new("sensor", "cold", vec![])],
        )
        .build();

    let results = execute_score_direct(&mut ens, &score);
    assert_eq!(results.len(), 1);
    assert_eq!(results[0].1, "cold");
}

#[test]
fn test_parallel_steps_in_score() {
    let score = Score::builder()
        .parallel(vec![
            Step::new("a", "x", vec![]),
            Step::new("b", "y", vec![]),
            Step::new("c", "z", vec![]),
        ])
        .build();

    match &score.instructions[0] {
        Instruction::Parallel(steps) => assert_eq!(steps.len(), 3),
        _ => panic!("Expected Parallel"),
    }
}

// baton

#[test]
fn test_local_send_receive() {
    let rt = tokio::runtime::Builder::new_current_thread().enable_all().build().unwrap();
    rt.block_on(async {
        let mut baton = LocalBaton::new();
        let mut rx = baton.register("test_agent");
        let resp_tx = baton.response_sender();

        let handle = tokio::spawn(async move {
            if let Some(_req) = rx.recv().await {
                resp_tx
                    .send(FlexResponse { agent_id: "test_agent".into(), value: bits(42.0), success: true })
                    .await
                    .unwrap();
            }
        });

        baton
            .route("test_agent")
            .unwrap()
            .send(FlexRequest { chord: "test".into(), args: vec![] })
            .await
            .unwrap();

        let resp = baton.receiver().recv().await.unwrap();
        assert_eq!(as_f64(resp.value), 42.0);
        assert!(resp.success);

        handle.await.unwrap();
    });
}

// measure

#[test]
fn test_fermata_duration() {
    let fermata = Fermata::ForDuration(50);
    let rt = tokio::runtime::Builder::new_current_thread().enable_all().build().unwrap();
    let mut step = fermata_next(&fermata, FermataEvent::Started);
    let result = loop {
        match step {
            FermataStep::Sleep(ms) => {
                rt.block_on(async move { tokio::time::sleep(std::time::Duration::from_millis(ms)).await });
                step = fermata_next(&fermata, FermataEvent::Slept);
            }
            FermataStep::Check => {
                step = fermata_next(&fermata, FermataEvent::Checked { met: false, past_deadline: true });
            }
            FermataStep::Finish(b) => break b,
        }
    };
    assert!(result);
}

// harmony

#[test]
fn test_majority_vote() {
    let mut harmony = Harmony::new(VotingStrategy::Majority);
    let votes = ballot(&[("a", Trit::PlusOne), ("b", Trit::PlusOne), ("c", Trit::MinusOne)]);

    let result = vote(&mut harmony, votes);
    assert_eq!(result.outcome, Trit::PlusOne);
    assert_eq!(result.for_count, 2);
    assert_eq!(result.against_count, 1);
}

#[test]
fn test_consensus_blocked() {
    let mut harmony = Harmony::new(VotingStrategy::Consensus);
    let votes = ballot(&[("a", Trit::PlusOne), ("b", Trit::MinusOne)]);

    let result = vote(&mut harmony, votes);
    assert_eq!(result.outcome, Trit::MinusOne);
}

#[test]
fn test_consensus_unanimous() {
    let mut harmony = Harmony::new(VotingStrategy::Consensus);
    let votes = ballot(&[("a", Trit::PlusOne), ("b", Trit::PlusOne)]);

    let result = vote(&mut harmony, votes);
    assert_eq!(result.outcome, Trit::PlusOne);
}

#[test]
fn test_weighted_vote() {
    let mut weights = NameMap::new();
    weights.insert("a".into(), bits(3.0));
    weights.insert("b".into(), bits(1.0));

    let mut harmony = Harmony::new(VotingStrategy::Weighted(weights));
    let votes = ballot(&[("a", Trit::MinusOne), ("b", Trit::PlusOne)]);

    let result = vote(&mut harmony, votes);
    // a=-1*3=-3, b=+1*1=1 => total=-2 => MinusOne
    assert_eq!(result.outcome, Trit::MinusOne);
}

#[test]
fn test_dissent_tracking() {
    let mut harmony = Harmony::new(VotingStrategy::Majority);

    let votes1 = ballot(&[("a", Trit::MinusOne), ("b", Trit::PlusOne), ("c", Trit::PlusOne)]);
    vote(&mut harmony, votes1);
    assert_eq!(harmony.dissent_count("a"), 1);

    let votes2 = ballot(&[("a", Trit::MinusOne), ("b", Trit::PlusOne), ("c", Trit::PlusOne)]);
    vote(&mut harmony, votes2);
    assert_eq!(harmony.dissent_count("a"), 2);
    assert_eq!(harmony.total_dissent(), 2);
}

// conductor

#[test]
fn test_full_orchestration() {
    let mut ens = Ensemble::new();

    let mut sensor_mem = MuscleMemory::new();
    sensor_mem.add_pattern("read_temperature", "temp", vec![Trit::PlusOne], bits(1.0));
    ens.add_agent("sensor", sensor_mem);
    ens.agents.get_mut("sensor").unwrap().last_value = Some(bits(30.0));

    let mut motor_mem = MuscleMemory::new();
    motor_mem.add_pattern("fan_on", "motor", vec![Trit::PlusOne], bits(1.0));
    motor_mem.add_pattern("fan_off", "motor", vec![Trit::Zero], bits(1.0));
    ens.add_agent("motor", motor_mem);

    let mut light_mem = MuscleMemory::new();
    light_mem.add_pattern("set_color", "led", vec![Trit::PlusOne], bits(0.9));
    ens.add_agent("light", light_mem);

    let score = Score::builder()
        .step("sensor", "read_temperature", vec![], Timing::Immediate)
        .branch(
            Condition::Gt(Reading::Last("sensor".into()), bits(25.0)),
            vec![Step::new("motor", "fan_on", vec![])],
            vec![Step::new("motor", "fan_off", vec![])],
        )
        .step("light", "set_color", vec![], Timing::After(100))
        .build();

    let results = execute_score_direct(&mut ens, &score);
    assert_eq!(results.len(), 3);
    assert_eq!(results[0].0, "sensor");
    assert_eq!(results[1].0, "motor");
    assert_eq!(results[1].1, "fan_on");
    assert_eq!(results[2].0, "light");
}
