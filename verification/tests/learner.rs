use metasyntraxl::errors::MetaSyntraXLError;
use metasyntraxl::ppo::{PolicyEval, PPO};
use metasyntraxl::ratio::Ratio;

#[test]
fn test_act_zero_weights_fails() {
    let ppo = PPO::new(4, 3);
    let weights: Vec<u64> = vec![0, 0, 0];
    assert!(matches!(ppo.act(&weights), Err(MetaSyntraXLError::PPOError(_))));
    let empty: Vec<u64> = Vec::new();
    assert!(matches!(ppo.act(&empty), Err(MetaSyntraXLError::PPOError(_))));
}

#[test]
fn test_act_samples_positive_weight() {
    let ppo = PPO::new(4, 3);
    // only index 1 carries weight, so it must be drawn
    let weights: Vec<u64> = vec![0, 5, 0];
    assert_eq!(ppo.act(&weights).unwrap(), 1);
    // any draw lands on an index of positive weight
    let mixed: Vec<u64> = vec![2, 0, 3];
    let choice = ppo.act(&mixed).unwrap();
    assert!(choice == 0 || choice == 2);
}

#[test]
fn test_update_exact_loss() {
    // one sample: ratio 1, return 2, value 1, advantage 1.
    // actor term: min(1*1, clip(1)*1) = 1; critic term: (2-1)^2 = 1.
    // loss = -1 + 1/2 = -1/2, exactly.
    let ppo = PPO::new(4, 3);
    let ratios = vec![Ratio::new(1, 1)];
    let rets = vec![Ratio::new(2, 1)];
    let values = vec![Ratio::new(1, 1)];
    let advantages = vec![Ratio::new(1, 1)];
    let loss = ppo.update(&ratios, &rets, &values, &advantages).unwrap();
    assert_eq!(loss.num * 2, -1 * loss.den);
}

#[test]
fn test_update_clips_large_ratio() {
    // one sample: ratio 2 is clipped to 6/5; with advantage 1 the actor
    // term is min(2, 6/5) = 6/5; critic term (0-0)^2 = 0.
    // loss = -6/5, exactly.
    let ppo = PPO::new(4, 3);
    let ratios = vec![Ratio::new(2, 1)];
    let rets = vec![Ratio::new(0, 1)];
    let values = vec![Ratio::new(0, 1)];
    let advantages = vec![Ratio::new(1, 1)];
    let loss = ppo.update(&ratios, &rets, &values, &advantages).unwrap();
    assert_eq!(loss.num * 5, -6 * loss.den);
}

#[test]
fn test_update_rejects_bad_batches() {
    let ppo = PPO::new(4, 3);
    let one = vec![Ratio::new(1, 1)];
    let two = vec![Ratio::new(1, 1), Ratio::new(1, 1)];
    assert!(matches!(
        ppo.update(&one, &two, &one, &one),
        Err(MetaSyntraXLError::PPOError(_))
    ));
    let empty: Vec<Ratio> = Vec::new();
    assert!(matches!(
        ppo.update(&empty, &empty, &empty, &empty),
        Err(MetaSyntraXLError::PPOError(_))
    ));
}

#[test]
fn test_update_reports_overflow() {
    let ppo = PPO::new(4, 3);
    let huge = vec![Ratio::new(i128::MAX, 1)];
    let one = vec![Ratio::new(1, 1)];
    assert!(matches!(
        ppo.update(&huge, &huge, &one, &huge),
        Err(MetaSyntraXLError::PPOError(_))
    ));
}

#[test]
fn test_learn_propagates_missing_evaluation() {
    let ppo = PPO::new(4, 3);
    let one = vec![Ratio::new(1, 1)];
    let outcome = ppo.learn(&None, &one, &one, &one);
    assert!(matches!(outcome, Err(MetaSyntraXLError::EvaluationError)));
}

#[test]
fn test_learn_delegates_to_update() {
    let ppo = PPO::new(4, 3);
    let ratios = vec![Ratio::new(1, 1)];
    let rets = vec![Ratio::new(2, 1)];
    let advantages = vec![Ratio::new(1, 1)];
    let evaluation = Some(PolicyEval {
        action_probs: Vec::new(),
        state_values: vec![Ratio::new(1, 1)],
    });
    let loss = ppo.learn(&evaluation, &ratios, &rets, &advantages).unwrap();
    assert_eq!(loss.num * 2, -1 * loss.den);
}

#[test]
fn test_errors_carry_their_messages() {
    let e = MetaSyntraXLError::PPOError("bad batch".to_string());
    assert_eq!(e.clone(), e);
    assert_ne!(e, MetaSyntraXLError::EvaluationError);
    let t = MetaSyntraXLError::ThoughtChainError("no elites".to_string());
    assert!(matches!(t, MetaSyntraXLError::ThoughtChainError(_)));
}
