use metasyntraxl::environment::Environment;
use metasyntraxl::gradient_cache::GradientCache;
use metasyntraxl::ratio::Ratio;

#[test]
fn test_cache_scenario_lru_eviction() {
    // capacity-2 cache; insert "a"->1, "b"->2, get "a" promotes it,
    // insert "c"->3 evicts "b"; the cache then holds exactly {"a":1,"c":3}.
    let mut cache = GradientCache::new(2);
    cache.insert("a".to_string(), 1);
    cache.insert("b".to_string(), 2);
    assert_eq!(cache.get("a"), Some(1));
    cache.insert("c".to_string(), 3);
    assert_eq!(cache.get("b"), None);
    assert_eq!(cache.get("a"), Some(1));
    assert_eq!(cache.get("c"), Some(3));
}

#[test]
fn test_cache_capacity_plus_one_evicts_lru() {
    let mut cache = GradientCache::new(3);
    cache.insert("k1".to_string(), 10);
    cache.insert("k2".to_string(), 20);
    cache.insert("k3".to_string(), 30);
    cache.insert("k4".to_string(), 40);
    // "k1" was least recently used and is the only entry gone
    assert_eq!(cache.get("k1"), None);
    assert_eq!(cache.get("k2"), Some(20));
    assert_eq!(cache.get("k3"), Some(30));
    assert_eq!(cache.get("k4"), Some(40));
}

#[test]
fn test_cache_get_idempotent() {
    let mut cache = GradientCache::new(2);
    cache.insert("x".to_string(), 7);
    cache.insert("y".to_string(), 8);
    let first = cache.get("x");
    let second = cache.get("x");
    assert_eq!(first, second);
    assert_eq!(first, Some(7));
}

#[test]
fn test_cache_overwrite_and_values_order() {
    let mut cache = GradientCache::new(2);
    cache.insert("a".to_string(), 1);
    cache.insert("b".to_string(), 2);
    cache.insert("a".to_string(), 5);
    // overwrite promotes "a" to most recently used
    assert_eq!(cache.values(), vec![5, 2]);
}

#[test]
fn test_cache_capacity_zero_holds_nothing() {
    let mut cache = GradientCache::new(0);
    cache.insert("a".to_string(), 1);
    assert_eq!(cache.get("a"), None);
    assert_eq!(cache.values().len(), 0);
}

#[test]
fn test_environment_step_reaches_goal() {
    // goal=10, starting state=0, single action=10: done and reward zero
    let mut env = Environment::new();
    let (state, reward, done) = env.step(10);
    assert_eq!(state, 10);
    assert_eq!(reward, 0);
    assert!(done);
}

#[test]
fn test_environment_step_distance_penalty() {
    let mut env = Environment::new();
    let (state, reward, done) = env.step(3);
    assert_eq!(state, 3);
    assert_eq!(reward, -7);
    assert!(!done);
    let (state, reward, done) = env.step(4);
    assert_eq!(state, 7);
    assert_eq!(reward, -3);
    assert!(!done);
}

#[test]
fn test_environment_reset_clears_history() {
    let mut env = Environment::new();
    env.step(3);
    let s = env.reset();
    assert_eq!(s, 0);
    assert_eq!(env.rewards.len(), 0);
    assert!(!env.done);
}

#[test]
fn test_compute_returns_backward_recurrence() {
    // rewards -7, -4 under gamma = 99/100:
    // G1 = -4 and G0 = -7 + 0.99 * (-4) = -10.96 = -1096/100, exactly
    let mut env = Environment::new();
    env.step(3);
    env.step(3);
    assert_eq!(env.rewards, vec![-7, -4]);
    let returns = env.compute_returns();
    assert_eq!(returns.len(), 2);
    // cross-multiplied equality against the expected exact values
    assert_eq!(returns[1].num * 1, -4 * returns[1].den);
    assert_eq!(returns[0].num * 100, -1096 * returns[0].den);
}

#[test]
fn test_compute_returns_zero_rewards_all_zero() {
    let mut env = Environment::new();
    env.step(10);
    env.step(0);
    assert_eq!(env.rewards, vec![0, 0]);
    let returns = env.compute_returns();
    assert_eq!(returns.len(), 2);
    assert_eq!(returns[0].num, 0);
    assert_eq!(returns[1].num, 0);
}

#[test]
fn test_compute_advantages_elementwise() {
    let env = Environment::new();
    let rets = vec![Ratio::new(3, 1), Ratio::new(1, 2)];
    let values = vec![Ratio::new(1, 1), Ratio::new(1, 2)];
    let advantages = env.compute_advantages(&rets, &values);
    assert_eq!(advantages.len(), 2);
    // 3 - 1 == 2
    assert_eq!(advantages[0].num * 1, 2 * advantages[0].den);
    // 1/2 - 1/2 == 0
    assert_eq!(advantages[1].num, 0);
}

#[test]
fn test_ratio_arithmetic_exact() {
    let a = Ratio::new(1, 2);
    let b = Ratio::new(1, 3);
    let sum = a.add(&b);
    assert_eq!(sum.num, 5);
    assert_eq!(sum.den, 6);
    let diff = a.sub(&b);
    assert_eq!(diff.num, 1);
    assert_eq!(diff.den, 6);
    let prod = a.mul(&b);
    assert_eq!(prod.num, 1);
    assert_eq!(prod.den, 6);
    assert!(b.le(&a));
    assert!(!a.le(&b));
}

#[test]
fn test_ratio_checked_overflow() {
    let big = Ratio::new(i128::MAX, 1);
    let two = Ratio::new(2, 1);
    assert!(big.checked_mul(&two).is_none());
    assert!(big.checked_add(&big).is_none());
    let min = Ratio { num: i128::MIN, den: 1 };
    assert!(min.checked_neg().is_none());
    let small = Ratio::new(-3, 4);
    let neg = small.checked_neg().unwrap();
    assert_eq!(neg.num, 3);
    assert_eq!(neg.den, 4);
}
