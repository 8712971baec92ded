use metasyntraxl::cognitive_thought_entity::{CognitiveThoughtEntity, LearnerSignal};
use metasyntraxl::errors::MetaSyntraXLError;
use metasyntraxl::ratio::Ratio;
use metasyntraxl::thought_chain::ThoughtChain;

fn signal(weights: Vec<u64>) -> LearnerSignal {
    LearnerSignal { weights, evaluation: Some(Ratio::new(1, 2)), ratio: Ratio::new(1, 1) }
}

#[test]
fn test_agent_new_is_neutral() {
    let agent = CognitiveThoughtEntity::new(4, 11);
    assert_eq!(agent.state, 0);
    assert_eq!(agent.fitness, 0);
    assert_eq!(agent.genetic_code, vec![0; 10]);
    assert_eq!(agent.ppo.state_dim, 4);
    assert_eq!(agent.ppo.action_dim, 11);
}

#[test]
fn test_agent_clone_copies_verbatim() {
    let mut agent = CognitiveThoughtEntity::new(4, 11);
    agent.fitness = -42;
    agent.state = 7;
    let copy = agent.clone();
    assert_eq!(copy.fitness, -42);
    assert_eq!(copy.state, 7);
    assert_eq!(copy.genetic_code, agent.genetic_code);
}

#[test]
fn test_agent_process_goal_step() {
    // only action 10 carries weight: the step lands on the goal, the
    // episode ends, and the reward is zero
    let mut agent = CognitiveThoughtEntity::new(4, 11);
    let mut weights = vec![0u64; 11];
    weights[10] = 1;
    let out = agent.process(5, &signal(weights));
    assert_eq!(out, 10);
    assert_eq!(agent.fitness, 0);
    assert_eq!(agent.state, 5);
}

#[test]
fn test_agent_process_accumulates_penalty() {
    // only action 0 carries weight: distance 10 from the goal
    let mut agent = CognitiveThoughtEntity::new(4, 11);
    let out = agent.process(3, &signal(vec![1]));
    assert_eq!(out, 0);
    assert_eq!(agent.fitness, -10);
    let out = agent.process(out, &signal(vec![1]));
    assert_eq!(out, 0);
    assert_eq!(agent.fitness, -20);
}

#[test]
fn test_agent_process_fail_soft_sampling() {
    // no weight anywhere: sampling fails and the neutral zero action stands in
    let mut agent = CognitiveThoughtEntity::new(4, 11);
    let out = agent.process(3, &signal(vec![0, 0]));
    assert_eq!(out, 0);
    assert_eq!(agent.fitness, -10);
}

#[test]
fn test_chain_process_threads_sequentially() {
    let mut chain = ThoughtChain::new(2, 4, 11, 1, 2);
    let signals = vec![signal(vec![0, 0, 1]), signal(vec![0, 0, 1])];
    let out = chain.process(7, &signals).unwrap();
    // both agents take action 2; each pays its own distance penalty
    assert_eq!(out, 2);
    assert_eq!(chain.entities[0].state, 7);
    assert_eq!(chain.entities[1].state, 2);
    assert_eq!(chain.entities[0].fitness, -8);
    assert_eq!(chain.entities[1].fitness, -8);
}

#[test]
fn test_evolve_keeps_elites_and_clones_them() {
    // population of 4 with elite_fraction 1/2: the 2 highest-fitness agents
    // stay, and exactly 2 clones of those elites refill the population
    let mut chain = ThoughtChain::new(4, 4, 11, 1, 2);
    chain.entities[0].fitness = 5;
    chain.entities[1].fitness = 1;
    chain.entities[2].fitness = 9;
    chain.entities[3].fitness = 3;
    chain.evolve().unwrap();
    assert_eq!(chain.len(), 4);
    assert_eq!(chain.entities[0].fitness, 9);
    assert_eq!(chain.entities[1].fitness, 5);
    for i in 2..4 {
        let f = chain.entities[i].fitness;
        assert!(f == 9 || f == 5);
    }
}

#[test]
fn test_evolve_population_size_invariant() {
    let mut chain = ThoughtChain::new(5, 4, 11, 2, 3);
    for generation in 0..4 {
        for (i, agent) in chain.entities.iter_mut().enumerate() {
            agent.fitness = (i as i64) * 7 - generation;
        }
        chain.evolve().unwrap();
        assert_eq!(chain.len(), 5);
    }
}

#[test]
fn test_evolve_stable_sort_keeps_tie_order() {
    // two agents of equal fitness keep their pre-sort order
    let mut chain = ThoughtChain::new(3, 4, 11, 1, 1);
    chain.entities[0].fitness = 4;
    chain.entities[0].state = 100;
    chain.entities[1].fitness = 4;
    chain.entities[1].state = 200;
    chain.entities[2].fitness = 9;
    chain.evolve().unwrap();
    assert_eq!(chain.entities[0].fitness, 9);
    assert_eq!(chain.entities[1].state, 100);
    assert_eq!(chain.entities[2].state, 200);
}

#[test]
fn test_evolve_without_elites_fails() {
    let mut chain = ThoughtChain::new(3, 4, 11, 0, 1);
    let outcome = chain.evolve();
    assert!(matches!(outcome, Err(MetaSyntraXLError::ThoughtChainError(_))));
    // the failure leaves the population size intact
    assert_eq!(chain.len(), 3);
}

#[test]
fn test_evolve_empty_population() {
    let mut chain = ThoughtChain::new(0, 4, 11, 1, 2);
    chain.evolve().unwrap();
    assert_eq!(chain.len(), 0);
}

#[test]
fn test_add_entity_len_is_empty() {
    let mut chain = ThoughtChain::new(0, 4, 11, 1, 2);
    assert!(chain.is_empty());
    chain.add_entity(CognitiveThoughtEntity::new(4, 11));
    assert!(!chain.is_empty());
    assert_eq!(chain.len(), 1);
}
