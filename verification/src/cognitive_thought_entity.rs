//! An agent: one learner, one fitness score, one genetic code.
//!
//! The agent adapts the learner's step-wise interface into an episode-driven
//! fitness accumulator.  Each processing step drives one step of a fresh
//! environment.  What the external model computed for the step — the
//! policy's sampling weights, the value estimate of the current state, and
//! the probability ratio of the taken action — comes in as a
//! [`LearnerSignal`]; the outer loop obtains it from the model capability
//! and hands it in as plain values.

use crate::environment::{dist, rewards_int, ret_rat, rets_fit, Environment};
use crate::ppo::{weight_sum, PolicyEval, PPO};
use crate::ratio::{
    add_fits, lemma_mul_bound, mul_fits, rat_add, rat_mul, rat_of, sub_fits, Rat, Ratio,
};
use vstd::prelude::*;

verus! {

/// What the external model computed for one processing step.
pub struct LearnerSignal {
    /// The policy's output distribution over the action space, as sampling
    /// weights.
    pub weights: Vec<u64>,
    /// The value network's estimate of the current state, or nothing when
    /// the evaluation failed.
    pub evaluation: Option<Ratio>,
    /// The probability ratio of the taken action under the current policy,
    /// `exp(new_log_prob - old_log_prob)`.
    pub ratio: Ratio,
}

/// Bounds under which one processing step stays within the machine
/// integers: an action space of at most `2^32` actions and a value estimate
/// within `2^60` in numerator and denominator.
pub open spec fn signal_ok(s: LearnerSignal) -> bool {
    &&& s.weights@.len() <= 0x1_0000_0000
    &&& s.ratio.wf()
    &&& (s.evaluation matches Some(v) ==> v.wf() && -0x1000_0000_0000_0000 <= v.num
        <= 0x1000_0000_0000_0000 && v.den <= 0x1000_0000_0000_0000)
}

/// What one processing step guarantees of the value it hands on: the
/// action stays within the bound of the action space, is an index of
/// positive sampling weight whenever one exists, and is the neutral zero
/// when every weight is zero.
pub open spec fn step_output_ok(out: int, s: LearnerSignal) -> bool {
    &&& 0 <= out <= 0x1_0000_0000
    &&& weight_sum(s.weights@, s.weights@.len() as int) > 0 ==> out < s.weights@.len()
        && s.weights@[out] > 0
    &&& weight_sum(s.weights@, s.weights@.len() as int) == 0 ==> out == 0
}

/// An agent of the population: learner, fitness, genetic code.
pub struct CognitiveThoughtEntity {
    /// The agent's current observation.
    pub state: i64,
    /// The agent's own policy-gradient learner.
    pub ppo: PPO,
    /// Heritable parameters, copied verbatim on reproduction and never
    /// mutated by the learner.
    pub genetic_code: Vec<i64>,
    /// Sum of all step rewards since the agent was created.
    pub fitness: i64,
}

/// `b` carries exactly the same agent as `a`: reproduction copies the
/// learner configuration, the genetic code and the fitness verbatim.
pub open spec fn same_agent(a: CognitiveThoughtEntity, b: CognitiveThoughtEntity) -> bool {
    &&& a.state == b.state
    &&& a.ppo == b.ppo
    &&& a.genetic_code@ == b.genetic_code@
    &&& a.fitness == b.fitness
}

impl CognitiveThoughtEntity {
    /// The learner carries the fixed update bounds and the genetic code its
    /// conventional length of ten.
    pub open spec fn wf(self) -> bool {
        &&& self.ppo.wf()
        &&& self.genetic_code@.len() == 10
    }

    /// A fresh agent: zero state, zero fitness, an all-zero genetic code of
    /// length ten, and a learner over the given dimensions.
    pub fn new(state_size: i64, action_size: i64) -> (e: CognitiveThoughtEntity)
        ensures
            e.state == 0,
            e.fitness == 0,
            e.genetic_code@.len() == 10,
            forall|i: int| 0 <= i < 10 ==> e.genetic_code@[i] == 0,
            e.ppo.state_dim == state_size,
            e.ppo.action_dim == action_size,
            e.wf(),
    {
        let mut genetic_code: Vec<i64> = Vec::new();
        let mut i: usize = 0;
        while i < 10
            invariant
                i <= 10,
                genetic_code@.len() == i,
                forall|k: int| 0 <= k < i ==> genetic_code@[k] == 0,
            decreases 10 - i,
        {
            genetic_code.push(0);
            i = i + 1;
        }
        CognitiveThoughtEntity {
            state: 0,
            ppo: PPO::new(state_size, action_size),
            genetic_code,
            fitness: 0,
        }
    }

    /// One pipeline step.  Copies the input as the current state, samples an
    /// action from the signal's weights — on a sampling failure the neutral
    /// zero action stands in — and takes one step of a fresh environment,
    /// adding the step's reward to the fitness.  When that step ends the
    /// episode, the returns and advantages are computed exactly and the
    /// learner is invoked; a learner failure there is absorbed, so the
    /// pipeline never stalls on one bad step.  Returns the environment's
    /// next state.
    pub fn process(&mut self, input: i64, signal: &LearnerSignal) -> (out: i64)
        requires
            old(self).wf(),
            signal_ok(*signal),
            old(self).fitness >= i64::MIN + 0x2_0000_0000,
        ensures
            final(self).wf(),
            final(self).state == input,
            final(self).ppo == old(self).ppo,
            final(self).genetic_code@ == old(self).genetic_code@,
            step_output_ok(out as int, *signal),
            final(self).fitness == old(self).fitness - dist(crate::GOAL_STATE as int, out as int),
    {
        self.state = input;
        let action: i64 = match self.ppo.act(&signal.weights) {
            Ok(idx) => idx as i64,
            Err(_) => 0,
        };
        let mut env = Environment::new();
        let (next_state, reward, done) = env.step(action);
        self.fitness = self.fitness + reward;
        if done {
            proof {
                lemma_one_step_returns_fit(env.rewards@, env.gamma@);
            }
            let rets = env.compute_returns();
            let state_value: Ratio = match &signal.evaluation {
                Some(v) => *v,
                None => Ratio::zero(),
            };
            let mut values: Vec<Ratio> = Vec::new();
            values.push(state_value);
            proof {
                assert(rets@[0]@ == ret_rat(rewards_int(env.rewards@), env.gamma@, 0));
                lemma_one_step_advantage_fits(env.rewards@, env.gamma@, state_value@);
            }
            let advantages = env.compute_advantages(&rets, &values);
            let mut ratios: Vec<Ratio> = Vec::new();
            ratios.push(signal.ratio);
            let evaluation: Option<PolicyEval> = match &signal.evaluation {
                Some(_) => {
                    let mut state_values: Vec<Ratio> = Vec::new();
                    state_values.push(state_value);
                    Some(PolicyEval { action_probs: Vec::new(), state_values })
                },
                None => None,
            };
            let outcome = self.ppo.learn(&evaluation, &ratios, &rets, &advantages);
            match outcome {
                _ => {},
            }
        }
        next_state
    }
}

impl Clone for CognitiveThoughtEntity {
    /// Reproduction's verbatim copy: the same learner configuration, genetic
    /// code and fitness.  A deliberate deep copy — a clone aliases no state
    /// of the original.
    fn clone(&self) -> (r: Self)
        ensures
            same_agent(*self, r),
    {
        let mut genetic_code: Vec<i64> = Vec::new();
        let mut i: usize = 0;
        while i < self.genetic_code.len()
            invariant
                i <= self.genetic_code@.len(),
                genetic_code@.len() == i,
                forall|k: int| 0 <= k < i ==> genetic_code@[k] == self.genetic_code@[k],
            decreases self.genetic_code@.len() - i,
        {
            genetic_code.push(self.genetic_code[i]);
            i = i + 1;
        }
        proof {
            assert(genetic_code@ =~= self.genetic_code@);
        }
        CognitiveThoughtEntity {
            state: self.state,
            ppo: self.ppo,
            genetic_code,
            fitness: self.fitness,
        }
    }
}

/// A one-step reward history, with any reward of at most `2^49` in size and
/// the fixed `99/100` discount, fits the exact return computation.
proof fn lemma_one_step_returns_fit(rewards: Seq<i64>, gamma: Rat)
    requires
        rewards.len() == 1,
        -0x2_0000_0000_0000 <= rewards[0] <= 0x2_0000_0000_0000,
        gamma == (Rat { n: 99, d: 100 }),
    ensures
        rets_fit(rewards_int(rewards), gamma, 0),
{
    let rs = rewards_int(rewards);
    let x = rs[0];
    assert(rs.len() == 1);
    assert(x == rewards[0]);
    assert(rets_fit(rs, gamma, 1));
    let g1 = ret_rat(rs, gamma, 1);
    assert(g1 == rat_of(0));
    assert(gamma.n * g1.n == 0) by (nonlinear_arith)
        requires
            g1.n == 0,
    ;
    assert(gamma.d * g1.d == 100) by (nonlinear_arith)
        requires
            gamma.d == 100,
            g1.d == 1,
    ;
    assert(mul_fits(gamma, g1));
    let m = rat_mul(gamma, g1);
    assert(m.n == 0 && m.d == 100);
    let a = rat_of(x);
    assert(a.n == x && a.d == 1);
    assert(-0x100_0000_0000_0000 <= a.n * m.d <= 0x100_0000_0000_0000) by (nonlinear_arith)
        requires
            a.n == x,
            m.d == 100,
            -0x2_0000_0000_0000 <= x <= 0x2_0000_0000_0000,
    ;
    assert(m.n * a.d == 0) by (nonlinear_arith)
        requires
            m.n == 0,
    ;
    assert(a.d * m.d == 100) by (nonlinear_arith)
        requires
            a.d == 1,
            m.d == 100,
    ;
    assert(add_fits(a, m));
    assert(rets_fit(rs, gamma, 0));
}

/// The advantage of a one-step episode — its exact return against a value
/// estimate within `2^60` — fits the machine integers.
proof fn lemma_one_step_advantage_fits(rewards: Seq<i64>, gamma: Rat, value: Rat)
    requires
        rewards.len() == 1,
        -0x2_0000_0000_0000 <= rewards[0] <= 0x2_0000_0000_0000,
        gamma == (Rat { n: 99, d: 100 }),
        value.d > 0,
        -0x1000_0000_0000_0000 <= value.n <= 0x1000_0000_0000_0000,
        value.d <= 0x1000_0000_0000_0000,
    ensures
        sub_fits(ret_rat(rewards_int(rewards), gamma, 0), value),
{
    let rs = rewards_int(rewards);
    let x = rs[0];
    assert(x == rewards[0]);
    let g1 = ret_rat(rs, gamma, 1);
    assert(g1 == rat_of(0));
    let m = rat_mul(gamma, g1);
    assert(m.n == gamma.n * g1.n && m.d == gamma.d * g1.d);
    assert(m.n == 0) by (nonlinear_arith)
        requires
            m.n == gamma.n * g1.n,
            g1.n == 0,
    ;
    assert(m.d == 100) by (nonlinear_arith)
        requires
            m.d == gamma.d * g1.d,
            gamma.d == 100,
            g1.d == 1,
    ;
    let a = rat_of(x);
    let g = ret_rat(rs, gamma, 0);
    assert(g == rat_add(a, m));
    assert(g.n == a.n * m.d + m.n * a.d && g.d == a.d * m.d);
    assert(-0x100_0000_0000_0000 <= g.n <= 0x100_0000_0000_0000) by (nonlinear_arith)
        requires
            g.n == a.n * m.d + m.n * a.d,
            a.n == x,
            a.d == 1,
            m.n == 0,
            m.d == 100,
            -0x2_0000_0000_0000 <= x <= 0x2_0000_0000_0000,
    ;
    assert(g.d == 100) by (nonlinear_arith)
        requires
            g.d == a.d * m.d,
            a.d == 1,
            m.d == 100,
    ;
    lemma_mul_bound(g.n, value.d, 0x100_0000_0000_0000, 0x1000_0000_0000_0000);
    lemma_mul_bound(value.n, g.d, 0x1000_0000_0000_0000, 100);
    lemma_mul_bound(g.d, value.d, 100, 0x1000_0000_0000_0000);
    assert(sub_fits(g, value));
}

} // verus!
