//! Single-dimension goal-seeking reward generator.
//!
//! The state is an integer, an action is applied as an additive delta, and
//! each step is rewarded with the negated distance to the goal.  Discounted
//! returns are computed exactly over rationals by backward accumulation.

use crate::ratio::{
    add_fits, lemma_pos_mul_pos, mul_fits, rat_add, rat_eqv, rat_mul, rat_of, rat_sub, rat_wf,
    sub_fits, Rat, Ratio,
};
use vstd::prelude::*;

verus! {

/// Absolute distance between the goal and a state.
pub open spec fn dist(goal: int, state: int) -> int {
    if goal >= state {
        goal - state
    } else {
        state - goal
    }
}

/// The reward history as mathematical integers.
pub open spec fn rewards_int(rs: Seq<i64>) -> Seq<int> {
    rs.map_values(|r: i64| r as int)
}

/// Discounted return at index `i` of a reward sequence:
/// `G_i = r_i + gamma * G_{i+1}`, with `G` zero past the end, so that
/// `G_{len-1}` equals `r_{len-1}` as a value.
pub open spec fn ret_rat(rewards: Seq<int>, gamma: Rat, i: int) -> Rat
    decreases rewards.len() - i,
{
    if i < 0 || i >= rewards.len() {
        rat_of(0)
    } else {
        rat_add(rat_of(rewards[i]), rat_mul(gamma, ret_rat(rewards, gamma, i + 1)))
    }
}

/// Every intermediate of the exact return computation from index `i` on
/// fits in an `i128`.
pub open spec fn rets_fit(rewards: Seq<int>, gamma: Rat, i: int) -> bool
    decreases rewards.len() - i,
{
    if i < 0 || i >= rewards.len() {
        true
    } else {
        &&& rets_fit(rewards, gamma, i + 1)
        &&& mul_fits(gamma, ret_rat(rewards, gamma, i + 1))
        &&& add_fits(rat_of(rewards[i]), rat_mul(gamma, ret_rat(rewards, gamma, i + 1)))
    }
}

/// Returns of a well-formed discount factor are well formed.
pub proof fn lemma_ret_rat_wf(rewards: Seq<int>, gamma: Rat, i: int)
    requires
        rat_wf(gamma),
    ensures
        rat_wf(ret_rat(rewards, gamma, i)),
    decreases rewards.len() - i,
{
    if i < 0 || i >= rewards.len() {
    } else {
        lemma_ret_rat_wf(rewards, gamma, i + 1);
        lemma_pos_mul_pos(gamma.d, ret_rat(rewards, gamma, i + 1).d);
    }
}

/// Fitting from the front implies fitting from any later index.
pub proof fn lemma_rets_fit_from(rewards: Seq<int>, gamma: Rat, i: int)
    requires
        rets_fit(rewards, gamma, 0),
        0 <= i,
    ensures
        rets_fit(rewards, gamma, i),
    decreases i,
{
    if i > 0 {
        lemma_rets_fit_from(rewards, gamma, i - 1);
    }
}

/// Law: the discounted returns satisfy the backward recurrence
/// `G_i = r_i + gamma * G_{i+1}` at every interior index.
pub proof fn lemma_returns_recurrence(rewards: Seq<int>, gamma: Rat, i: int)
    requires
        0 <= i < rewards.len(),
    ensures
        ret_rat(rewards, gamma, i) == rat_add(
            rat_of(rewards[i]),
            rat_mul(gamma, ret_rat(rewards, gamma, i + 1)),
        ),
{
}

/// Law: the final discounted return equals the final reward as a rational
/// value: `G_T = r_T`.
pub proof fn lemma_last_return_is_last_reward(rewards: Seq<int>, gamma: Rat)
    requires
        rat_wf(gamma),
        rewards.len() > 0,
    ensures
        rat_eqv(
            ret_rat(rewards, gamma, rewards.len() - 1),
            rat_of(rewards[rewards.len() - 1]),
        ),
{
    let t = rewards.len() - 1;
    let g = ret_rat(rewards, gamma, t);
    let r = rewards[t];
    assert(ret_rat(rewards, gamma, t + 1) == rat_of(0));
    let m = rat_mul(gamma, rat_of(0));
    assert(m.n == gamma.n * 0 && m.d == gamma.d * 1);
    assert(m.n == 0) by (nonlinear_arith)
        requires
            m.n == gamma.n * 0,
    ;
    assert(g.n == r * m.d + m.n * 1 && g.d == 1 * m.d);
    assert(m.n * 1 == 0) by (nonlinear_arith)
        requires
            m.n == 0,
    ;
    assert(g.n == r * m.d);
    assert(r * g.d == r * m.d) by (nonlinear_arith)
        requires
            g.d == 1 * m.d,
    ;
    assert(g.n * 1 == r * g.d);
}

/// Law: on an all-zero reward sequence every discounted return is the
/// rational zero, whatever the discount factor.
pub proof fn lemma_zero_rewards_zero_returns(rewards: Seq<int>, gamma: Rat, i: int)
    requires
        forall|j: int| 0 <= j < rewards.len() ==> rewards[j] == 0,
    ensures
        ret_rat(rewards, gamma, i).n == 0,
    decreases rewards.len() - i,
{
    if i < 0 || i >= rewards.len() {
    } else {
        lemma_zero_rewards_zero_returns(rewards, gamma, i + 1);
        let g = ret_rat(rewards, gamma, i + 1);
        assert(gamma.n * g.n == 0) by (nonlinear_arith)
            requires
                g.n == 0,
        ;
    }
}

/// Reward-generating state machine: integer state, additive integer actions,
/// reward `-(distance to goal)`, done exactly at the goal.
pub struct Environment {
    pub state: i64,
    pub done: bool,
    pub goal_state: i64,
    pub rewards: Vec<i64>,
    pub gamma: Ratio,
}

impl Environment {
    /// The discount factor is a well-formed rational in `[0, 1)`.
    pub open spec fn wf(self) -> bool {
        &&& self.gamma.wf()
        &&& 0 <= self.gamma.num < self.gamma.den
    }

    /// A fresh environment: zero state, goal `GOAL_STATE`, discount `99/100`,
    /// empty reward history.
    pub fn new() -> (env: Environment)
        ensures
            env.state == 0,
            !env.done,
            env.goal_state == crate::GOAL_STATE,
            env.rewards@ =~= Seq::<i64>::empty(),
            env.gamma == (Ratio { num: 99, den: 100 }),
            env.wf(),
    {
        Environment {
            state: 0,
            done: false,
            goal_state: crate::GOAL_STATE,
            rewards: Vec::new(),
            gamma: Ratio::new(99, 100),
        }
    }

    /// Zeroes the state, clears the terminal flag and the reward history, and
    /// returns the zero state.
    pub fn reset(&mut self) -> (s: i64)
        ensures
            s == 0,
            final(self).state == 0,
            !final(self).done,
            final(self).rewards@ =~= Seq::<i64>::empty(),
            final(self).goal_state == old(self).goal_state,
            final(self).gamma == old(self).gamma,
    {
        self.state = 0;
        self.done = false;
        self.rewards = Vec::new();
        0
    }

    /// Applies `action` as an additive delta, rewards the negated distance to
    /// the goal, appends the reward to the history, and reports the episode
    /// done once the distance reaches zero.
    pub fn step(&mut self, action: i64) -> (r: (i64, i64, bool))
        requires
            i64::MIN <= old(self).state + action <= i64::MAX,
            old(self).goal_state - (old(self).state + action) <= i64::MAX,
            (old(self).state + action) - old(self).goal_state <= i64::MAX,
        ensures
            final(self).state == old(self).state + action,
            final(self).goal_state == old(self).goal_state,
            final(self).gamma == old(self).gamma,
            final(self).done == (old(self).done || dist(
                old(self).goal_state as int,
                final(self).state as int,
            ) == 0),
            r.0 == final(self).state,
            r.1 == -dist(old(self).goal_state as int, final(self).state as int),
            r.2 == final(self).done,
            final(self).rewards@ =~= old(self).rewards@.push(r.1),
    {
        self.state = self.state + action;
        let distance: i64 = if self.goal_state >= self.state {
            self.goal_state - self.state
        } else {
            self.state - self.goal_state
        };
        let reward: i64 = -distance;
        self.rewards.push(reward);
        if distance == 0 {
            self.done = true;
        }
        (self.state, reward, self.done)
    }

    /// Discounted returns of the reward history, exactly, in forward
    /// chronological order: `G_t = r_t + gamma * G_{t+1}`, `G_T = r_T`.
    pub fn compute_returns(&self) -> (res: Vec<Ratio>)
        requires
            self.wf(),
            rets_fit(rewards_int(self.rewards@), self.gamma@, 0),
        ensures
            res@.len() == self.rewards@.len(),
            forall|i: int|
                0 <= i < res@.len() ==> (#[trigger] res@[i])@ == ret_rat(
                    rewards_int(self.rewards@),
                    self.gamma@,
                    i,
                ) && res@[i].wf(),
    {
        let ghost rs = rewards_int(self.rewards@);
        let len: usize = self.rewards.len();
        let mut backward: Vec<Ratio> = Vec::new();
        let mut g = Ratio::zero();
        let mut i: usize = len;
        while i > 0
            invariant
                self.wf(),
                rets_fit(rs, self.gamma@, 0),
                rs == rewards_int(self.rewards@),
                len == self.rewards@.len(),
                i <= len,
                g.wf(),
                g@ == ret_rat(rs, self.gamma@, i as int),
                backward@.len() == len - i,
                forall|k: int|
                    0 <= k < backward@.len() ==> (#[trigger] backward@[k])@ == ret_rat(
                        rs,
                        self.gamma@,
                        len - 1 - k,
                    ) && backward@[k].wf(),
            decreases i,
        {
            i = i - 1;
            proof {
                lemma_rets_fit_from(rs, self.gamma@, i as int);
                lemma_ret_rat_wf(rs, self.gamma@, i as int + 1);
            }
            let scaled = self.gamma.mul(&g);
            g = Ratio::from_int(self.rewards[i]).add(&scaled);
            backward.push(g);
        }
        let mut res: Vec<Ratio> = Vec::new();
        let mut j: usize = 0;
        while j < len
            invariant
                len == backward@.len(),
                j <= len,
                forall|k: int|
                    0 <= k < backward@.len() ==> (#[trigger] backward@[k])@ == ret_rat(
                        rs,
                        self.gamma@,
                        len - 1 - k,
                    ) && backward@[k].wf(),
                res@.len() == j,
                forall|k: int|
                    0 <= k < j ==> (#[trigger] res@[k])@ == ret_rat(rs, self.gamma@, k)
                        && res@[k].wf(),
            decreases len - j,
        {
            res.push(backward[len - 1 - j]);
            j = j + 1;
        }
        res
    }

    /// Elementwise `returns - values`, exactly; no normalization.
    pub fn compute_advantages(&self, rets: &Vec<Ratio>, values: &Vec<Ratio>) -> (res: Vec<
        Ratio,
    >)
        requires
            rets@.len() == values@.len(),
            forall|i: int|
                0 <= i < rets@.len() ==> (#[trigger] rets@[i]).wf() && values@[i].wf()
                    && sub_fits(rets@[i]@, values@[i]@),
        ensures
            res@.len() == rets@.len(),
            forall|i: int|
                0 <= i < res@.len() ==> (#[trigger] res@[i])@ == rat_sub(
                    rets@[i]@,
                    values@[i]@,
                ) && res@[i].wf(),
    {
        let mut res: Vec<Ratio> = Vec::new();
        let mut i: usize = 0;
        while i < rets.len()
            invariant
                rets@.len() == values@.len(),
                forall|k: int|
                    0 <= k < rets@.len() ==> (#[trigger] rets@[k]).wf() && values@[k].wf()
                        && sub_fits(rets@[k]@, values@[k]@),
                i <= rets@.len(),
                res@.len() == i,
                forall|k: int|
                    0 <= k < i ==> (#[trigger] res@[k])@ == rat_sub(rets@[k]@, values@[k]@)
                        && res@[k].wf(),
            decreases rets@.len() - i,
        {
            res.push(rets[i].sub(&values[i]));
            i = i + 1;
        }
        res
    }
}

} // verus!
