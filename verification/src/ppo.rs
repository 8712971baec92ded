//! Clipped-surrogate policy-gradient learner.
//!
//! The policy and value networks themselves are an external differentiable
//! capability: their forward passes, the exponentiation that turns
//! log-probability differences into probability ratios, and the optimizer
//! step all happen outside.  What is verified here is the learner's own
//! decision logic: multinomial action sampling from the policy's output
//! weights, the propagation of evaluation failures, and the exact value of
//! the clipped-surrogate loss
//! `L = -mean(min(r*A, clip(r, 1-eps, 1+eps)*A)) + 0.5 * mean((G - V)^2)`
//! with `eps = 1/5`, computed over exact rationals.

use crate::errors::MetaSyntraXLError;
use crate::ratio::{
    add_fits, cmp_fits, fits_i128, mul_fits, rat_add, rat_clamp, rat_min, rat_mul, rat_neg,
    rat_of, rat_sub, sub_fits, Rat, Ratio,
};
use crate::rng::random_below;
use vstd::prelude::*;

verus! {

/// Sum of the first `i` sampling weights.
pub open spec fn weight_sum(ws: Seq<u64>, i: int) -> int
    decreases i,
{
    if i <= 0 {
        0
    } else {
        weight_sum(ws, i - 1) + ws[i - 1]
    }
}

/// A deterministic forward pass of both networks: the policy's action
/// distribution and the value network's state value, as exact rationals.
pub struct PolicyEval {
    pub action_probs: Vec<Ratio>,
    pub state_values: Vec<Ratio>,
}

/// The mathematical values of a vector of rationals.
pub open spec fn rats_of(v: Seq<Ratio>) -> Seq<Rat> {
    v.map_values(|r: Ratio| r@)
}

/// Every entry has a positive denominator.
pub open spec fn all_wf(v: Seq<Ratio>) -> bool {
    forall|i: int| 0 <= i < v.len() ==> (#[trigger] v[i]).wf()
}

/// The actor term of one sample: `min(r*A, clip(r, lo, hi)*A)`.
pub open spec fn actor_term(r: Rat, a: Rat, lo: Rat, hi: Rat) -> Rat {
    rat_min(rat_mul(r, a), rat_mul(rat_clamp(r, lo, hi), a))
}

/// Every intermediate of one actor term fits in an `i128`.
pub open spec fn actor_term_fits(r: Rat, a: Rat, lo: Rat, hi: Rat) -> bool {
    &&& mul_fits(r, a)
    &&& cmp_fits(lo, r)
    &&& cmp_fits(r, hi)
    &&& mul_fits(rat_clamp(r, lo, hi), a)
    &&& cmp_fits(rat_mul(r, a), rat_mul(rat_clamp(r, lo, hi), a))
}

/// The critic term of one sample: `(G - V)^2`.
pub open spec fn critic_term(g: Rat, v: Rat) -> Rat {
    rat_mul(rat_sub(g, v), rat_sub(g, v))
}

/// Every intermediate of one critic term fits in an `i128`.
pub open spec fn critic_term_fits(g: Rat, v: Rat) -> bool {
    &&& sub_fits(g, v)
    &&& mul_fits(rat_sub(g, v), rat_sub(g, v))
}

/// Sum of the first `i` actor terms.
pub open spec fn actor_sum(rs: Seq<Rat>, advs: Seq<Rat>, lo: Rat, hi: Rat, i: int) -> Rat
    decreases i,
{
    if i <= 0 {
        rat_of(0)
    } else {
        rat_add(actor_sum(rs, advs, lo, hi, i - 1), actor_term(rs[i - 1], advs[i - 1], lo, hi))
    }
}

/// Every intermediate of the first `i` actor terms and of their running sum
/// fits in an `i128`.
pub open spec fn actor_sum_fits(rs: Seq<Rat>, advs: Seq<Rat>, lo: Rat, hi: Rat, i: int) -> bool
    decreases i,
{
    if i <= 0 {
        true
    } else {
        &&& actor_sum_fits(rs, advs, lo, hi, i - 1)
        &&& actor_term_fits(rs[i - 1], advs[i - 1], lo, hi)
        &&& add_fits(actor_sum(rs, advs, lo, hi, i - 1), actor_term(rs[i - 1], advs[i - 1], lo, hi))
    }
}

/// Sum of the first `i` critic terms.
pub open spec fn critic_sum(gs: Seq<Rat>, vs: Seq<Rat>, i: int) -> Rat
    decreases i,
{
    if i <= 0 {
        rat_of(0)
    } else {
        rat_add(critic_sum(gs, vs, i - 1), critic_term(gs[i - 1], vs[i - 1]))
    }
}

/// Every intermediate of the first `i` critic terms and of their running sum
/// fits in an `i128`.
pub open spec fn critic_sum_fits(gs: Seq<Rat>, vs: Seq<Rat>, i: int) -> bool
    decreases i,
{
    if i <= 0 {
        true
    } else {
        &&& critic_sum_fits(gs, vs, i - 1)
        &&& critic_term_fits(gs[i - 1], vs[i - 1])
        &&& add_fits(critic_sum(gs, vs, i - 1), critic_term(gs[i - 1], vs[i - 1]))
    }
}

/// A sum divided by the batch size.
pub open spec fn rat_mean(s: Rat, n: int) -> Rat {
    Rat { n: s.n, d: s.d * n }
}

/// The exact clipped-surrogate loss of a batch:
/// `-mean(actor terms) + (1/2) * mean(critic terms)`.
pub open spec fn loss_value(rs: Seq<Rat>, gs: Seq<Rat>, vs: Seq<Rat>, advs: Seq<Rat>, lo: Rat, hi: Rat) -> Rat {
    let n = rs.len() as int;
    let am = rat_mean(actor_sum(rs, advs, lo, hi, n), n);
    let cm = rat_mean(critic_sum(gs, vs, n), n);
    rat_add(rat_neg(am), rat_mul(Rat { n: 1, d: 2 }, cm))
}

/// Every intermediate of the whole loss computation fits in an `i128`.
pub open spec fn loss_fits(rs: Seq<Rat>, gs: Seq<Rat>, vs: Seq<Rat>, advs: Seq<Rat>, lo: Rat, hi: Rat) -> bool {
    let n = rs.len() as int;
    let am = rat_mean(actor_sum(rs, advs, lo, hi, n), n);
    let cm = rat_mean(critic_sum(gs, vs, n), n);
    &&& actor_sum_fits(rs, advs, lo, hi, n)
    &&& critic_sum_fits(gs, vs, n)
    &&& fits_i128(actor_sum(rs, advs, lo, hi, n).d * n)
    &&& fits_i128(critic_sum(gs, vs, n).d * n)
    &&& fits_i128(-am.n)
    &&& mul_fits(Rat { n: 1, d: 2 }, cm)
    &&& add_fits(rat_neg(am), rat_mul(Rat { n: 1, d: 2 }, cm))
}

/// A prefix of a fitting actor sum fits.
pub proof fn lemma_actor_sum_fits_prefix(
    rs: Seq<Rat>,
    advs: Seq<Rat>,
    lo: Rat,
    hi: Rat,
    i: int,
    j: int,
)
    requires
        actor_sum_fits(rs, advs, lo, hi, i),
        j <= i,
    ensures
        actor_sum_fits(rs, advs, lo, hi, j),
    decreases i - j,
{
    if j < i {
        lemma_actor_sum_fits_prefix(rs, advs, lo, hi, i - 1, j);
    }
}

/// A prefix of a fitting critic sum fits.
pub proof fn lemma_critic_sum_fits_prefix(gs: Seq<Rat>, vs: Seq<Rat>, i: int, j: int)
    requires
        critic_sum_fits(gs, vs, i),
        j <= i,
    ensures
        critic_sum_fits(gs, vs, j),
    decreases i - j,
{
    if j < i {
        lemma_critic_sum_fits_prefix(gs, vs, i - 1, j);
    }
}

/// Actor-critic learner with a clipped-surrogate objective.  The network
/// parameters live in the external model capability; the learner holds the
/// dimensions and the fixed update bounds.
#[derive(Clone, Copy, Debug)]
pub struct PPO {
    pub state_dim: i64,
    pub action_dim: i64,
    pub clip_param: Ratio,
    pub max_grad_norm: Ratio,
}

impl PPO {
    /// The fixed surrogate clip `1/5` and gradient-norm bound `1/2`.
    pub open spec fn wf(self) -> bool {
        &&& self.clip_param == (Ratio { num: 1, den: 5 })
        &&& self.max_grad_norm == (Ratio { num: 1, den: 2 })
    }

    /// The lower clip bound `1 - eps` as an exact rational.
    pub open spec fn clip_lo(self) -> Rat {
        rat_sub(rat_of(1), self.clip_param@)
    }

    /// The upper clip bound `1 + eps` as an exact rational.
    pub open spec fn clip_hi(self) -> Rat {
        rat_add(rat_of(1), self.clip_param@)
    }

    /// A learner over the given state and action dimensions, with surrogate
    /// clip `1/5` and gradient-norm bound `1/2`.  The norm bound applies to
    /// the external optimizer step and must be enforced there.
    pub fn new(state_dim: i64, action_dim: i64) -> (p: PPO)
        ensures
            p.state_dim == state_dim,
            p.action_dim == action_dim,
            p.wf(),
    {
        PPO {
            state_dim,
            action_dim,
            clip_param: Ratio::new(1, 5),
            max_grad_norm: Ratio::new(1, 2),
        }
    }

    /// Samples an action index from the policy's output weights: index `i`
    /// is drawn with probability `weights[i] / total`.  Fails exactly when
    /// every weight is zero, so no distribution exists to sample from.
    pub fn act(&self, weights: &Vec<u64>) -> (r: Result<usize, MetaSyntraXLError>)
        ensures
            r is Ok <==> weight_sum(weights@, weights@.len() as int) > 0,
            r is Err ==> r matches Err(MetaSyntraXLError::PPOError(_)),
            r matches Ok(i) ==> i < weights@.len() && weights@[i as int] > 0,
    {
        let ghost ws = weights@;
        let mut total: u128 = 0;
        let mut i: usize = 0;
        while i < weights.len()
            invariant
                i <= ws.len(),
                ws == weights@,
                total == weight_sum(ws, i as int),
                total <= i * 0xffff_ffff_ffff_ffffu128,
            decreases ws.len() - i,
        {
            total = total + (weights[i] as u128);
            i = i + 1;
        }
        if total == 0 {
            return Err(MetaSyntraXLError::PPOError("every sampling weight is zero".to_owned()));
        }
        let draw = random_below(total);
        let mut cum: u128 = 0;
        let mut j: usize = 0;
        while j < weights.len()
            invariant
                j <= ws.len(),
                ws == weights@,
                total == weight_sum(ws, ws.len() as int),
                cum == weight_sum(ws, j as int),
                draw < total,
                cum <= draw,
                cum <= j * 0xffff_ffff_ffff_ffffu128,
            decreases ws.len() - j,
        {
            let next = cum + (weights[j] as u128);
            if draw < next {
                return Ok(j);
            }
            cum = next;
            j = j + 1;
        }
        proof {
            assert(false);
        }
        Err(MetaSyntraXLError::PPOError("the draw exceeded the total weight".to_owned()))
    }

    /// Re-evaluates the state through the external model and delegates to
    /// [`PPO::update`].  A missing evaluation is a learner-level failure and
    /// is propagated, not swallowed.
    pub fn learn(
        &self,
        evaluation: &Option<PolicyEval>,
        ratios: &Vec<Ratio>,
        rets: &Vec<Ratio>,
        advantages: &Vec<Ratio>,
    ) -> (r: Result<Ratio, MetaSyntraXLError>)
        requires
            self.wf(),
            all_wf(ratios@),
            all_wf(rets@),
            all_wf(advantages@),
            evaluation matches Some(ev) ==> all_wf(ev.state_values@),
        ensures
            (r matches Err(MetaSyntraXLError::EvaluationError)) <==> evaluation is None,
            evaluation matches Some(ev) ==> (r is Ok <==> self.update_ok(
                ratios@,
                rets@,
                ev.state_values@,
                advantages@,
            )),
            evaluation matches Some(ev) ==> (r matches Ok(l) ==> l.wf() && l@ == loss_value(
                rats_of(ratios@),
                rats_of(rets@),
                rats_of(ev.state_values@),
                rats_of(advantages@),
                self.clip_lo(),
                self.clip_hi(),
            )),
    {
        match evaluation {
            None => Err(MetaSyntraXLError::EvaluationError),
            Some(ev) => self.update(ratios, rets, &ev.state_values, advantages),
        }
    }

    /// When [`PPO::update`] succeeds: a consistent non-empty batch whose
    /// exact loss computation fits the machine integers.
    pub open spec fn update_ok(
        self,
        ratios: Seq<Ratio>,
        rets: Seq<Ratio>,
        values: Seq<Ratio>,
        advantages: Seq<Ratio>,
    ) -> bool {
        &&& ratios.len() == rets.len()
        &&& rets.len() == values.len()
        &&& values.len() == advantages.len()
        &&& ratios.len() > 0
        &&& loss_fits(
            rats_of(ratios),
            rats_of(rets),
            rats_of(values),
            rats_of(advantages),
            self.clip_lo(),
            self.clip_hi(),
        )
    }

    /// One clipped-surrogate update step: forms the probability-ratio
    /// surrogates, clips them to `[1-eps, 1+eps]`, averages the pointwise
    /// minimum against the advantages, adds half the mean squared critic
    /// error, and returns the exact loss.  Backpropagation and the optimizer
    /// step belong to the external model capability.  Fails exactly on a
    /// batch whose vectors differ in length, an empty batch, or an exact
    /// computation that does not fit the machine integers.
    pub fn update(
        &self,
        ratios: &Vec<Ratio>,
        rets: &Vec<Ratio>,
        values: &Vec<Ratio>,
        advantages: &Vec<Ratio>,
    ) -> (r: Result<Ratio, MetaSyntraXLError>)
        requires
            self.wf(),
            all_wf(ratios@),
            all_wf(rets@),
            all_wf(values@),
            all_wf(advantages@),
        ensures
            r is Ok <==> self.update_ok(ratios@, rets@, values@, advantages@),
            r matches Ok(l) ==> l.wf() && l@ == loss_value(
                rats_of(ratios@),
                rats_of(rets@),
                rats_of(values@),
                rats_of(advantages@),
                self.clip_lo(),
                self.clip_hi(),
            ),
            r is Err ==> r matches Err(MetaSyntraXLError::PPOError(_)),
    {
        let ghost rs = rats_of(ratios@);
        let ghost gs = rats_of(rets@);
        let ghost vs = rats_of(values@);
        let ghost advs = rats_of(advantages@);
        let ghost lo_s = self.clip_lo();
        let ghost hi_s = self.clip_hi();
        if !(ratios.len() == rets.len() && rets.len() == values.len() && values.len()
            == advantages.len()) {
            return Err(
                MetaSyntraXLError::PPOError("the batch vectors differ in length".to_owned()),
            );
        }
        let n = ratios.len();
        if n == 0 {
            return Err(MetaSyntraXLError::PPOError("the batch is empty".to_owned()));
        }
        let one = Ratio::from_int(1);
        let lo = one.sub(&self.clip_param);
        let hi = one.add(&self.clip_param);
        let mut asum = Ratio::zero();
        let mut csum = Ratio::zero();
        let mut i: usize = 0;
        while i < n
            invariant
                self.wf(),
                rs == rats_of(ratios@),
                gs == rats_of(rets@),
                vs == rats_of(values@),
                advs == rats_of(advantages@),
                lo_s == self.clip_lo(),
                hi_s == self.clip_hi(),
                all_wf(ratios@),
                all_wf(rets@),
                all_wf(values@),
                all_wf(advantages@),
                n == ratios@.len(),
                n == rets@.len(),
                n == values@.len(),
                n == advantages@.len(),
                n >= 1,
                i <= n,
                lo.wf(),
                lo@ == lo_s,
                hi.wf(),
                hi@ == hi_s,
                asum.wf(),
                asum@ == actor_sum(rs, advs, lo_s, hi_s, i as int),
                csum.wf(),
                csum@ == critic_sum(gs, vs, i as int),
                actor_sum_fits(rs, advs, lo_s, hi_s, i as int),
                critic_sum_fits(gs, vs, i as int),
            decreases n - i,
        {
            let ghost step = i as int + 1;
            let surr1 = match ratios[i].checked_mul(&advantages[i]) {
                Some(v) => v,
                None => {
                    proof {
                        if loss_fits(rs, gs, vs, advs, lo_s, hi_s) {
                            lemma_actor_sum_fits_prefix(rs, advs, lo_s, hi_s, n as int, step);
                        }
                    }
                    return Err(MetaSyntraXLError::PPOError("the exact loss overflows".to_owned()));
                },
            };
            let clipped = match ratios[i].checked_clamp(&lo, &hi) {
                Some(v) => v,
                None => {
                    proof {
                        if loss_fits(rs, gs, vs, advs, lo_s, hi_s) {
                            lemma_actor_sum_fits_prefix(rs, advs, lo_s, hi_s, n as int, step);
                        }
                    }
                    return Err(MetaSyntraXLError::PPOError("the exact loss overflows".to_owned()));
                },
            };
            let surr2 = match clipped.checked_mul(&advantages[i]) {
                Some(v) => v,
                None => {
                    proof {
                        if loss_fits(rs, gs, vs, advs, lo_s, hi_s) {
                            lemma_actor_sum_fits_prefix(rs, advs, lo_s, hi_s, n as int, step);
                        }
                    }
                    return Err(MetaSyntraXLError::PPOError("the exact loss overflows".to_owned()));
                },
            };
            let term = match surr1.checked_min(&surr2) {
                Some(v) => v,
                None => {
                    proof {
                        if loss_fits(rs, gs, vs, advs, lo_s, hi_s) {
                            lemma_actor_sum_fits_prefix(rs, advs, lo_s, hi_s, n as int, step);
                        }
                    }
                    return Err(MetaSyntraXLError::PPOError("the exact loss overflows".to_owned()));
                },
            };
            let new_asum = match asum.checked_add(&term) {
                Some(v) => v,
                None => {
                    proof {
                        if loss_fits(rs, gs, vs, advs, lo_s, hi_s) {
                            lemma_actor_sum_fits_prefix(rs, advs, lo_s, hi_s, n as int, step);
                        }
                    }
                    return Err(MetaSyntraXLError::PPOError("the exact loss overflows".to_owned()));
                },
            };
            let diff = match rets[i].checked_sub(&values[i]) {
                Some(v) => v,
                None => {
                    proof {
                        if loss_fits(rs, gs, vs, advs, lo_s, hi_s) {
                            lemma_critic_sum_fits_prefix(gs, vs, n as int, step);
                        }
                    }
                    return Err(MetaSyntraXLError::PPOError("the exact loss overflows".to_owned()));
                },
            };
            let sq = match diff.checked_mul(&diff) {
                Some(v) => v,
                None => {
                    proof {
                        if loss_fits(rs, gs, vs, advs, lo_s, hi_s) {
                            lemma_critic_sum_fits_prefix(gs, vs, n as int, step);
                        }
                    }
                    return Err(MetaSyntraXLError::PPOError("the exact loss overflows".to_owned()));
                },
            };
            let new_csum = match csum.checked_add(&sq) {
                Some(v) => v,
                None => {
                    proof {
                        if loss_fits(rs, gs, vs, advs, lo_s, hi_s) {
                            lemma_critic_sum_fits_prefix(gs, vs, n as int, step);
                        }
                    }
                    return Err(MetaSyntraXLError::PPOError("the exact loss overflows".to_owned()));
                },
            };
            asum = new_asum;
            csum = new_csum;
            i = i + 1;
        }
        let nn: i128 = n as i128;
        let ad = match asum.den.checked_mul(nn) {
            Some(v) => v,
            None => {
                return Err(MetaSyntraXLError::PPOError("the exact loss overflows".to_owned()));
            },
        };
        let cd = match csum.den.checked_mul(nn) {
            Some(v) => v,
            None => {
                return Err(MetaSyntraXLError::PPOError("the exact loss overflows".to_owned()));
            },
        };
        proof {
            crate::ratio::lemma_pos_mul_pos(asum.den as int, nn as int);
            crate::ratio::lemma_pos_mul_pos(csum.den as int, nn as int);
        }
        let amean = Ratio { num: asum.num, den: ad };
        let cmean = Ratio { num: csum.num, den: cd };
        let neg = match amean.checked_neg() {
            Some(v) => v,
            None => {
                return Err(MetaSyntraXLError::PPOError("the exact loss overflows".to_owned()));
            },
        };
        let half = Ratio::new(1, 2);
        let halfc = match half.checked_mul(&cmean) {
            Some(v) => v,
            None => {
                return Err(MetaSyntraXLError::PPOError("the exact loss overflows".to_owned()));
            },
        };
        let loss = match neg.checked_add(&halfc) {
            Some(v) => v,
            None => {
                return Err(MetaSyntraXLError::PPOError("the exact loss overflows".to_owned()));
            },
        };
        Ok(loss)
    }
}

} // verus!
