//! The population: an ordered chain of agents, run as a sequential pipeline
//! and evolved by elitist selection.
//!
//! Processing threads one value through every agent in list order — a
//! composition chain, not independent evaluation.  Evolution stable-sorts
//! the agents by fitness, descending, keeps the top `ceil(n *
//! elite_fraction)` unchanged, and refills the remainder with copies of
//! uniformly drawn elites.  Reproduction is pure duplication: the learner
//! configuration, the genetic code and the fitness are copied verbatim, and
//! clones do not alias any learner state.

use crate::cognitive_thought_entity::{
    same_agent, signal_ok, step_output_ok, CognitiveThoughtEntity, LearnerSignal,
};
use crate::environment::dist;
use crate::errors::MetaSyntraXLError;
use crate::rng::random_below;
use crate::ratio::lemma_mul_bound;
use vstd::prelude::*;
use vstd::seq_lib::lemma_multiset_commutative;

verus! {

/// Stable descending insertion of `x` into `s`: after every earlier agent
/// whose fitness is at least `x`'s, before the rest.
pub open spec fn sorted_insert(
    s: Seq<CognitiveThoughtEntity>,
    x: CognitiveThoughtEntity,
) -> Seq<CognitiveThoughtEntity>
    decreases s.len(),
{
    if s.len() == 0 {
        seq![x]
    } else if s[0].fitness >= x.fitness {
        seq![s[0]] + sorted_insert(s.drop_first(), x)
    } else {
        seq![x] + s
    }
}

/// Stable sort by fitness, descending: agents of equal fitness keep their
/// pre-sort order.
pub open spec fn sort_desc(s: Seq<CognitiveThoughtEntity>) -> Seq<CognitiveThoughtEntity>
    decreases s.len(),
{
    if s.len() == 0 {
        Seq::empty()
    } else {
        sorted_insert(sort_desc(s.drop_last()), s.last())
    }
}

/// Fitness never increases along the sequence.
pub open spec fn sorted_desc(s: Seq<CognitiveThoughtEntity>) -> bool {
    forall|i: int, j: int|
        0 <= i < j < s.len() ==> (#[trigger] s[i]).fitness >= (#[trigger] s[j]).fitness
}

/// `ceil(n * num / den)`: how many agents of `n` count as elite under the
/// elite fraction `num / den`.
pub open spec fn elite_count_spec(n: int, num: int, den: int) -> int {
    (n * num + den - 1) / den
}

/// `e` is a verbatim copy of one of the first `ec` agents of `sorted`.
pub open spec fn clone_of_elite(
    e: CognitiveThoughtEntity,
    sorted: Seq<CognitiveThoughtEntity>,
    ec: int,
) -> bool {
    exists|j: int| 0 <= j < ec && #[trigger] same_agent(e, sorted[j])
}

/// Law: stable insertion keeps the length, the sortedness, and the agents
/// themselves — the result is the input plus `x`, as a multiset.
pub proof fn lemma_sorted_insert_props(s: Seq<CognitiveThoughtEntity>, x: CognitiveThoughtEntity)
    requires
        sorted_desc(s),
    ensures
        sorted_insert(s, x).len() == s.len() + 1,
        sorted_desc(sorted_insert(s, x)),
        sorted_insert(s, x).to_multiset() == s.to_multiset().insert(x),
        forall|k: int|
            0 <= k < sorted_insert(s, x).len() ==> sorted_insert(s, x)[k] == x || s.contains(
                #[trigger] sorted_insert(s, x)[k],
            ),
    decreases s.len(),
{
    broadcast use vstd::seq_lib::group_seq_properties;
    broadcast use vstd::multiset::group_multiset_axioms;

    let r = sorted_insert(s, x);
    if s.len() == 0 {
        assert(seq![x] =~= Seq::empty().push(x));
        Seq::<CognitiveThoughtEntity>::empty().to_multiset_ensures();
        assert(r.to_multiset() =~= s.to_multiset().insert(x));
    } else if s[0].fitness >= x.fitness {
        let tail = s.drop_first();
        assert(sorted_desc(tail)) by {
            assert(forall|k: int| 0 <= k < tail.len() ==> tail[k] == s[k + 1]);
        }
        lemma_sorted_insert_props(tail, x);
        let rt = sorted_insert(tail, x);
        assert(r == seq![s[0]] + rt);
        assert(r.len() == s.len() + 1);
        // every element of the result is x or an element of s
        assert forall|k: int| 0 <= k < r.len() implies r[k] == x || s.contains(#[trigger] r[k]) by {
            if k == 0 {
                assert(r[0] == s[0]);
                assert(s.contains(s[0]));
            } else {
                assert(r[k] == rt[k - 1]);
                if rt[k - 1] == x {
                } else {
                    assert(tail.contains(rt[k - 1]));
                    let w = choose|w: int| 0 <= w < tail.len() && tail[w] == rt[k - 1];
                    assert(s[w + 1] == rt[k - 1]);
                }
            }
        }
        // sortedness: the head dominates everything that follows
        assert forall|i: int, j: int| 0 <= i < j < r.len() implies (#[trigger] r[i]).fitness >= (
        #[trigger] r[j]).fitness by {
            if i == 0 {
                if r[j] == x {
                } else {
                    assert(s.contains(r[j]));
                    let w = choose|w: int| 0 <= w < s.len() && s[w] == r[j];
                    if w > 0 {
                        assert(s[0].fitness >= s[w].fitness);
                    }
                }
            } else {
                assert(r[i] == rt[i - 1] && r[j] == rt[j - 1]);
            }
        }
        // the multiset gains exactly x
        lemma_multiset_commutative(seq![s[0]], rt);
        assert(s =~= seq![s[0]] + tail);
        lemma_multiset_commutative(seq![s[0]], tail);
        assert(r.to_multiset() =~= s.to_multiset().insert(x));
    } else {
        assert(r == seq![x] + s);
        assert forall|i: int, j: int| 0 <= i < j < r.len() implies (#[trigger] r[i]).fitness >= (
        #[trigger] r[j]).fitness by {
            if i == 0 {
                assert(r[j] == s[j - 1]);
                if j - 1 > 0 {
                    assert(s[0].fitness >= s[j - 1].fitness);
                }
            } else {
                assert(r[i] == s[i - 1] && r[j] == s[j - 1]);
            }
        }
        assert forall|k: int| 0 <= k < r.len() implies r[k] == x || s.contains(#[trigger] r[k]) by {
            if k > 0 {
                assert(r[k] == s[k - 1]);
            }
        }
        lemma_multiset_commutative(seq![x], s);
        assert(seq![x] =~= Seq::empty().push(x));
        Seq::<CognitiveThoughtEntity>::empty().to_multiset_ensures();
        assert(r.to_multiset() =~= s.to_multiset().insert(x));
    }
}

/// Law: the stable sort keeps the length and the agents themselves — the
/// sorted population is a permutation of the input — and orders fitness
/// descending.
pub proof fn lemma_sort_desc_props(s: Seq<CognitiveThoughtEntity>)
    ensures
        sort_desc(s).len() == s.len(),
        sorted_desc(sort_desc(s)),
        sort_desc(s).to_multiset() == s.to_multiset(),
    decreases s.len(),
{
    broadcast use vstd::seq_lib::group_seq_properties;
    broadcast use vstd::multiset::group_multiset_axioms;

    if s.len() == 0 {
    } else {
        let head = s.drop_last();
        lemma_sort_desc_props(head);
        lemma_sorted_insert_props(sort_desc(head), s.last());
        head.to_multiset_ensures();
        assert(s =~= head.push(s.last()));
        assert(sort_desc(s).to_multiset() =~= s.to_multiset());
    }
}

/// Where the stable insertion puts `x`: right before the first agent of
/// strictly smaller fitness.
proof fn lemma_sorted_insert_at(
    s: Seq<CognitiveThoughtEntity>,
    x: CognitiveThoughtEntity,
    pos: int,
)
    requires
        sorted_desc(s),
        0 <= pos <= s.len(),
        forall|i: int| 0 <= i < pos ==> (#[trigger] s[i]).fitness >= x.fitness,
        pos < s.len() ==> s[pos].fitness < x.fitness,
    ensures
        sorted_insert(s, x) == s.take(pos) + seq![x] + s.skip(pos),
    decreases s.len(),
{
    if s.len() == 0 {
        assert(sorted_insert(s, x) =~= s.take(pos) + seq![x] + s.skip(pos));
    } else if pos == 0 {
        assert(s[0].fitness < x.fitness);
        assert(sorted_insert(s, x) == seq![x] + s);
        assert(sorted_insert(s, x) =~= s.take(0) + seq![x] + s.skip(0));
    } else {
        assert(s[0].fitness >= x.fitness);
        let tail = s.drop_first();
        assert(sorted_desc(tail)) by {
            assert(forall|k: int| 0 <= k < tail.len() ==> tail[k] == s[k + 1]);
        }
        assert(forall|i: int| 0 <= i < pos - 1 ==> (#[trigger] tail[i]).fitness >= x.fitness) by {
            assert(forall|k: int| 0 <= k < tail.len() ==> tail[k] == s[k + 1]);
        }
        assert(pos - 1 < tail.len() ==> tail[pos - 1].fitness < x.fitness) by {
            assert(forall|k: int| 0 <= k < tail.len() ==> tail[k] == s[k + 1]);
        }
        lemma_sorted_insert_at(tail, x, pos - 1);
        assert(sorted_insert(s, x) == seq![s[0]] + (tail.take(pos - 1) + seq![x] + tail.skip(
            pos - 1,
        )));
        assert(sorted_insert(s, x) =~= s.take(pos) + seq![x] + s.skip(pos)) by {
            assert(forall|k: int| 0 <= k < tail.len() ==> tail[k] == s[k + 1]);
        }
    }
}

/// The elite count is positive and at most the population size whenever the
/// fraction is positive, and zero exactly when the fraction is zero.
pub proof fn lemma_elite_count_bounds(n: int, num: int, den: int)
    requires
        n >= 1,
        den >= 1,
        0 <= num <= den,
    ensures
        num >= 1 ==> 1 <= elite_count_spec(n, num, den) <= n,
        num == 0 ==> elite_count_spec(n, num, den) == 0,
{
    if num == 0 {
        assert((n * 0 + den - 1) / den == 0) by (nonlinear_arith)
            requires
                den >= 1,
        ;
    } else {
        assert(1 <= (n * num + den - 1) / den <= n) by (nonlinear_arith)
            requires
                n >= 1,
                den >= 1,
                1 <= num <= den,
        ;
    }
}

/// An ordered population of agents plus an elite fraction
/// `elite_num / elite_den`.
pub struct ThoughtChain {
    pub entities: Vec<CognitiveThoughtEntity>,
    pub elite_num: usize,
    pub elite_den: usize,
}

impl ThoughtChain {
    /// The elite fraction lies in `[0, 1]` and every agent is well formed.
    pub open spec fn wf(self) -> bool {
        &&& self.elite_den >= 1
        &&& self.elite_num <= self.elite_den
        &&& forall|i: int|
            0 <= i < self.entities@.len() ==> (#[trigger] self.entities@[i]).wf()
    }

    /// A population of `num_entities` fresh agents and the given elite
    /// fraction.
    pub fn new(
        num_entities: usize,
        state_size: i64,
        action_size: i64,
        elite_num: usize,
        elite_den: usize,
    ) -> (c: ThoughtChain)
        requires
            elite_den >= 1,
            elite_num <= elite_den,
        ensures
            c.elite_num == elite_num,
            c.elite_den == elite_den,
            c.entities@.len() == num_entities,
            forall|i: int|
                0 <= i < num_entities ==> (#[trigger] c.entities@[i]).fitness == 0
                    && c.entities@[i].state == 0 && c.entities@[i].ppo.state_dim == state_size
                    && c.entities@[i].ppo.action_dim == action_size,
            forall|i: int, j: int|
                0 <= i < num_entities && 0 <= j < 10 ==> (#[trigger] c.entities@[i].genetic_code@[j])
                    == 0,
            c.wf(),
    {
        let mut entities: Vec<CognitiveThoughtEntity> = Vec::new();
        let mut i: usize = 0;
        while i < num_entities
            invariant
                i <= num_entities,
                entities@.len() == i,
                forall|k: int|
                    0 <= k < i ==> (#[trigger] entities@[k]).fitness == 0 && entities@[k].state
                        == 0 && entities@[k].ppo.state_dim == state_size
                        && entities@[k].ppo.action_dim == action_size && entities@[k].wf(),
                forall|k: int, j: int|
                    0 <= k < i && 0 <= j < 10 ==> (#[trigger] entities@[k].genetic_code@[j]) == 0,
            decreases num_entities - i,
        {
            entities.push(CognitiveThoughtEntity::new(state_size, action_size));
            i = i + 1;
        }
        ThoughtChain { entities, elite_num, elite_den }
    }

    /// Threads `input` through every agent in list order: the output of
    /// agent `i` is the input of agent `i+1`, a strict sequential pipeline.
    /// Each agent's fitness falls by its step's distance penalty; learners
    /// and genetic codes are untouched.
    #[verifier::rlimit(80)]
    pub fn process(&mut self, input: i64, signals: &Vec<LearnerSignal>) -> (r: Result<
        i64,
        MetaSyntraXLError,
    >)
        requires
            old(self).wf(),
            signals@.len() == old(self).entities@.len(),
            forall|i: int| 0 <= i < signals@.len() ==> signal_ok(#[trigger] signals@[i]),
            forall|i: int|
                0 <= i < old(self).entities@.len() ==> (#[trigger] old(self).entities@[i]).fitness
                    >= i64::MIN + 0x2_0000_0000,
        ensures
            r is Ok,
            final(self).wf(),
            final(self).elite_num == old(self).elite_num,
            final(self).elite_den == old(self).elite_den,
            final(self).entities@.len() == old(self).entities@.len(),
            forall|i: int|
                0 <= i < old(self).entities@.len() ==> (#[trigger] final(self).entities@[i]).ppo
                    == old(self).entities@[i].ppo
                    && final(self).entities@[i].genetic_code@
                    == old(self).entities@[i].genetic_code@,
            old(self).entities@.len() == 0 ==> r->Ok_0 == input,
            old(self).entities@.len() > 0 ==> final(self).entities@[0].state == input,
            forall|i: int|
                0 <= i < old(self).entities@.len() ==> (#[trigger] final(self).entities@[i]).fitness
                    == old(self).entities@[i].fitness - dist(
                    crate::GOAL_STATE as int,
                    if i + 1 < old(self).entities@.len() {
                        final(self).entities@[i + 1].state as int
                    } else {
                        r->Ok_0 as int
                    },
                ),
            forall|i: int|
                0 <= i < old(self).entities@.len() ==> step_output_ok(
                    if i + 1 < old(self).entities@.len() {
                        final(self).entities@[i + 1].state as int
                    } else {
                        r->Ok_0 as int
                    },
                    #[trigger] signals@[i],
                ),
    {
        let ghost orig = self.entities@;
        let n = self.entities.len();
        let mut current: i64 = input;
        let mut i: usize = 0;
        while i < n
            invariant
                n == self.entities@.len(),
                n == orig.len(),
                n == signals@.len(),
                i <= n,
                self.elite_num == old(self).elite_num,
                self.elite_den == old(self).elite_den,
                self.wf(),
                forall|k: int| 0 <= k < signals@.len() ==> signal_ok(#[trigger] signals@[k]),
                forall|k: int| i <= k < n ==> (#[trigger] self.entities@[k]) == orig[k],
                forall|k: int|
                    0 <= k < n ==> (#[trigger] orig[k]).fitness >= i64::MIN + 0x2_0000_0000,
                forall|k: int|
                    0 <= k < i ==> (#[trigger] self.entities@[k]).ppo == orig[k].ppo
                        && self.entities@[k].genetic_code@ == orig[k].genetic_code@,
                i == 0 ==> current == input,
                i > 0 ==> self.entities@[0].state == input,
                forall|k: int|
                    0 <= k < i ==> (#[trigger] self.entities@[k]).fitness == orig[k].fitness
                        - dist(
                        crate::GOAL_STATE as int,
                        if k + 1 < i as int {
                            self.entities@[k + 1].state as int
                        } else {
                            current as int
                        },
                    ),
                forall|k: int|
                    0 <= k < i ==> step_output_ok(
                        if k + 1 < i as int {
                            self.entities@[k + 1].state as int
                        } else {
                            current as int
                        },
                        #[trigger] signals@[k],
                    ),
            decreases n - i,
        {
            let ghost pre = self.entities@;
            let mut agent = self.entities.remove(i);
            proof {
                assert(agent == orig[i as int]);
            }
            let out = agent.process(current, &signals[i]);
            let ghost na = agent;
            self.entities.insert(i, agent);
            proof {
                pre.remove_ensures(i as int);
                pre.remove(i as int).insert_ensures(i as int, na);
                assert forall|k: int| 0 <= k < n && k != i as int implies self.entities@[k]
                    == pre[k] by {
                    if k < i as int {
                        assert(pre.remove(i as int)[k] == pre[k]);
                        assert(self.entities@[k] == pre.remove(i as int)[k]);
                    } else {
                        assert(pre.remove(i as int)[k - 1] == pre[k]);
                        assert(self.entities@[k] == pre.remove(i as int)[k - 1]);
                    }
                }
                assert(self.entities@[i as int] == na);
            }
            current = out;
            i = i + 1;
        }
        Ok(current)
    }

    /// One generation: stable-sorts the agents by fitness descending,
    /// retains the top `ceil(n * elite_num / elite_den)` unchanged, and
    /// refills the remainder with verbatim copies of uniformly drawn elites,
    /// restoring the population size.  Fails — with the agents left sorted —
    /// exactly when a non-empty population has no elites to reproduce from,
    /// that is, when the elite fraction is zero.
    pub fn evolve(&mut self) -> (r: Result<(), MetaSyntraXLError>)
        requires
            old(self).wf(),
        ensures
            final(self).wf(),
            final(self).elite_num == old(self).elite_num,
            final(self).elite_den == old(self).elite_den,
            r is Err <==> old(self).entities@.len() > 0 && old(self).elite_num == 0,
            r is Err ==> (r matches Err(MetaSyntraXLError::ThoughtChainError(_))
                && final(self).entities@ == sort_desc(old(self).entities@)),
            r is Ok ==> final(self).entities@.len() == old(self).entities@.len(),
            r is Ok ==> final(self).entities@.take(
                elite_count_spec(
                    old(self).entities@.len() as int,
                    old(self).elite_num as int,
                    old(self).elite_den as int,
                ),
            ) == sort_desc(old(self).entities@).take(
                elite_count_spec(
                    old(self).entities@.len() as int,
                    old(self).elite_num as int,
                    old(self).elite_den as int,
                ),
            ),
            r is Ok ==> forall|i: int|
                elite_count_spec(
                    old(self).entities@.len() as int,
                    old(self).elite_num as int,
                    old(self).elite_den as int,
                ) <= i < final(self).entities@.len() ==> clone_of_elite(
                    #[trigger] final(self).entities@[i],
                    sort_desc(old(self).entities@),
                    elite_count_spec(
                        old(self).entities@.len() as int,
                        old(self).elite_num as int,
                        old(self).elite_den as int,
                    ),
                ),
    {
        let ghost orig = self.entities@;
        let n = self.entities.len();
        sort_entities(&mut self.entities);
        let ghost sorted = sort_desc(orig);
        proof {
            lemma_sort_desc_props(orig);
        }
        if n == 0 {
            return Ok(());
        }
        let num128 = self.elite_num as u128;
        let den128 = self.elite_den as u128;
        let n128 = n as u128;
        proof {
            lemma_mul_bound(
                n as int,
                self.elite_num as int,
                0xffff_ffff_ffff_ffff,
                0xffff_ffff_ffff_ffff,
            );
            lemma_elite_count_bounds(n as int, self.elite_num as int, self.elite_den as int);
        }
        let ec128 = (n128 * num128 + den128 - 1) / den128;
        let ec = ec128 as usize;
        let ghost ec_s = elite_count_spec(n as int, self.elite_num as int, self.elite_den as int);
        proof {
            assert(ec as int == ec_s);
        }
        if ec == 0 {
            return Err(
                MetaSyntraXLError::ThoughtChainError(
                    "No elite entities available for reproduction".to_owned(),
                ),
            );
        }
        self.entities.truncate(ec);
        proof {
            assert(self.entities@ =~= sorted.take(ec as int));
        }
        let mut len = self.entities.len();
        while len < n
            invariant
                sorted == sort_desc(orig),
                sorted.len() == n,
                sorted_desc(sorted),
                forall|k: int| 0 <= k < sorted.len() ==> (#[trigger] sorted[k]).wf(),
                self.elite_num == old(self).elite_num,
                self.elite_den == old(self).elite_den,
                1 <= ec <= n,
                ec <= len,
                len == self.entities@.len(),
                len <= n,
                self.entities@.take(ec as int) == sorted.take(ec as int),
                forall|k: int|
                    0 <= k < len ==> (#[trigger] self.entities@[k]).wf(),
                forall|k: int|
                    ec <= k < len ==> clone_of_elite(
                        #[trigger] self.entities@[k],
                        sorted,
                        ec as int,
                    ),
            decreases n - len,
        {
            let ghost before = self.entities@;
            let idx = random_below(ec as u128) as usize;
            let parent_copy = self.entities[idx].clone();
            self.entities.push(parent_copy);
            len = len + 1;
            proof {
                assert(self.entities@.take(ec as int) =~= before.take(ec as int));
                assert(before[idx as int] == sorted[idx as int]) by {
                    assert(before.take(ec as int)[idx as int] == before[idx as int]);
                    assert(sorted.take(ec as int)[idx as int] == sorted[idx as int]);
                }
                assert(same_agent(self.entities@[len - 1], sorted[idx as int]));
                assert(clone_of_elite(self.entities@[len - 1], sorted, ec as int));
                assert forall|k: int|
                    ec <= k < len implies clone_of_elite(
                        #[trigger] self.entities@[k],
                        sorted,
                        ec as int,
                    ) by {
                    if k < len - 1 {
                        assert(self.entities@[k] == before[k]);
                    }
                }
            }
        }
        Ok(())
    }

    /// Appends one agent to the chain.
    pub fn add_entity(&mut self, entity: CognitiveThoughtEntity)
        ensures
            final(self).entities@ == old(self).entities@.push(entity),
            final(self).elite_num == old(self).elite_num,
            final(self).elite_den == old(self).elite_den,
    {
        self.entities.push(entity);
    }

    /// How many agents the chain holds.
    pub fn len(&self) -> (r: usize)
        ensures
            r == self.entities@.len(),
    {
        self.entities.len()
    }

    /// Whether the chain holds no agents.
    pub fn is_empty(&self) -> (r: bool)
        ensures
            r == (self.entities@.len() == 0),
    {
        self.entities.is_empty()
    }
}

/// Stable insertion sort of the agents by fitness, descending.
fn sort_entities(entities: &mut Vec<CognitiveThoughtEntity>)
    ensures
        final(entities)@ == sort_desc(old(entities)@),
        forall|k: int|
            0 <= k < final(entities)@.len() ==> old(entities)@.contains(
                #[trigger] final(entities)@[k],
            ),
{
    let ghost orig = entities@;
    let n = entities.len();
    let mut k: usize = 0;
    while k < n
        invariant
            n == orig.len(),
            entities@.len() == n,
            k <= n,
            entities@ == sort_desc(orig.take(k as int)) + orig.skip(k as int),
        decreases n - k,
    {
        let ghost pre = entities@;
        let ghost sp = sort_desc(orig.take(k as int));
        proof {
            lemma_sort_desc_props(orig.take(k as int));
            assert(pre[k as int] == orig[k as int]) by {
                assert(pre[k as int] == orig.skip(k as int)[0]);
            }
        }
        let xf = entities[k].fitness;
        let mut pos: usize = 0;
        while pos < k && entities[pos].fitness >= xf
            invariant
                entities@ == pre,
                pos <= k,
                k < n,
                n == entities@.len(),
                xf == orig[k as int].fitness,
                forall|i: int| 0 <= i < pos ==> (#[trigger] pre[i]).fitness >= xf,
            decreases k - pos,
        {
            pos = pos + 1;
        }
        let item = entities.remove(k);
        entities.insert(pos, item);
        k = k + 1;
        proof {
            let kk = k as int - 1;
            assert(forall|i: int| 0 <= i < kk ==> pre[i] == sp[i]);
            lemma_sorted_insert_at(sp, orig[kk], pos as int);
            assert(orig.take(kk + 1).drop_last() =~= orig.take(kk));
            assert(orig.take(kk + 1).last() == orig[kk]);
            assert(sort_desc(orig.take(kk + 1)) == sorted_insert(sp, orig[kk]));
            assert(entities@ =~= sort_desc(orig.take(kk + 1)) + orig.skip(kk + 1));
        }
    }
    proof {
        assert(orig.take(n as int) =~= orig);
        assert(orig.skip(n as int) =~= Seq::empty());
        assert(entities@ =~= sort_desc(orig));
        lemma_sort_desc_props(orig);
        assert forall|k2: int|
            0 <= k2 < entities@.len() implies orig.contains(#[trigger] entities@[k2]) by {
            broadcast use vstd::seq_lib::group_to_multiset_ensures;

            assert(entities@.contains(entities@[k2]));
            assert(entities@.to_multiset().count(entities@[k2]) > 0);
        }
    }
}

} // verus!
