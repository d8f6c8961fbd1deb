//! The probability model and the weighted outcome sampler. Probabilities are
//! configured as scaled integers in units of one ten-thousandth, so the model,
//! its validation, and the expanded weight table are exact integer values. The
//! compiled sampler draws one fully resolved event per call, proportional to
//! the expanded weights; the only random step is a single uniform draw below
//! the weight total.

use rand::Rng;
use vstd::prelude::*;

use crate::errors::SimError;
use crate::state::Event;
use crate::state::event_legal;

verus! {

/// One whole, in the scale probabilities are configured in: a probability `p`
/// is represented as `p * 10000`.
pub const PROB_ONE: u32 = 10000;

/// Unconditional probabilities (scaled by `PROB_ONE`) for each explicit
/// plate-appearance outcome; the remainder to one whole is the probability of
/// an out.
#[allow(non_snake_case)]
#[derive(Clone, Copy, Debug, PartialEq, Eq, Structural)]
pub struct EventProbs {
    pub X1B: u32,
    pub X2B: u32,
    pub X3B: u32,
    pub X4B: u32,
    pub BB: u32,
}

/// Conditional runner-advancement probabilities (scaled by `PROB_ONE`):
/// on a single, the lead runner taking home and the trailing runner taking
/// third; on a double, the runner from first taking home.
#[allow(non_snake_case)]
#[derive(Clone, Copy, Debug, PartialEq, Eq, Structural)]
pub struct TakeBaseProb {
    pub X1B_3H: u32,
    pub X1B_23: u32,
    pub X2B_3H: u32,
}

impl EventProbs {
    /// The total probability mass of the five explicit outcomes.
    pub fn sum_probs(&self) -> (r: u64)
        ensures
            r == self.X1B + self.X2B + self.X3B + self.X4B + self.BB,
    {
        self.X1B as u64 + self.X2B as u64 + self.X3B as u64 + self.X4B as u64 + self.BB as u64
    }
}

/// A coherent configuration: every probability lies in `[0, 1]`, and the five
/// explicit outcomes leave strictly positive mass for the out, so the derived
/// out probability is positive and every inning can end.
pub open spec fn model_valid(probs: EventProbs, take: TakeBaseProb) -> bool {
    &&& probs.X1B <= PROB_ONE
    &&& probs.X2B <= PROB_ONE
    &&& probs.X3B <= PROB_ONE
    &&& probs.X4B <= PROB_ONE
    &&& probs.BB <= PROB_ONE
    &&& probs.X1B + probs.X2B + probs.X3B + probs.X4B + probs.BB < PROB_ONE
    &&& take.X1B_3H <= PROB_ONE
    &&& take.X1B_23 <= PROB_ONE
    &&& take.X2B_3H <= PROB_ONE
}

/// The sum of a sequence of weights.
pub open spec fn weights_sum(s: Seq<u64>) -> int
    decreases s.len(),
{
    if s.len() == 0 {
        0
    } else {
        weights_sum(s.drop_last()) + s.last()
    }
}

/// Extending a prefix by one element adds that element to its sum.
pub proof fn lemma_weights_sum_take_succ(s: Seq<u64>, i: int)
    requires
        0 <= i < s.len(),
    ensures
        weights_sum(s.take(i + 1)) == weights_sum(s.take(i)) + s[i],
{
    assert(s.take(i + 1).drop_last() =~= s.take(i));
    assert(s.take(i + 1).last() == s[i]);
}

/// A sum of unsigned weights is never negative.
pub proof fn lemma_weights_sum_nonneg(s: Seq<u64>)
    ensures
        weights_sum(s) >= 0,
    decreases s.len(),
{
    if s.len() > 0 {
        lemma_weights_sum_nonneg(s.drop_last());
    }
}

/// A prefix of a weight sequence never sums to more than the whole.
pub proof fn lemma_weights_sum_take_le(s: Seq<u64>, i: int)
    requires
        0 <= i <= s.len(),
    ensures
        weights_sum(s.take(i)) <= weights_sum(s),
    decreases s.len() - i,
{
    if i == s.len() {
        assert(s.take(i) =~= s);
    } else {
        lemma_weights_sum_take_succ(s, i);
        lemma_weights_sum_take_le(s, i + 1);
    }
}

/// The product of three scaled probabilities stays within the cube of the
/// scale, so an expanded weight always fits a `u64`.
proof fn lemma_weight_product_bound(a: u64, b: u64, c: u64)
    requires
        a <= 10000,
        b <= 10000,
        c <= 10000,
    ensures
        a * b <= 1_0000_0000u64,
        a * b * c <= 1_0000_0000_0000u64,
{
    assert(a * b <= 1_0000_0000 && a * b * c <= 1_0000_0000_0000) by (nonlinear_arith)
        requires
            a <= 10000,
            b <= 10000,
            c <= 10000,
    ;
}

/// The weighted sampler compiled from a probability model: an explicit,
/// enumerable table of fully resolved outcome events, each with an exact
/// integer weight, plus the precomputed weight total.
pub struct WeightedOutcomeSampler {
    pub events: Vec<Event>,
    pub weights: Vec<u64>,
    pub total: u64,
}

impl WeightedOutcomeSampler {
    /// The table is coherent: one weight per event, the stored total is the
    /// exact sum, the total is positive, and no event carrying positive
    /// weight is the illegal advancement combination.
    pub open spec fn wf(self) -> bool {
        &&& self.events@.len() == self.weights@.len()
        &&& self.total == weights_sum(self.weights@)
        &&& self.total > 0
        &&& forall|i: int|
            0 <= i < self.weights@.len() && self.weights@[i] > 0 ==> event_legal(
                #[trigger] self.events@[i],
            )
    }

    /// `ev` can come out of a draw: it stands in the table with positive weight.
    pub open spec fn samplable(self, ev: Event) -> bool {
        exists|i: int|
            0 <= i < self.events@.len() && (#[trigger] self.weights@[i]) > 0
                && self.events@[i] == ev
    }

    /// Only the out carries weight: the model gave every hit and walk
    /// probability zero.
    pub open spec fn out_only(self) -> bool {
        forall|i: int|
            0 <= i < self.weights@.len() && (#[trigger] self.weights@[i]) > 0
                ==> self.events@[i] == Event::Out
    }

    /// Expand a probability model into the explicit weighted event table.
    ///
    /// A single splits into its three possible advancement resolutions, a
    /// double into its two; the physically impossible resolution
    /// `X1B(false, true)` is not enumerated, which gives it weight exactly
    /// zero. Weights are exact products of the scaled probabilities, so each
    /// carries a factor of `PROB_ONE * PROB_ONE` relative to the configured
    /// outcome probability. Fails with `InvalidModel` exactly when some
    /// probability exceeds one whole or the five explicit outcomes leave no
    /// mass for the out.
    pub fn compile(probs: EventProbs, take: TakeBaseProb) -> (r: Result<
        WeightedOutcomeSampler,
        SimError,
    >)
        ensures
            r is Ok <==> model_valid(probs, take),
            r matches Err(e) ==> e == SimError::InvalidModel,
            r matches Ok(s) ==> {
                &&& s.wf()
                &&& s.events@ =~= seq![
                    Event::X1B(true, true),
                    Event::X1B(true, false),
                    Event::X1B(false, false),
                    Event::X2B(true),
                    Event::X2B(false),
                    Event::X3B,
                    Event::X4B,
                    Event::BB,
                    Event::Out,
                ]
                &&& s.weights@.len() == 9
                &&& s.weights@[0] == probs.X1B * take.X1B_3H * take.X1B_23
                &&& s.weights@[1] == probs.X1B * take.X1B_3H * (PROB_ONE - take.X1B_23)
                &&& s.weights@[2] == probs.X1B * (PROB_ONE - take.X1B_3H) * (PROB_ONE
                    - take.X1B_23)
                &&& s.weights@[3] == probs.X2B * take.X2B_3H * PROB_ONE
                &&& s.weights@[4] == probs.X2B * (PROB_ONE - take.X2B_3H) * PROB_ONE
                &&& s.weights@[5] == probs.X3B * PROB_ONE * PROB_ONE
                &&& s.weights@[6] == probs.X4B * PROB_ONE * PROB_ONE
                &&& s.weights@[7] == probs.BB * PROB_ONE * PROB_ONE
                &&& s.weights@[8] == (PROB_ONE - (probs.X1B + probs.X2B + probs.X3B + probs.X4B
                    + probs.BB)) * PROB_ONE * PROB_ONE
                &&& (probs.X1B == 0 && probs.X2B == 0 && probs.X3B == 0 && probs.X4B == 0
                    && probs.BB == 0 ==> s.out_only())
            },
    {
        if probs.X1B > PROB_ONE || probs.X2B > PROB_ONE || probs.X3B > PROB_ONE || probs.X4B
            > PROB_ONE || probs.BB > PROB_ONE {
            return Err(SimError::InvalidModel);
        }
        let sum5 = probs.X1B + probs.X2B + probs.X3B + probs.X4B + probs.BB;
        if sum5 >= PROB_ONE {
            return Err(SimError::InvalidModel);
        }
        if take.X1B_3H > PROB_ONE || take.X1B_23 > PROB_ONE || take.X2B_3H > PROB_ONE {
            return Err(SimError::InvalidModel);
        }
        let events: Vec<Event> = vec![
            Event::X1B(true, true),
            Event::X1B(true, false),
            Event::X1B(false, false),
            Event::X2B(true),
            Event::X2B(false),
            Event::X3B,
            Event::X4B,
            Event::BB,
            Event::Out,
        ];
        let one = PROB_ONE as u64;
        proof {
            lemma_weight_product_bound(probs.X1B as u64, take.X1B_3H as u64, take.X1B_23 as u64);
            lemma_weight_product_bound(
                probs.X1B as u64,
                take.X1B_3H as u64,
                (one - take.X1B_23 as u64) as u64,
            );
            lemma_weight_product_bound(
                probs.X1B as u64,
                (one - take.X1B_3H as u64) as u64,
                (one - take.X1B_23 as u64) as u64,
            );
            lemma_weight_product_bound(probs.X2B as u64, take.X2B_3H as u64, one);
            lemma_weight_product_bound(probs.X2B as u64, (one - take.X2B_3H as u64) as u64, one);
            lemma_weight_product_bound(probs.X3B as u64, one, one);
            lemma_weight_product_bound(probs.X4B as u64, one, one);
            lemma_weight_product_bound(probs.BB as u64, one, one);
            lemma_weight_product_bound((one - sum5 as u64) as u64, one, one);
        }
        let w0 = probs.X1B as u64 * take.X1B_3H as u64 * take.X1B_23 as u64;
        let w1 = probs.X1B as u64 * take.X1B_3H as u64 * (one - take.X1B_23 as u64);
        let w2 = probs.X1B as u64 * (one - take.X1B_3H as u64) * (one - take.X1B_23 as u64);
        let w3 = probs.X2B as u64 * take.X2B_3H as u64 * one;
        let w4 = probs.X2B as u64 * (one - take.X2B_3H as u64) * one;
        let w5 = probs.X3B as u64 * one * one;
        let w6 = probs.X4B as u64 * one * one;
        let w7 = probs.BB as u64 * one * one;
        let w8 = (one - sum5 as u64) * one * one;
        let weights: Vec<u64> = vec![w0, w1, w2, w3, w4, w5, w6, w7, w8];
        let mut total: u64 = 0;
        let mut i: usize = 0;
        while i < weights.len()
            invariant
                i <= weights.len(),
                weights@.len() == 9,
                forall|j: int| 0 <= j < 9 ==> #[trigger] weights@[j] <= 1_0000_0000_0000u64,
                total == weights_sum(weights@.take(i as int)),
                total <= i * 1_0000_0000_0000u64,
            decreases weights.len() - i,
        {
            proof {
                lemma_weights_sum_take_succ(weights@, i as int);
            }
            total = total + weights[i];
            i = i + 1;
        }
        proof {
            assert(weights@.take(weights@.len() as int) =~= weights@);
            assert(weights@.drop_last() =~= weights@.take(8));
            assert(w8 >= 1_0000_0000) by (nonlinear_arith)
                requires
                    w8 == (one - sum5 as u64) * one * one,
                    one == 10000,
                    sum5 < 10000,
            ;
            assert(weights_sum(weights@) == weights_sum(weights@.take(8)) + w8);
            assert(weights_sum(weights@.take(8)) >= 0) by {
                lemma_weights_sum_nonneg(weights@.take(8));
            }
            assert(total > 0);
            assert forall|i: int| 0 <= i < 9 && weights@[i] > 0 implies event_legal(
                events@[i],
            ) by {
                assert(event_legal(events@[i]));
            }
            if probs.X1B == 0 && probs.X2B == 0 && probs.X3B == 0 && probs.X4B == 0 && probs.BB
                == 0 {
                assert forall|i: int| 0 <= i < 9 && weights@[i] > 0 implies events@[i]
                    == Event::Out by {
                    assert(w0 == 0 && w1 == 0 && w2 == 0 && w3 == 0 && w4 == 0 && w5 == 0 && w6
                        == 0 && w7 == 0) by (nonlinear_arith)
                        requires
                            probs.X1B == 0 && probs.X2B == 0 && probs.X3B == 0 && probs.X4B == 0
                                && probs.BB == 0,
                            w0 == probs.X1B as u64 * take.X1B_3H as u64 * take.X1B_23 as u64,
                            w1 == probs.X1B as u64 * take.X1B_3H as u64 * (one - take.X1B_23
                                as u64),
                            w2 == probs.X1B as u64 * (one - take.X1B_3H as u64) * (one
                                - take.X1B_23 as u64),
                            w3 == probs.X2B as u64 * take.X2B_3H as u64 * one,
                            w4 == probs.X2B as u64 * (one - take.X2B_3H as u64) * one,
                            w5 == probs.X3B as u64 * one * one,
                            w6 == probs.X4B as u64 * one * one,
                            w7 == probs.BB as u64 * one * one,
                    ;
                }
            }
        }
        Ok(WeightedOutcomeSampler { events, weights, total })
    }

    /// Pick the table index a uniform draw `r` below the weight total falls
    /// on: the one index whose cumulative weight interval contains `r`. The
    /// chosen index always carries positive weight.
    fn select(&self, r: u64) -> (idx: usize)
        requires
            self.wf(),
            r < self.total,
        ensures
            idx < self.weights@.len(),
            weights_sum(self.weights@.take(idx as int)) <= r,
            r < weights_sum(self.weights@.take(idx as int + 1)),
            self.weights@[idx as int] > 0,
    {
        let mut acc: u64 = 0;
        let mut i: usize = 0;
        while i < self.weights.len()
            invariant
                self.wf(),
                r < self.total,
                i <= self.weights@.len(),
                acc == weights_sum(self.weights@.take(i as int)),
                acc <= r,
            decreases self.weights@.len() - i,
        {
            proof {
                lemma_weights_sum_take_succ(self.weights@, i as int);
                lemma_weights_sum_take_le(self.weights@, i as int + 1);
            }
            if r < acc + self.weights[i] {
                return i;
            }
            acc = acc + self.weights[i];
            i = i + 1;
        }
        proof {
            assert(self.weights@.take(self.weights@.len() as int) =~= self.weights@);
        }
        unreached()
    }

    /// Draw one outcome event, with probability proportional to its weight.
    /// Each call draws independently; nothing is promised of which event
    /// comes back beyond its standing in the table with positive weight.
    pub fn sample_event(&self) -> (ev: Event)
        requires
            self.wf(),
        ensures
            self.samplable(ev),
            event_legal(ev),
    {
        let r = random_below(self.total);
        let idx = self.select(r);
        self.events[idx]
    }
}

/// Under a coherent table, every samplable event is legal: no positive weight
/// stands on the illegal advancement combination.
pub proof fn lemma_samplable_legal(s: WeightedOutcomeSampler, ev: Event)
    requires
        s.wf(),
        s.samplable(ev),
    ensures
        event_legal(ev),
{
    let i = choose|i: int|
        0 <= i < s.events@.len() && (#[trigger] s.weights@[i]) > 0 && s.events@[i] == ev;
    assert(event_legal(s.events@[i]));
}

/// Relies on rand's `thread_rng` and `Rng::gen_range`: a draw from the
/// half-open range below `bound`, which is non-empty because `bound` is
/// positive. The draw depends on the generator's state, so nothing beyond the
/// range is promised of it.
#[verifier::external_body]
fn random_below(bound: u64) -> (r: u64)
    requires
        bound > 0,
    ensures
        r < bound,
{
    rand::thread_rng().gen_range(0..bound)
}

} // verus!
