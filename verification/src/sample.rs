//! The adaptive gradient model and the wire-level sample shapes.
//!
//! A gradient is a pair (sum of absolute deltas, sample count).  Its
//! `bit_diff` picks the fixed-width part of the next code; `update_from_value`
//! folds one more sample in, halving both numbers whenever the count reaches
//! its ceiling so the ratio stays put while the magnitudes stay bounded.
use crate::bits::pow2n;
use vstd::prelude::*;

verus! {

/// The ceiling at which a gradient's numbers are halved.
pub const GRADIENT_MAX_COUNT: i32 = 64;

/// The starting sum of every gradient, fixed for 14-bit samples.
pub const GRADIENT_START_SUM_VALUE: i32 = 256;

/// The largest absolute delta any decodable sample can carry: an escape
/// shape holds at most 13 bits plus one, a split shape at most a unary run
/// of 40 over 12 fixed bits.  Every value a gradient is updated with stays
/// below this.
pub const GRAD_VALUE_LIMIT: i32 = 0x40000;

/// One adaptive gradient: (sum of absolute deltas, count of samples).
#[derive(Debug, Clone, Copy, PartialEq, Eq, Structural)]
pub struct Grad(pub i32, pub i32);

/// The invariant every gradient that the codec updates satisfies: the count
/// stays within its ceiling and the sum is bounded by what that many
/// 14-bit deltas can have contributed.
pub open spec fn grad_wf(g: Grad) -> bool {
    &&& 1 <= g.1 <= GRADIENT_MAX_COUNT
    &&& 0 <= g.0 <= GRADIENT_START_SUM_VALUE + (g.1 - 1) * GRAD_VALUE_LIMIT
}

/// The result of the capped code-length search: 0 when the count has caught
/// up with the sum, otherwise the first `k >= 1` with `count * 2^k >= sum`,
/// with the search capped so that the answer never exceeds 13.
pub open spec fn bit_diff_rec(a: int, b: int, k: int) -> int
    decreases 13 - k,
{
    if k > 12 {
        k
    } else if b * pow2n(k as nat) >= a {
        k
    } else {
        bit_diff_rec(a, b, k + 1)
    }
}

pub open spec fn bit_diff_spec(a: int, b: int) -> int {
    if b >= a {
        0
    } else {
        bit_diff_rec(a, b, 1)
    }
}

proof fn lemma_bit_diff_rec_range(a: int, b: int, k: int)
    requires
        1 <= k <= 13,
    ensures
        k <= bit_diff_rec(a, b, k) <= 13,
    decreases 13 - k,
{
    if !(k > 12 || b * pow2n(k as nat) >= a) {
        lemma_bit_diff_rec_range(a, b, k + 1);
    }
}

pub proof fn lemma_bit_diff_spec_range(a: int, b: int)
    ensures
        0 <= bit_diff_spec(a, b) <= 13,
{
    if b < a {
        lemma_bit_diff_rec_range(a, b, 1);
    }
}

/// What one update does to a gradient: the absolute delta joins the sum,
/// and at the count ceiling both numbers are halved before the count grows.
pub open spec fn grad_updated(g: Grad, v: int) -> Grad {
    if g.1 == GRADIENT_MAX_COUNT {
        Grad(((g.0 + v) / 2) as i32, (g.1 / 2 + 1) as i32)
    } else {
        Grad((g.0 + v) as i32, (g.1 + 1) as i32)
    }
}

impl Grad {
    /// The number of low bits the sample codec treats as the fixed-width
    /// remainder under this gradient.
    pub fn bit_diff(self) -> (r: usize)
        requires
            0 <= self.0 <= 0x0100_0000,
            0 <= self.1 <= 0x0100_0000,
        ensures
            r == bit_diff_spec(self.0 as int, self.1 as int),
            r <= 13,
    {
        let a = self.0 as usize;
        let b = self.1 as usize;
        if b < a {
            let mut dec_bits: usize = 1;
            let mut m: usize = b * 2;
            proof {
                reveal_with_fuel(pow2n, 3);
            }
            while dec_bits <= 12 && m < a
                invariant
                    1 <= dec_bits <= 13,
                    a <= 0x0100_0000,
                    b < a,
                    m == b * pow2n(dec_bits as nat),
                    bit_diff_rec(a as int, b as int, 1) == bit_diff_rec(
                        a as int,
                        b as int,
                        dec_bits as int,
                    ),
                decreases 13 - dec_bits,
            {
                proof {
                    assert(pow2n((dec_bits + 1) as nat) == 2 * pow2n(dec_bits as nat));
                    assert(b * (2 * pow2n(dec_bits as nat)) == 2 * (b * pow2n(dec_bits as nat)))
                        by (nonlinear_arith);
                }
                dec_bits = dec_bits + 1;
                m = m * 2;
            }
            dec_bits
        } else {
            0
        }
    }

    /// Folds one absolute delta into the gradient: add it to the sum, halve
    /// both numbers if the count has reached its ceiling (checked before the
    /// increment), then count one more sample.
    pub fn update_from_value(&mut self, value: i32)
        requires
            grad_wf(*old(self)),
            0 <= value <= GRAD_VALUE_LIMIT,
        ensures
            grad_wf(*final(self)),
            old(self).1 == GRADIENT_MAX_COUNT ==> final(self).0 == (old(self).0 + value) / 2
                && final(self).1 == GRADIENT_MAX_COUNT / 2 + 1,
            old(self).1 != GRADIENT_MAX_COUNT ==> final(self).0 == old(self).0 + value
                && final(self).1 == old(self).1 + 1,
            2 <= final(self).1 <= GRADIENT_MAX_COUNT,
    {
        self.0 = self.0 + value;
        if self.1 == GRADIENT_MAX_COUNT {
            self.0 = self.0 / 2;
            self.1 = self.1 / 2;
        }
        self.1 = self.1 + 1;
    }
}

impl Default for Grad {
    /// A fresh gradient: the fixed starting sum and a count of one.
    fn default() -> (r: Grad)
        ensures
            r == Grad(GRADIENT_START_SUM_VALUE, 1i32),
            grad_wf(r),
    {
        Grad(GRADIENT_START_SUM_VALUE, 1)
    }
}

/// One set of 41-gradient tables, three tables a parity class, kept flat and
/// indexed by `gradient_set * 41 + context`.
pub struct Gradients {
    grads: Vec<Grad>,
}

/// Gradient contexts per set.
pub const NUM_CONTEXTS: usize = 41;

/// Gradient sets per parity class.
pub const NUM_GRADIENT_SETS: usize = 3;

impl Gradients {
    pub closed spec fn view(&self) -> Seq<Grad> {
        self.grads@
    }

    pub open spec fn wf(&self) -> bool {
        &&& self@.len() == NUM_GRADIENT_SETS * NUM_CONTEXTS
        &&& forall|i: int| 0 <= i < self@.len() ==> grad_wf(#[trigger] self@[i])
    }

    /// All tables fresh, every gradient at its starting value.
    pub fn fresh() -> (r: Gradients)
        ensures
            r.wf(),
            forall|i: int|
                0 <= i < r@.len() ==> #[trigger] r@[i] == Grad(GRADIENT_START_SUM_VALUE, 1i32),
    {
        let mut grads: Vec<Grad> = Vec::new();
        let mut i: usize = 0;
        while i < NUM_GRADIENT_SETS * NUM_CONTEXTS
            invariant
                i == grads@.len(),
                i <= NUM_GRADIENT_SETS * NUM_CONTEXTS,
                forall|j: int|
                    0 <= j < grads@.len() ==> #[trigger] grads@[j] == Grad(
                        GRADIENT_START_SUM_VALUE,
                        1i32,
                    ),
            decreases NUM_GRADIENT_SETS * NUM_CONTEXTS - i,
        {
            grads.push(Grad(GRADIENT_START_SUM_VALUE, 1));
            i = i + 1;
        }
        Gradients { grads }
    }

    /// The gradient of context `ctx` in set `set`.
    pub fn at(&self, set: usize, ctx: usize) -> (r: Grad)
        requires
            self.wf(),
            set < NUM_GRADIENT_SETS,
            ctx < NUM_CONTEXTS,
        ensures
            r == self@[set * NUM_CONTEXTS + ctx],
            grad_wf(r),
    {
        self.grads[set * NUM_CONTEXTS + ctx]
    }

    /// Replaces the gradient of context `ctx` in set `set`.
    pub fn put(&mut self, set: usize, ctx: usize, g: Grad)
        requires
            old(self).wf(),
            set < NUM_GRADIENT_SETS,
            ctx < NUM_CONTEXTS,
            grad_wf(g),
        ensures
            final(self).wf(),
            final(self)@ == old(self)@.update(set * NUM_CONTEXTS + ctx, g),
    {
        self.grads[set * NUM_CONTEXTS + ctx] = g;
    }
}

/// One wire-level sample, the codec's encode/decode intermediate.  The three
/// shapes are: use the prediction as-is; a magnitude split into a unary-coded
/// upper part and `lower_bits` fixed bits plus an invert flag; and the escape
/// shape carrying the whole delta magnitude (less one) as a 13-bit literal
/// plus an invert flag.
#[derive(Debug, Clone, Copy, PartialEq, Eq, Structural)]
pub enum Sample {
    Zero,
    EntireDelta(u16, bool),
    SplitDelta { upper: u16, lower: u16, lower_bits: usize, invert: bool },
}

} // verus!
