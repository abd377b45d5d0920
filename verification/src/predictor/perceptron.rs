//! Implementation of a perceptron with integer weights.

use vstd::prelude::*;

use crate::branch::Outcome;

verus! {

/// `x`, or the nearest number that a signed byte can hold.
pub open spec fn sat(x: int) -> i8 {
    if x > 127 {
        127
    } else if x < -128 {
        (-128int) as i8
    } else {
        x as i8
    }
}

/// Add two signed bytes; the sum stays at the end of the range that it
/// would leave.
pub fn sat_add(a: i8, b: i8) -> (r: i8)
    ensures
        r == sat(a + b),
{
    let sum = a as i16 + b as i16;
    if sum > 127 {
        127
    } else if sum < -128 {
        -128
    } else {
        sum as i8
    }
}

/// Multiply two signed bytes; the product stays at the end of the range
/// that it would leave.
pub fn sat_mul(a: i8, b: i8) -> (r: i8)
    ensures
        r == sat(a * b),
{
    assert(-128 * 128 <= a * b <= 128 * 128) by (nonlinear_arith)
        requires
            -128 <= a <= 127,
            -128 <= b <= 127,
    ;
    let product = a as i32 * b as i32;
    if product > 127 {
        127
    } else if product < -128 {
        -128
    } else {
        product as i8
    }
}

/// The sum of the products of the first `n` inputs with their weights,
/// taken up one by one; each product and each sum stays within a signed
/// byte.
pub open spec fn dot(input: Seq<i8>, weights: Seq<i8>, n: int) -> i8
    decreases n,
{
    if n <= 0 {
        0
    } else {
        sat(dot(input, weights, n - 1) + sat(input[n - 1] * weights[n - 1]))
    }
}

/// The value that an outcome takes among the inputs.
pub open spec fn value_of(outcome: Outcome) -> i8 {
    match outcome {
        Outcome::T => 1i8,
        Outcome::N => (-1int) as i8,
    }
}

/// The training threshold for a history of `len` outcomes: 1.93 times
/// `len`, plus 14, rounded down, and at most 127.
pub open spec fn threshold(len: usize) -> i8 {
    if len >= 59 {
        127
    } else {
        ((193 * len + 1400) / 100) as i8
    }
}

/// Perceptron [with integer weights].
///
/// See the following papers:
///
/// - "Neural Methods for Dynamic Branch Prediction" (Jiménez and Lin, 2002)
/// - "Fast Path-Based Neural Branch Prediction" (Jiménez, 2003)
pub struct Perceptron<const L: usize> {
    pub weights: [i8; L],
    pub bias: i8,
}

impl<const L: usize> Perceptron<L> {
    /// Make a perceptron whose weights and bias are zero.
    pub fn new() -> (r: Self)
        ensures
            r.bias == 0,
            forall|i: int| 0 <= i < L ==> r.weights[i] == 0,
    {
        Self { weights: [0;L], bias: 0 }
    }

    /// Reset the state.
    pub fn reset(&mut self)
        ensures
            final(self).bias == 0,
            forall|i: int| 0 <= i < L ==> final(self).weights[i] == 0,
    {
        self.bias = 0;
        self.weights = [0;L];
    }

    /// Return a reference to the list of weights.
    pub fn weights(&self) -> (r: &[i8])
        ensures
            r@ == self.weights@,
    {
        &self.weights
    }

    /// Training threshold.
    /// Papers suggest this constant (based on the history size).
    pub fn theta() -> (r: i8)
        ensures
            r == threshold(L),
    {
        if L >= 59 {
            127
        } else {
            ((193 * L + 1400) / 100) as i8
        }
    }

    /// The output value for `input`: the dot product of the inputs and the
    /// weights, plus the bias.
    pub open spec fn spec_output(&self, input: Seq<i8>) -> i8 {
        sat(dot(input, self.weights@, L as int) + self.bias)
    }

    /// The outcome that an output value predicts.
    pub open spec fn predicted(output: i8) -> Outcome {
        if output >= 0 {
            Outcome::T
        } else {
            Outcome::N
        }
    }

    /// Whether the perceptron learns from `outcome`: after a misprediction,
    /// and when the magnitude of the output is no greater than the
    /// threshold.
    pub open spec fn learns(&self, input: Seq<i8>, outcome: Outcome) -> bool {
        let output = self.spec_output(input);
        let magnitude = if output == -128 {
            127
        } else if output < 0 {
            -output
        } else {
            output as int
        };
        Self::predicted(output) != outcome || magnitude <= threshold(L)
    }

    /// Compute the dot product of the input/weight vectors
    pub fn dot_product(&self, input: &[i8]) -> (r: i8)
        requires
            input@.len() == L,
        ensures
            r == dot(input@, self.weights@, L as int),
    {
        let mut sum: i8 = 0;
        let mut i: usize = 0;
        while i < L
            invariant
                i <= L,
                input@.len() == L,
                sum == dot(input@, self.weights@, i as int),
            decreases L - i,
        {
            let val = sat_mul(input[i], self.weights[i]);
            sum = sat_add(sum, val);
            i = i + 1;
        }
        sum
    }

    /// Convert from an [Outcome] into an [i8].
    pub fn outcome_to_val(outcome: Outcome) -> (r: i8)
        ensures
            r == value_of(outcome),
    {
        match outcome {
            Outcome::T => 1,
            Outcome::N => -1,
        }
    }

    /// Given some input vector, compute the output value.
    /// The predicted outcome is determined by the sign of the output.
    pub fn output(&self, input: &[i8]) -> (r: (i8, Outcome))
        requires
            input@.len() == L,
        ensures
            r.0 == self.spec_output(input@),
            r.1 == Self::predicted(r.0),
    {
        let res = sat_add(self.dot_product(input), self.bias);
        let out = if res >= 0 {
            Outcome::T
        } else {
            Outcome::N
        };
        (res, out)
    }

    /// Given some outcome, adjust the weights.
    pub fn train(&mut self, input: &[i8], outcome: Outcome)
        requires
            input@.len() == L,
        ensures
            !old(self).learns(input@, outcome) ==> *final(self) == *old(self),
            old(self).learns(input@, outcome) ==> {
                &&& final(self).bias == sat(old(self).bias + value_of(outcome))
                &&& forall|i: int|
                    0 <= i < L ==> final(self).weights[i] == sat(
                        old(self).weights[i] + if input@[i] == value_of(outcome) {
                            1int
                        } else {
                            -1int
                        },
                    )
            },
    {
        let (output, prediction) = self.output(input);
        let outcome_val: i8 = Self::outcome_to_val(outcome);

        // Training occurs after a misprediction, or when the output value is
        // below some threshold.
        let miss = prediction != outcome;
        let output_magnitude = if output == i8::MIN {
            127
        } else if output < 0 {
            -output
        } else {
            output
        };
        let below_threshold = output_magnitude <= Self::theta();

        // When a bit in the history matches the outcome, increment the
        // corresponding weight. Otherwise, decrement the corresponding weight.
        if miss || below_threshold {
            self.bias = sat_add(self.bias, outcome_val);
            let mut idx: usize = 0;
            while idx < L
                invariant
                    idx <= L,
                    input@.len() == L,
                    outcome_val == value_of(outcome),
                    self.bias == sat(old(self).bias + value_of(outcome)),
                    forall|i: int|
                        0 <= i < idx ==> self.weights[i] == sat(
                            old(self).weights[i] + if input@[i] == value_of(outcome) {
                                1int
                            } else {
                                -1int
                            },
                        ),
                    forall|i: int| idx <= i < L ==> self.weights[i] == old(self).weights[i],
                decreases L - idx,
            {
                let adj: i8 = if input[idx] == outcome_val {
                    1
                } else {
                    -1
                };
                self.weights[idx] = sat_add(self.weights[idx], adj);
                idx = idx + 1;
            }
        }
    }
}

} // verus!
