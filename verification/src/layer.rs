//! A single linear-threshold unit: weights, a response, and training.

use crate::activation::Activation;
use crate::fixed::{Fixed, ONE_RAW};
use crate::learning::{
    adjusted, after_records, decides, lemma_zero_input, optimized, optimized_afresh, record_error,
    trained, trained_afresh, weighted_sum, THRESHOLD_RAW,
};
use crate::random::{
    next_seeded_word, next_thread_word, seeded_generator, seeded_word, thread_generator,
    upcoming_word,
};
use crate::training_data::{is_dataset, TrainingData, TrainingDataMember};
use std::ops::Range;
use vstd::prelude::*;

verus! {

/// Why training stopped without reaching the error margin.
#[derive(Debug, Clone, Copy, PartialEq, Eq, Structural)]
pub enum LayerError {
    /// The rounded error of an epoch equals that of the epoch before.
    ErrStabilized,
    /// The rounded error of an epoch exceeds that of the epoch before.
    ErrRising,
    /// The search for a learning rate has no step left to take.
    OutOfPrecision,
}

/// How the weights of a new unit are chosen.
#[derive(Clone, Copy)]
pub enum LayerInit {
    /// Every weight is the decision threshold.
    Threshold,
    /// Weights are drawn from a generator built from the given seed.
    Seed(u64),
    /// Weights are drawn from the thread's generator.
    Random,
}

/// A unit: one weight per input, and the activation its training uses.
#[derive(Debug)]
pub struct Layer {
    weights: Vec<Fixed>,
    activation: Activation,
}

impl View for Layer {
    type V = Seq<Fixed>;

    /// The weights.
    closed spec fn view(&self) -> Seq<Fixed> {
        self.weights@
    }
}

impl Clone for Layer {
    /// A unit with the same weights and activation.
    fn clone(&self) -> (copy: Layer)
        ensures
            copy@ == self@,
            copy.squashing() == self.squashing(),
    {
        let mut weights: Vec<Fixed> = Vec::new();
        let mut i: usize = 0;
        while i < self.weights.len()
            invariant
                i <= self.weights@.len(),
                weights@ == self.weights@.take(i as int),
            decreases self.weights@.len() - i,
        {
            weights.push(self.weights[i]);
            i = i + 1;
        }
        Layer { weights, activation: self.activation }
    }
}

/// Whether `weights` are what a new unit of `size` weights may start with
/// under `init`.
pub open spec fn initial_weights(weights: Seq<Fixed>, size: nat, init: LayerInit) -> bool {
    &&& weights.len() == size
    &&& match init {
        LayerInit::Threshold => forall|i: int|
            0 <= i < size ==> (#[trigger] weights[i])@ == THRESHOLD_RAW,
        LayerInit::Seed(seed) => forall|i: int|
            0 <= i < size ==> #[trigger] weights[i] == Fixed::unit_fraction(
                seeded_word(seed, i as nat),
            ),
        LayerInit::Random => forall|i: int|
            0 <= i < size ==> 0 <= (#[trigger] weights[i])@ < ONE_RAW,
    }
}

/// The weights made of a sequence of drawn words: one fraction per word.
pub open spec fn fractions_of(words: Seq<u64>) -> Seq<Fixed> {
    Seq::new(words.len(), |i: int| Fixed::unit_fraction(words[i]))
}

/// Two sequences of drawn words give the same weights exactly when they
/// are equally long and agree, word by word, in the upper 32 bits; so draws
/// that differ there in one word give units that differ in one weight.
pub proof fn lemma_draws_decide_weights(first: Seq<u64>, second: Seq<u64>)
    ensures
        fractions_of(first) == fractions_of(second) <==> {
            &&& first.len() == second.len()
            &&& forall|i: int|
                0 <= i < first.len() ==> #[trigger] first[i] / 0x1_0000_0000 == second[i]
                    / 0x1_0000_0000
        },
{
    if fractions_of(first) == fractions_of(second) {
        assert(first.len() == fractions_of(first).len());
        assert(second.len() == fractions_of(second).len());
        assert forall|i: int| 0 <= i < first.len() implies #[trigger] first[i] / 0x1_0000_0000
            == second[i] / 0x1_0000_0000 by {
            assert(fractions_of(first)[i] == fractions_of(second)[i]);
        }
    } else if first.len() == second.len() && forall|i: int|
        0 <= i < first.len() ==> #[trigger] first[i] / 0x1_0000_0000 == second[i] / 0x1_0000_0000 {
        assert(fractions_of(first) =~= fractions_of(second));
    }
}

/// Two units built from the same seed start with the same weights.
pub proof fn lemma_same_seed_same_weights(
    first: Seq<Fixed>,
    second: Seq<Fixed>,
    size: nat,
    seed: u64,
)
    requires
        initial_weights(first, size, LayerInit::Seed(seed)),
        initial_weights(second, size, LayerInit::Seed(seed)),
    ensures
        first == second,
{
}

impl Layer {
    /// The activation that training measures the error against.
    pub closed spec fn squashing(&self) -> Activation {
        self.activation
    }

    /// A unit of `size` weights that trains with the logistic activation.
    pub fn new(size: usize, init: LayerInit) -> (layer: Layer)
        ensures
            initial_weights(layer@, size as nat, init),
            layer.squashing() == Activation::Logistic,
    {
        Layer::with_activation(size, init, Activation::Logistic)
    }

    /// A unit of `size` weights that trains with the given activation.
    ///
    /// With `LayerInit::Threshold` every weight is the threshold. Otherwise
    /// one word is drawn per weight, and `from_words` makes the unit of the
    /// words. With a seed, word `i` is word `i` of the seeded stream, so
    /// equal seeds give equal weights. With `LayerInit::Random` the words come
    /// from the thread's generator, and all that is known is that every
    /// weight is a fraction in `[0, 1)`.
    pub fn with_activation(size: usize, init: LayerInit, activation: Activation) -> (layer: Layer)
        ensures
            initial_weights(layer@, size as nat, init),
            layer.squashing() == activation,
    {
        match init {
            LayerInit::Threshold => {
                let mut weights: Vec<Fixed> = Vec::new();
                while weights.len() < size
                    invariant
                        weights@.len() <= size,
                        forall|i: int|
                            0 <= i < weights@.len() ==> (#[trigger] weights@[i])@ == THRESHOLD_RAW,
                    decreases size - weights@.len(),
                {
                    weights.push(Fixed::from_raw(THRESHOLD_RAW));
                }
                Layer { weights, activation }
            },
            LayerInit::Seed(seed) => {
                let mut rng = seeded_generator(seed);
                let mut words: Vec<u64> = Vec::new();
                while words.len() < size
                    invariant
                        words@.len() <= size,
                        forall|i: int|
                            0 <= i < words@.len() ==> #[trigger] words@[i] == seeded_word(
                                seed,
                                i as nat,
                            ),
                        forall|k: nat| #[trigger]
                            upcoming_word(rng, k) == seeded_word(seed, words@.len() + k),
                    decreases size - words@.len(),
                {
                    let word = next_seeded_word(&mut rng);
                    words.push(word);
                }
                Layer::from_words(words.as_slice(), activation)
            },
            LayerInit::Random => {
                let mut rng = thread_generator();
                let mut words: Vec<u64> = Vec::new();
                while words.len() < size
                    invariant
                        words@.len() <= size,
                    decreases size - words@.len(),
                {
                    let word = next_thread_word(&mut rng);
                    words.push(word);
                }
                Layer::from_words(words.as_slice(), activation)
            },
        }
    }

    /// A unit with one weight per drawn word: weight `i` is the fraction in
    /// `[0, 1)` whose 32 bits are the upper half of word `i`.
    ///
    /// This is how drawn words become weights, whatever they were drawn
    /// from.
    pub fn from_words(words: &[u64], activation: Activation) -> (layer: Layer)
        ensures
            layer@ == fractions_of(words@),
            layer.squashing() == activation,
            forall|i: int| 0 <= i < layer@.len() ==> 0 <= (#[trigger] layer@[i])@ < ONE_RAW,
    {
        let mut weights: Vec<Fixed> = Vec::new();
        let mut i: usize = 0;
        while i < words.len()
            invariant
                i <= words@.len(),
                weights@.len() == i,
                forall|j: int|
                    0 <= j < i ==> #[trigger] weights@[j] == Fixed::unit_fraction(words@[j]),
            decreases words@.len() - i,
        {
            weights.push(Fixed::from_unit_word(words[i]));
            i = i + 1;
        }
        assert(weights@ =~= fractions_of(words@));
        Layer { weights, activation }
    }

    /// A unit with the given weights and activation.
    pub fn from_weights(weights: Vec<Fixed>, activation: Activation) -> (layer: Layer)
        ensures
            layer@ == weights@,
            layer.squashing() == activation,
    {
        Layer { weights, activation }
    }

    /// The weights.
    pub fn weights(&self) -> (weights: &Vec<Fixed>)
        ensures
            weights@ == self@,
    {
        &self.weights
    }

    /// The activation that training measures the error against.
    pub fn activation(&self) -> (activation: Activation)
        ensures
            activation == self.squashing(),
    {
        self.activation
    }

    /// The response to an input: the weighted sum of the input, and whether
    /// it lies above the threshold of one half.
    ///
    /// The input must hold one value per weight. An input of zeros is
    /// answered with the sum zero and the decision `false`.
    pub fn output(&self, input: &[Fixed]) -> (response: (Fixed, bool))
        requires
            input@.len() == self@.len(),
        ensures
            response.0 == weighted_sum(self@, input@),
            response.1 == decides(response.0),
            (forall|i: int| 0 <= i < input@.len() ==> input@[i] == Fixed::zero()) ==> response
                == (Fixed::zero(), false),
    {
        proof {
            if forall|i: int| 0 <= i < input@.len() ==> input@[i] == Fixed::zero() {
                lemma_zero_input(self@, input@);
            }
        }
        let mut sum = Fixed::from_raw(0);
        let mut i: usize = 0;
        while i < input.len()
            invariant
                i <= input@.len() == self.weights@.len(),
                sum == weighted_sum(self.weights@, input@.take(i as int)),
            decreases input@.len() - i,
        {
            assert(input@.take(i + 1).drop_last() =~= input@.take(i as int));
            sum = sum.saturating_add(self.weights[i].saturating_mul(input[i]));
            i = i + 1;
        }
        assert(input@.take(i as int) =~= input@);
        (sum, sum > Fixed::from_raw(THRESHOLD_RAW))
    }

    /// The response to an input, or `None` when the input does not hold one
    /// value per weight.
    pub fn checked_output(&self, input: &[Fixed]) -> (response: Option<(Fixed, bool)>)
        ensures
            response is Some <==> input@.len() == self@.len(),
            response matches Some(r) ==> r.0 == weighted_sum(self@, input@) && r.1 == decides(r.0),
    {
        if input.len() == self.weights.len() {
            Some(self.output(input))
        } else {
            None
        }
    }

    /// One step of the delta rule on one record; returns the record's error.
    fn learn_record(&mut self, record: &TrainingDataMember, rate: Fixed) -> (error: Fixed)
        requires
            record@.input.len() == old(self)@.len(),
        ensures
            error == record_error(old(self)@, record@, old(self).squashing()),
            final(self)@ == adjusted(old(self)@, record@.input, rate, error),
            final(self).squashing() == old(self).squashing(),
    {
        let raw_sum = self.output(record.input.as_slice()).0;
        let error = record.output.saturating_sub(self.activation.apply(raw_sum));
        let ghost start = self.weights@;
        let mut y: usize = 0;
        while y < record.input.len()
            invariant
                y <= record.input@.len() == start.len(),
                self.weights@.len() == start.len(),
                self.activation == old(self).activation,
                forall|j: int|
                    0 <= j < y ==> #[trigger] self.weights@[j] == start[j].sum(
                        rate.product(record.input@[j]).product(error),
                    ),
                forall|j: int| y <= j < start.len() ==> #[trigger] self.weights@[j] == start[j],
            decreases record.input@.len() - y,
        {
            let delta = rate.saturating_mul(record.input[y]).saturating_mul(error);
            let grown = self.weights[y].saturating_add(delta);
            self.weights.set(y, grown);
            y = y + 1;
        }
        error
    }

    /// One epoch: the delta rule goes through every record of `data` once.
    /// Returns the sum of the signed errors.
    pub fn epoch(&mut self, data: &TrainingData, learn_strength: Fixed) -> (error_sum: Fixed)
        requires
            data.width() == old(self)@.len(),
        ensures
            (final(self)@, error_sum) == after_records(
                old(self)@,
                data@,
                learn_strength,
                old(self).squashing(),
            ),
            final(self)@.len() == old(self)@.len(),
            final(self).squashing() == old(self).squashing(),
    {
        let records = data.inner();
        let ghost start = self@;
        let ghost activation = self.squashing();
        let mut error_sum = Fixed::from_raw(0);
        let mut k: usize = 0;
        while k < records.len()
            invariant
                k <= records@.len() == data@.len(),
                is_dataset(data@, data.width()),
                data.width() == start.len(),
                forall|i: int| 0 <= i < records@.len() ==> (#[trigger] records@[i])@ == data@[i],
                self@.len() == start.len(),
                self.squashing() == activation,
                (self@, error_sum) == after_records(
                    start,
                    data@.take(k as int),
                    learn_strength,
                    activation,
                ),
            decreases records@.len() - k,
        {
            assert(data@.take(k + 1).drop_last() =~= data@.take(k as int));
            let error = self.learn_record(&records[k], learn_strength);
            error_sum = error_sum.saturating_add(error);
            k = k + 1;
        }
        assert(data@.take(k as int) =~= data@);
        error_sum
    }

    /// Trains the unit on `data` with a fixed learning rate until the sum of
    /// an epoch's errors is below `err_max` in magnitude, or has stopped
    /// shrinking.
    ///
    /// Returns the outcome and the signed error sum of the last epoch. The
    /// outcome is `Ok` exactly when that sum is below `err_max` in magnitude;
    /// otherwise it is `ErrStabilized` or `ErrRising`, as the rounded error
    /// equals or exceeds that of the epoch before.
    pub fn train(
        &mut self,
        data: &TrainingData,
        learn_strength: Fixed,
        err_max: Fixed,
    ) -> (outcome: (Result<(), LayerError>, Fixed))
        requires
            data.width() == old(self)@.len(),
        ensures
            ({
                let t = trained_afresh(
                    old(self)@,
                    data@,
                    learn_strength,
                    err_max,
                    old(self).squashing(),
                );
                &&& final(self)@ == t.weights
                &&& outcome.0 == t.result
                &&& outcome.1 == t.error
            }),
            final(self)@.len() == old(self)@.len(),
            final(self).squashing() == old(self).squashing(),
            outcome.0 is Ok <==> outcome.1.magnitude()@ < err_max@,
            outcome.0 != Err::<(), LayerError>(LayerError::OutOfPrecision),
    {
        let ghost start = self@;
        let ghost activation = self.squashing();
        let mut previous = Fixed::from_raw(i64::MAX);
        loop
            invariant
                start == old(self)@,
                activation == old(self).squashing(),
                data.width() == self@.len() == start.len(),
                self.squashing() == activation,
                ({
                    let rest = trained(
                        self@,
                        data@,
                        learn_strength,
                        err_max,
                        activation,
                        previous,
                    );
                    let whole = trained_afresh(start, data@, learn_strength, err_max, activation);
                    &&& rest.result == whole.result
                    &&& rest.error == whole.error
                    &&& rest.weights == whole.weights
                }),
            decreases previous.hundredths(),
        {
            let error = self.epoch(data, learn_strength);
            if error.saturating_abs() < err_max {
                return (Ok(()), error);
            }
            let now = error.rounded_hundredths();
            let before = previous.rounded_hundredths();
            if now == before {
                return (Err(LayerError::ErrStabilized), error);
            }
            if now > before {
                return (Err(LayerError::ErrRising), error);
            }
            previous = error;
        }
    }

    /// Searches `learn_range` for a learning rate by repeated halving, and
    /// trains the unit along the way.
    ///
    /// The first candidate is the start of the range; the end of the range
    /// stands in for the candidate before it. Once a candidate leaves a
    /// larger error than the one before it, the unit is trained again at the
    /// one before, and what that run returns is returned. A result of `Ok`
    /// comes with an error sum below `err_max` in magnitude.
    pub fn train_optimizer(
        &mut self,
        data: &TrainingData,
        learn_range: Range<Fixed>,
        err_max: Fixed,
    ) -> (outcome: (Result<(), LayerError>, Fixed))
        requires
            data.width() == old(self)@.len(),
        ensures
            ({
                let s = optimized_afresh(
                    old(self)@,
                    data@,
                    learn_range.start,
                    learn_range.end,
                    err_max,
                    old(self).squashing(),
                );
                &&& final(self)@ == s.weights
                &&& outcome.0 == s.result
                &&& outcome.1 == s.error
            }),
            final(self)@.len() == old(self)@.len(),
            final(self).squashing() == old(self).squashing(),
            outcome.0 is Ok ==> outcome.1.magnitude()@ < err_max@,
    {
        let ghost start = self@;
        let ghost activation = self.squashing();
        let upper = learn_range.end;
        let mut rate = learn_range.start;
        let mut previous_rate = learn_range.end;
        let mut previous_error = Fixed::from_raw(i64::MAX);
        loop
            invariant
                start == old(self)@,
                activation == old(self).squashing(),
                upper == learn_range.end,
                data.width() == self@.len() == start.len(),
                self.squashing() == activation,
                ({
                    let rest = optimized(
                        self@,
                        data@,
                        rate,
                        previous_rate,
                        previous_error,
                        upper,
                        err_max,
                        activation,
                    );
                    let whole = optimized_afresh(
                        start,
                        data@,
                        learn_range.start,
                        learn_range.end,
                        err_max,
                        activation,
                    );
                    &&& rest.result == whole.result
                    &&& rest.error == whole.error
                    &&& rest.weights == whole.weights
                }),
            decreases vstd::math::abs(previous_rate@ - rate@),
        {
            let attempt = self.train(data, rate, err_max);
            let error = attempt.1;
            if attempt.0.is_err() && rate >= upper {
                return attempt;
            }
            if error.saturating_abs() > previous_error.saturating_abs() {
                return self.train(data, previous_rate, err_max);
            }
            if rate == previous_rate {
                return (Err(LayerError::OutOfPrecision), error);
            }
            let next = rate.midpoint(previous_rate);
            previous_rate = rate;
            rate = next;
            previous_error = error;
        }
    }

    /// What `train` does and returns, or `None`, with the unit left as it
    /// is, when the inputs of `data` do not hold one value per weight.
    pub fn checked_train(
        &mut self,
        data: &TrainingData,
        learn_strength: Fixed,
        err_max: Fixed,
    ) -> (outcome: Option<(Result<(), LayerError>, Fixed)>)
        ensures
            outcome is Some <==> data.width() == old(self)@.len(),
            outcome matches Some(o) ==> {
                let t = trained_afresh(
                    old(self)@,
                    data@,
                    learn_strength,
                    err_max,
                    old(self).squashing(),
                );
                &&& final(self)@ == t.weights
                &&& o.0 == t.result
                &&& o.1 == t.error
            },
            outcome is None ==> final(self)@ == old(self)@,
            final(self).squashing() == old(self).squashing(),
    {
        if data.input_length() == self.weights.len() {
            Some(self.train(data, learn_strength, err_max))
        } else {
            None
        }
    }

    /// What `train_optimizer` does and returns, or `None`, with the unit
    /// left as it is, when the inputs of `data` do not hold one value per
    /// weight. Whatever the arguments, the call returns.
    pub fn checked_train_optimizer(
        &mut self,
        data: &TrainingData,
        learn_range: Range<Fixed>,
        err_max: Fixed,
    ) -> (outcome: Option<(Result<(), LayerError>, Fixed)>)
        ensures
            outcome is Some <==> data.width() == old(self)@.len(),
            outcome matches Some(o) ==> {
                let s = optimized_afresh(
                    old(self)@,
                    data@,
                    learn_range.start,
                    learn_range.end,
                    err_max,
                    old(self).squashing(),
                );
                &&& final(self)@ == s.weights
                &&& o.0 == s.result
                &&& o.1 == s.error
                &&& o.0 is Ok ==> o.1.magnitude()@ < err_max@
            },
            outcome is None ==> final(self)@ == old(self)@,
            final(self).squashing() == old(self).squashing(),
    {
        if data.input_length() == self.weights.len() {
            Some(self.train_optimizer(data, learn_range, err_max))
        } else {
            None
        }
    }
}

} // verus!
