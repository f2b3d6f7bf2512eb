//! The mathematics of a unit: its response to an input, one pass of the
//! delta rule over a dataset, training until the error settles, and the
//! search for a learning rate.

use crate::activation::Activation;
use crate::fixed::Fixed;
use crate::layer::LayerError;
use crate::training_data::Record;
use vstd::prelude::*;

verus! {

/// Raw value of the threshold above which a raw sum counts as `true`.
pub const THRESHOLD_RAW: i64 = 0x8000_0000;

/// What a run of training leaves behind.
pub struct Trained {
    /// Whether the error margin was reached, and if not, why training stopped.
    pub result: Result<(), LayerError>,
    /// The signed sum of the errors of the last epoch.
    pub error: Fixed,
    /// The weights after the last epoch.
    pub weights: Seq<Fixed>,
    /// The error sum that the last epoch's was held against: that of the
    /// epoch before it, or the largest number if there was none.
    pub before: Fixed,
    /// The number of epochs that ran.
    pub epochs: nat,
}

/// How a search for a learning rate ended.
pub enum SearchEnd {
    /// Training at a candidate failed, and the candidate had reached the
    /// end of the range.
    FailedAtUpper,
    /// A candidate left a larger error than the one before it, and the unit
    /// was trained again at the one before.
    Retrained,
    /// The last two candidates were equal, so there was no step left.
    Exhausted,
}

/// What a search for a learning rate leaves behind.
pub struct Searched {
    /// How the search ended.
    pub end: SearchEnd,
    /// The outcome of the training run that ended the search, or
    /// `OutOfPrecision`.
    pub result: Result<(), LayerError>,
    /// The signed error sum of the training run that ended the search.
    pub error: Fixed,
    /// The weights after the last training run.
    pub weights: Seq<Fixed>,
    /// The last candidate.
    pub rate: Fixed,
    /// The candidate before the last, or the end of the range if there was none.
    pub previous_rate: Fixed,
    /// The number of candidates that the unit was trained at.
    pub attempts: nat,
}

/// The sum of `weights[i] * input[i]` over the indices of `input`, added up
/// from the first index on.
pub open spec fn weighted_sum(weights: Seq<Fixed>, input: Seq<Fixed>) -> Fixed
    decreases input.len(),
{
    if input.len() == 0 {
        Fixed::zero()
    } else {
        weighted_sum(weights, input.drop_last()).sum(
            weights[input.len() - 1].product(input.last()),
        )
    }
}

/// Whether a raw sum lies above the decision threshold.
pub open spec fn decides(raw_sum: Fixed) -> bool {
    raw_sum@ > THRESHOLD_RAW
}

/// The error of `weights` on a record: the expected output minus the
/// activation of the raw sum.
pub open spec fn record_error(
    weights: Seq<Fixed>,
    record: Record,
    activation: Activation,
) -> Fixed {
    record.output.difference(activation.value(weighted_sum(weights, record.input)))
}

/// The weights after one step of the delta rule: every weight that has an
/// input grows by `rate * input * error`.
pub open spec fn adjusted(
    weights: Seq<Fixed>,
    input: Seq<Fixed>,
    rate: Fixed,
    error: Fixed,
) -> Seq<Fixed> {
    Seq::new(
        weights.len(),
        |y: int|
            if y < input.len() {
                weights[y].sum(rate.product(input[y]).product(error))
            } else {
                weights[y]
            },
    )
}

/// The weights after the delta rule has gone through `records` in order,
/// and the sum of the signed errors met on the way.
pub open spec fn after_records(
    weights: Seq<Fixed>,
    records: Seq<Record>,
    rate: Fixed,
    activation: Activation,
) -> (Seq<Fixed>, Fixed)
    decreases records.len(),
{
    if records.len() == 0 {
        (weights, Fixed::zero())
    } else {
        let (before, sum) = after_records(weights, records.drop_last(), rate, activation);
        let error = record_error(before, records.last(), activation);
        (adjusted(before, records.last().input, rate, error), sum.sum(error))
    }
}

/// Training from `weights` on, where the epoch before left the error sum
/// `previous`.
///
/// An epoch goes through all records once. Training ends in success when
/// the magnitude of the epoch's error sum is below `margin`. Otherwise it
/// fails when the error, rounded to hundredths, has stopped shrinking: with
/// `ErrStabilized` when it equals the rounded error of the epoch before,
/// with `ErrRising` when it exceeds it. Otherwise another epoch follows.
pub open spec fn trained(
    weights: Seq<Fixed>,
    records: Seq<Record>,
    rate: Fixed,
    margin: Fixed,
    activation: Activation,
    previous: Fixed,
) -> Trained
    decreases previous.hundredths(),
{
    let (next, error) = after_records(weights, records, rate, activation);
    if error.magnitude()@ < margin@ {
        Trained { result: Ok(()), error, weights: next, before: previous, epochs: 1 }
    } else if error.hundredths() == previous.hundredths() {
        Trained {
            result: Err(LayerError::ErrStabilized),
            error,
            weights: next,
            before: previous,
            epochs: 1,
        }
    } else if error.hundredths() > previous.hundredths() {
        Trained {
            result: Err(LayerError::ErrRising),
            error,
            weights: next,
            before: previous,
            epochs: 1,
        }
    } else {
        let rest = trained(next, records, rate, margin, activation, error);
        Trained { epochs: rest.epochs + 1, ..rest }
    }
}

/// Training from scratch: no epoch has run yet, which counts as the largest
/// error there is.
pub open spec fn trained_afresh(
    weights: Seq<Fixed>,
    records: Seq<Record>,
    rate: Fixed,
    margin: Fixed,
    activation: Activation,
) -> Trained {
    trained(weights, records, rate, margin, activation, Fixed::largest())
}

/// The search for a learning rate, from the candidate `rate` on, where the
/// candidate before was `previous_rate` and left the error `previous_error`.
///
/// The unit is trained at the candidate. If that fails and the candidate
/// has reached `upper`, the failure is the result. If the error has grown
/// in magnitude over the previous candidate's, the previous candidate was
/// the best: the unit is trained once more at it, and the outcome and the
/// error sum of that run are the result. If the two candidates are equal
/// there is no step left, which is `OutOfPrecision`. Otherwise the search
/// goes on halfway between the two.
pub open spec fn optimized(
    weights: Seq<Fixed>,
    records: Seq<Record>,
    rate: Fixed,
    previous_rate: Fixed,
    previous_error: Fixed,
    upper: Fixed,
    margin: Fixed,
    activation: Activation,
) -> Searched
    decreases vstd::math::abs(previous_rate@ - rate@),
{
    let attempt = trained_afresh(weights, records, rate, margin, activation);
    if attempt.result is Err && rate@ >= upper@ {
        Searched {
            end: SearchEnd::FailedAtUpper,
            result: attempt.result,
            error: attempt.error,
            weights: attempt.weights,
            rate,
            previous_rate,
            attempts: 1,
        }
    } else if attempt.error.magnitude()@ > previous_error.magnitude()@ {
        let last = trained_afresh(attempt.weights, records, previous_rate, margin, activation);
        Searched {
            end: SearchEnd::Retrained,
            result: last.result,
            error: last.error,
            weights: last.weights,
            rate,
            previous_rate,
            attempts: 1,
        }
    } else if rate == previous_rate {
        Searched {
            end: SearchEnd::Exhausted,
            result: Err(LayerError::OutOfPrecision),
            error: attempt.error,
            weights: attempt.weights,
            rate,
            previous_rate,
            attempts: 1,
        }
    } else {
        let rest = optimized(
            attempt.weights,
            records,
            rate.halfway(previous_rate),
            rate,
            attempt.error,
            upper,
            margin,
            activation,
        );
        Searched { attempts: rest.attempts + 1, ..rest }
    }
}

/// The search as it starts: the first candidate is `lower`, and `upper`
/// stands in for the candidate before it, with the largest error there is.
pub open spec fn optimized_afresh(
    weights: Seq<Fixed>,
    records: Seq<Record>,
    lower: Fixed,
    upper: Fixed,
    margin: Fixed,
    activation: Activation,
) -> Searched {
    optimized(weights, records, lower, upper, Fixed::largest(), upper, margin, activation)
}

/// How often a distance can be halved, the half cut to a whole number,
/// before nothing is left of it.
pub open spec fn halvings(distance: nat) -> nat
    decreases distance,
{
    if distance == 0 {
        0
    } else {
        1 + halvings(distance / 2)
    }
}

/// A unit answers an input of zeros with the raw sum zero, whatever its
/// weights are, and so decides `false`.
pub proof fn lemma_zero_input(weights: Seq<Fixed>, input: Seq<Fixed>)
    requires
        forall|i: int| 0 <= i < input.len() ==> input[i] == Fixed::zero(),
    ensures
        weighted_sum(weights, input) == Fixed::zero(),
        !decides(weighted_sum(weights, input)),
    decreases input.len(),
{
    if input.len() > 0 {
        lemma_zero_input(weights, input.drop_last());
        let weight = weights[input.len() - 1];
        assert(weight@ * input.last()@ == 0) by (nonlinear_arith)
            requires
                input.last()@ == 0,
        ;
    }
}

/// No unit computes the exclusive or of two inputs: whatever the weights,
/// a unit that decides `true` on (0, 1) and on (1, 0) also decides `true`
/// on (1, 1).
pub proof fn lemma_xor_not_separable(weights: Seq<Fixed>)
    ensures
        !decides(weighted_sum(weights, seq![Fixed::zero(), Fixed::zero()])),
        decides(weighted_sum(weights, seq![Fixed::zero(), Fixed::one()])) && decides(
            weighted_sum(weights, seq![Fixed::one(), Fixed::zero()]),
        ) ==> decides(weighted_sum(weights, seq![Fixed::one(), Fixed::one()])),
{
    let zero = Fixed::zero();
    let one = Fixed::one();
    lemma_zero_input(weights, seq![zero, zero]);
    lemma_pair_sum(weights, zero, one);
    lemma_pair_sum(weights, one, zero);
    lemma_pair_sum(weights, one, one);
    lemma_product_with_unit(weights[0]);
    lemma_product_with_unit(weights[1]);
}

/// The four records of the exclusive or of two inputs.
pub open spec fn xor_records() -> Seq<Record> {
    let zero = Fixed::zero();
    let one = Fixed::one();
    seq![
        Record { input: seq![zero, zero], output: zero },
        Record { input: seq![zero, one], output: one },
        Record { input: seq![one, zero], output: one },
        Record { input: seq![one, one], output: zero },
    ]
}

/// Whether `weights` decide every record of `records` as expected, an
/// expected output above the threshold standing for `true`.
pub open spec fn separates(weights: Seq<Fixed>, records: Seq<Record>) -> bool {
    forall|k: int|
        0 <= k < records.len() ==> decides(weighted_sum(weights, (#[trigger] records[k]).input))
            == decides(records[k].output)
}

/// Training on the exclusive or never ends with weights that decide its
/// four records as expected: whatever the weights at the start, the
/// learning rate, the margin and the activation.
pub proof fn lemma_training_does_not_learn_xor(
    weights: Seq<Fixed>,
    rate: Fixed,
    margin: Fixed,
    activation: Activation,
)
    ensures
        !separates(
            trained_afresh(weights, xor_records(), rate, margin, activation).weights,
            xor_records(),
        ),
{
    let learnt = trained_afresh(weights, xor_records(), rate, margin, activation).weights;
    lemma_xor_not_separable(learnt);
    let records = xor_records();
    if separates(learnt, records) {
        assert(decides(weighted_sum(learnt, records[1].input)) == decides(records[1].output));
        assert(decides(weighted_sum(learnt, records[2].input)) == decides(records[2].output));
        assert(decides(weighted_sum(learnt, records[3].input)) == decides(records[3].output));
    }
}

/// The same holds of the search for a learning rate, whatever its range.
pub proof fn lemma_search_does_not_learn_xor(
    weights: Seq<Fixed>,
    lower: Fixed,
    upper: Fixed,
    margin: Fixed,
    activation: Activation,
)
    ensures
        !separates(
            optimized_afresh(weights, xor_records(), lower, upper, margin, activation).weights,
            xor_records(),
        ),
{
    let learnt = optimized_afresh(weights, xor_records(), lower, upper, margin, activation).weights;
    lemma_xor_not_separable(learnt);
    let records = xor_records();
    if separates(learnt, records) {
        assert(decides(weighted_sum(learnt, records[1].input)) == decides(records[1].output));
        assert(decides(weighted_sum(learnt, records[2].input)) == decides(records[2].output));
        assert(decides(weighted_sum(learnt, records[3].input)) == decides(records[3].output));
    }
}

/// The raw sum of a unit on an input of two values.
proof fn lemma_pair_sum(weights: Seq<Fixed>, first: Fixed, second: Fixed)
    ensures
        weighted_sum(weights, seq![first, second]) == Fixed::zero().sum(
            weights[0].product(first),
        ).sum(weights[1].product(second)),
{
    let input = seq![first, second];
    assert(input.drop_last() =~= seq![first]);
    assert(seq![first].drop_last() =~= Seq::<Fixed>::empty());
    assert(weighted_sum(weights, seq![first]) == weighted_sum(
        weights,
        Seq::<Fixed>::empty(),
    ).sum(weights[0].product(first)));
}

/// Multiplying by one leaves a number as it is; multiplying by zero gives zero.
proof fn lemma_product_with_unit(value: Fixed)
    ensures
        value.product(Fixed::one()) == value,
        value.product(Fixed::zero()) == Fixed::zero(),
{
}

/// One pass over the records leaves the number of weights as it is.
pub proof fn lemma_after_records_length(
    weights: Seq<Fixed>,
    records: Seq<Record>,
    rate: Fixed,
    activation: Activation,
)
    ensures
        after_records(weights, records, rate, activation).0.len() == weights.len(),
    decreases records.len(),
{
    if records.len() > 0 {
        lemma_after_records_length(weights, records.drop_last(), rate, activation);
    }
}

/// A step of the delta rule that has nothing to add, because the learning
/// rate or the error is zero, leaves the weights as they are.
pub proof fn lemma_idle_step(weights: Seq<Fixed>, input: Seq<Fixed>, rate: Fixed, error: Fixed)
    requires
        rate == Fixed::zero() || error == Fixed::zero(),
    ensures
        adjusted(weights, input, rate, error) == weights,
{
    assert forall|y: int| 0 <= y < weights.len() implies adjusted(weights, input, rate, error)[y]
        == weights[y] by {
        if y < input.len() {
            assert(rate@ * input[y]@ == 0 || error@ == 0) by (nonlinear_arith)
                requires
                    rate@ == 0 || error@ == 0,
            ;
            let scaled = rate.product(input[y]);
            assert(scaled@ * error@ == 0) by (nonlinear_arith)
                requires
                    scaled@ == 0 || error@ == 0,
            ;
        }
    }
    assert(adjusted(weights, input, rate, error) =~= weights);
}

/// With the learning rate zero an epoch leaves the weights as they are.
pub proof fn lemma_rate_zero_epoch(
    weights: Seq<Fixed>,
    records: Seq<Record>,
    activation: Activation,
)
    ensures
        after_records(weights, records, Fixed::zero(), activation).0 == weights,
    decreases records.len(),
{
    if records.len() > 0 {
        lemma_rate_zero_epoch(weights, records.drop_last(), activation);
        let error = record_error(weights, records.last(), activation);
        lemma_idle_step(weights, records.last().input, Fixed::zero(), error);
    }
}

/// With the learning rate zero nothing is learnt: training leaves the
/// weights as they are and is over after two epochs at the latest, in
/// success or with `ErrStabilized`.
pub proof fn lemma_rate_zero_training(
    weights: Seq<Fixed>,
    records: Seq<Record>,
    margin: Fixed,
    activation: Activation,
)
    ensures
        ({
            let t = trained_afresh(weights, records, Fixed::zero(), margin, activation);
            &&& t.weights == weights
            &&& t.epochs <= 2
            &&& t.result is Ok || t.result == Err::<(), LayerError>(LayerError::ErrStabilized)
        }),
{
    let rate = Fixed::zero();
    lemma_rate_zero_epoch(weights, records, activation);
    let (next, error) = after_records(weights, records, rate, activation);
    assert(error.hundredths() <= Fixed::largest().hundredths());
    if error.magnitude()@ >= margin@ && error.hundredths() < Fixed::largest().hundredths() {
        let second = trained(next, records, rate, margin, activation, error);
        assert(second.result == Err::<(), LayerError>(LayerError::ErrStabilized));
    }
}

/// A unit that meets every record without error is left as it is by an
/// epoch, whose error sum is then zero.
pub proof fn lemma_fitting_unit_stays(
    weights: Seq<Fixed>,
    records: Seq<Record>,
    rate: Fixed,
    activation: Activation,
)
    requires
        forall|k: int|
            0 <= k < records.len() ==> record_error(weights, #[trigger] records[k], activation)
                == Fixed::zero(),
    ensures
        after_records(weights, records, rate, activation) == (weights, Fixed::zero()),
    decreases records.len(),
{
    if records.len() > 0 {
        let earlier = records.drop_last();
        assert forall|k: int| 0 <= k < earlier.len() implies record_error(
            weights,
            #[trigger] earlier[k],
            activation,
        ) == Fixed::zero() by {
            assert(earlier[k] == records[k]);
        }
        lemma_fitting_unit_stays(weights, earlier, rate, activation);
        assert(records.last() == records[records.len() - 1]);
        lemma_idle_step(weights, records.last().input, rate, Fixed::zero());
    }
}

/// How training ends is read off the error sums of its last two epochs.
///
/// It succeeds exactly when the last error sum is below the margin in
/// magnitude. Otherwise it fails with `ErrStabilized` exactly when the
/// rounded error equals that of the epoch before, and with `ErrRising`
/// exactly when it exceeds it; it never fails in another way. Until the last
/// epoch the rounded error has shrunk with every epoch, so there are no more
/// epochs than the rounded error that training set out from, and one. The
/// number of weights stays as it is.
pub proof fn lemma_training_outcome(
    weights: Seq<Fixed>,
    records: Seq<Record>,
    rate: Fixed,
    margin: Fixed,
    activation: Activation,
    previous: Fixed,
)
    ensures
        ({
            let t = trained(weights, records, rate, margin, activation, previous);
            &&& t.result is Ok <==> t.error.magnitude()@ < margin@
            &&& t.result == Err::<(), LayerError>(LayerError::ErrStabilized) <==> {
                &&& t.error.magnitude()@ >= margin@
                &&& t.error.hundredths() == t.before.hundredths()
            }
            &&& t.result == Err::<(), LayerError>(LayerError::ErrRising) <==> {
                &&& t.error.magnitude()@ >= margin@
                &&& t.error.hundredths() > t.before.hundredths()
            }
            &&& t.result != Err::<(), LayerError>(LayerError::OutOfPrecision)
            &&& t.before.hundredths() <= previous.hundredths()
            &&& 1 <= t.epochs <= previous.hundredths() + 1
            &&& t.weights.len() == weights.len()
        }),
    decreases previous.hundredths(),
{
    let (next, error) = after_records(weights, records, rate, activation);
    lemma_after_records_length(weights, records, rate, activation);
    if error.magnitude()@ >= margin@ && error.hundredths() < previous.hundredths() {
        lemma_training_outcome(next, records, rate, margin, activation, error);
    }
}

/// Training from scratch runs no more than 214748364801 epochs.
pub proof fn lemma_training_is_bounded(
    weights: Seq<Fixed>,
    records: Seq<Record>,
    rate: Fixed,
    margin: Fixed,
    activation: Activation,
)
    ensures
        trained_afresh(weights, records, rate, margin, activation).epochs <= 214748364801,
{
    lemma_training_outcome(weights, records, rate, margin, activation, Fixed::largest());
}

/// With a margin that is not positive no training succeeds.
pub proof fn lemma_margin_must_be_positive(
    weights: Seq<Fixed>,
    records: Seq<Record>,
    rate: Fixed,
    margin: Fixed,
    activation: Activation,
)
    requires
        margin@ <= 0,
    ensures
        trained_afresh(weights, records, rate, margin, activation).result is Err,
{
    lemma_training_outcome(weights, records, rate, margin, activation, Fixed::largest());
}

/// A distance below `2^bits` can be halved no more than `bits` times.
pub proof fn lemma_halvings_bound(distance: nat, bits: nat)
    requires
        distance < vstd::arithmetic::power2::pow2(bits),
    ensures
        halvings(distance) <= bits,
    decreases distance,
{
    if distance > 0 {
        if bits == 0 {
            vstd::arithmetic::power2::lemma2_to64();
        } else {
            vstd::arithmetic::power2::lemma_pow2_unfold(bits);
            lemma_halvings_bound(distance / 2, (bits - 1) as nat);
        }
    }
}

/// The search for a learning rate trains the unit at no more candidates
/// than the distance between the first two can be halved, and one. It ends
/// in one of three ways. Either training failed at a candidate that had
/// reached the end of the range. Or a candidate was worse than the one
/// before, and the retraining decides: success exactly with an error sum
/// below the margin in magnitude. Or the last two candidates were equal,
/// which is the one way to `OutOfPrecision`. The number of weights stays as
/// it is.
pub proof fn lemma_search_is_bounded(
    weights: Seq<Fixed>,
    records: Seq<Record>,
    rate: Fixed,
    previous_rate: Fixed,
    previous_error: Fixed,
    upper: Fixed,
    margin: Fixed,
    activation: Activation,
)
    ensures
        ({
            let s = optimized(
                weights,
                records,
                rate,
                previous_rate,
                previous_error,
                upper,
                margin,
                activation,
            );
            &&& 1 <= s.attempts <= halvings(vstd::math::abs(previous_rate@ - rate@) as nat) + 1
            &&& s.end is Exhausted <==> s.result == Err::<(), LayerError>(
                LayerError::OutOfPrecision,
            )
            &&& s.end is Exhausted ==> s.rate == s.previous_rate
            &&& s.end is FailedAtUpper ==> s.result is Err && s.rate@ >= upper@
            &&& s.end is Retrained ==> (s.result is Ok <==> s.error.magnitude()@ < margin@)
            &&& s.result is Ok ==> s.end is Retrained && s.error.magnitude()@ < margin@
            &&& s.weights.len() == weights.len()
        }),
    decreases vstd::math::abs(previous_rate@ - rate@),
{
    let attempt = trained_afresh(weights, records, rate, margin, activation);
    lemma_training_outcome(weights, records, rate, margin, activation, Fixed::largest());
    if attempt.result is Err && rate@ >= upper@ {
    } else if attempt.error.magnitude()@ > previous_error.magnitude()@ {
        lemma_training_outcome(
            attempt.weights,
            records,
            previous_rate,
            margin,
            activation,
            Fixed::largest(),
        );
    } else if rate == previous_rate {
    } else {
        let next = rate.halfway(previous_rate);
        lemma_search_is_bounded(
            attempt.weights,
            records,
            next,
            rate,
            attempt.error,
            upper,
            margin,
            activation,
        );
    }
}

/// A search that starts at the end of its range or beyond, with a
/// candidate at which training fails, ends there with that failure.
pub proof fn lemma_search_at_upper_bound(
    weights: Seq<Fixed>,
    records: Seq<Record>,
    lower: Fixed,
    upper: Fixed,
    margin: Fixed,
    activation: Activation,
)
    requires
        lower@ >= upper@,
        trained_afresh(weights, records, lower, margin, activation).result is Err,
    ensures
        ({
            let attempt = trained_afresh(weights, records, lower, margin, activation);
            let s = optimized_afresh(weights, records, lower, upper, margin, activation);
            &&& s.result == attempt.result
            &&& s.error == attempt.error
            &&& s.weights == attempt.weights
            &&& s.attempts == 1
        }),
{
}

/// Whatever the range, the search trains the unit at no more than 65
/// candidates before it ends.
pub proof fn lemma_search_ends(
    weights: Seq<Fixed>,
    records: Seq<Record>,
    lower: Fixed,
    upper: Fixed,
    margin: Fixed,
    activation: Activation,
)
    ensures
        optimized_afresh(weights, records, lower, upper, margin, activation).attempts <= 65,
{
    lemma_search_is_bounded(
        weights,
        records,
        lower,
        upper,
        Fixed::largest(),
        upper,
        margin,
        activation,
    );
    vstd::arithmetic::power2::lemma2_to64_rest();
    lemma_halvings_bound(vstd::math::abs(upper@ - lower@) as nat, 64);
}

} // verus!
