//! A few statistics of a vector of numbers.

use crate::fixed::Fixed;
use vstd::prelude::*;

verus! {

/// `values` written down `times` times in a row.
pub open spec fn repeated<T>(values: Seq<T>, times: nat) -> Seq<T>
    decreases times,
{
    if times == 0 {
        Seq::empty()
    } else {
        repeated(values, (times - 1) as nat) + values
    }
}

/// The exact sum of the raw values.
pub open spec fn total(values: Seq<Fixed>) -> int
    decreases values.len(),
{
    if values.len() == 0 {
        0
    } else {
        total(values.drop_last()) + values.last()@
    }
}

/// The mean of the values, cut toward zero to a representable number.
pub open spec fn mean(values: Seq<Fixed>) -> Fixed {
    let sum = total(values);
    let count = values.len() as int;
    Fixed { raw: (if sum >= 0 { sum / count } else { -((-sum) / count) }) as i64 }
}

/// Whether `value` occurs in `values` and none of them is larger.
pub open spec fn is_largest(values: Seq<Fixed>, value: Fixed) -> bool {
    &&& values.contains(value)
    &&& forall|i: int| 0 <= i < values.len() ==> (#[trigger] values[i])@ <= value@
}

/// Whether `value` occurs in `values` and none of them is smaller.
pub open spec fn is_smallest(values: Seq<Fixed>, value: Fixed) -> bool {
    &&& values.contains(value)
    &&& forall|i: int| 0 <= i < values.len() ==> (#[trigger] values[i])@ >= value@
}

/// Statistics of a collection of numbers of type `T`.
pub trait ExtendedStatistics<T> {
    /// The numbers, in order.
    spec fn values(&self) -> Seq<T>;

    /// The mean of the numbers, of which there must be at least one.
    fn avg(&self) -> T
        requires
            self.values().len() > 0,
    ;

    /// The largest of the numbers, of which there must be at least one.
    fn max(&self) -> T
        requires
            self.values().len() > 0,
    ;

    /// The smallest of the numbers, of which there must be at least one.
    fn min(&self) -> T
        requires
            self.values().len() > 0,
    ;

    /// The numbers `repeat` times in a row. The collection stays as it is.
    fn dup(&mut self, repeat: usize) -> (copies: Vec<T>)
        ensures
            copies@ == repeated(old(self).values(), repeat as nat),
            final(self).values() == old(self).values(),
    ;
}

impl ExtendedStatistics<Fixed> for Vec<Fixed> {
    open spec fn values(&self) -> Seq<Fixed> {
        self@
    }

    fn avg(&self) -> (r: Fixed)
        ensures
            r == mean(self@),
    {
        let mut sum: i128 = 0;
        let mut i: usize = 0;
        while i < self.len()
            invariant
                i <= self@.len(),
                sum == total(self@.take(i as int)),
                i * i64::MIN <= sum <= i * i64::MAX,
            decreases self@.len() - i,
        {
            assert(self@.take(i + 1).drop_last() =~= self@.take(i as int));
            sum = sum + self[i].raw as i128;
            i = i + 1;
        }
        assert(self@.take(i as int) =~= self@);
        let count: u128 = self.len() as u128;
        if sum >= 0 {
            let quotient: u128 = sum as u128 / count;
            assert(quotient <= i64::MAX) by (nonlinear_arith)
                requires
                    quotient == sum as int / count as int,
                    0 <= sum <= count * i64::MAX,
                    count > 0,
            ;
            Fixed { raw: quotient as i64 }
        } else {
            let quotient: u128 = (-sum) as u128 / count;
            assert(quotient <= -i64::MIN) by (nonlinear_arith)
                requires
                    quotient == (-sum) as int / count as int,
                    0 <= -sum <= count * (-i64::MIN),
                    count > 0,
            ;
            Fixed { raw: (-(quotient as i128)) as i64 }
        }
    }

    fn max(&self) -> (r: Fixed)
        ensures
            is_largest(self@, r),
    {
        let mut best = self[0];
        let mut i: usize = 1;
        assert(self@.take(1)[0] == best);
        while i < self.len()
            invariant
                1 <= i <= self@.len(),
                is_largest(self@.take(i as int), best),
            decreases self@.len() - i,
        {
            let ghost seen = self@.take(i as int);
            let ghost found = choose|j: int| 0 <= j < seen.len() && seen[j] == best;
            if self[i] >= best {
                best = self[i];
                assert(self@.take(i + 1)[i as int] == best);
            } else {
                assert(self@.take(i + 1)[found] == best);
            }
            assert forall|j: int| 0 <= j < i + 1 implies (#[trigger] self@.take(i + 1)[j])@
                <= best@ by {
                if j < i {
                    assert(seen[j]@ <= best@);
                }
            }
            i = i + 1;
        }
        assert(self@.take(i as int) =~= self@);
        best
    }

    fn min(&self) -> (r: Fixed)
        ensures
            is_smallest(self@, r),
    {
        let mut best = self[0];
        let mut i: usize = 1;
        assert(self@.take(1)[0] == best);
        while i < self.len()
            invariant
                1 <= i <= self@.len(),
                is_smallest(self@.take(i as int), best),
            decreases self@.len() - i,
        {
            let ghost seen = self@.take(i as int);
            let ghost found = choose|j: int| 0 <= j < seen.len() && seen[j] == best;
            if self[i] <= best {
                best = self[i];
                assert(self@.take(i + 1)[i as int] == best);
            } else {
                assert(self@.take(i + 1)[found] == best);
            }
            assert forall|j: int| 0 <= j < i + 1 implies (#[trigger] self@.take(i + 1)[j])@
                >= best@ by {
                if j < i {
                    assert(seen[j]@ >= best@);
                }
            }
            i = i + 1;
        }
        assert(self@.take(i as int) =~= self@);
        best
    }

    fn dup(&mut self, repeat: usize) -> (copies: Vec<Fixed>)
    {
        let mut copies: Vec<Fixed> = Vec::new();
        let mut round: usize = 0;
        while round < repeat
            invariant
                round <= repeat,
                self@ == old(self)@,
                copies@ == repeated(self@, round as nat),
            decreases repeat - round,
        {
            let ghost before = copies@;
            let mut i: usize = 0;
            while i < self.len()
                invariant
                    i <= self@.len(),
                    copies@ == before + self@.take(i as int),
                decreases self@.len() - i,
            {
                copies.push(self[i]);
                i = i + 1;
            }
            round = round + 1;
        }
        copies
    }
}

} // verus!
