//! Validated collections of training records.

use crate::fixed::Fixed;
use crate::random::thread_generator;
use rand::rngs::ThreadRng;
use vstd::prelude::*;
use vstd::std_specs::convert::TryFromSpecImpl;

verus! {

/// Why a collection of raw pairs is not a dataset.
#[derive(Debug, Clone, Copy, PartialEq, Eq, Structural)]
pub enum TrainingDataError {
    /// There is no pair, or the first pair has no input.
    EmptyData,
    /// The pair at the given index has an input of the given length, which
    /// is not the length of the first pair's input.
    LengthMismatch(usize, usize),
}

/// One training record: an input vector and the output expected for it.
#[derive(Debug, PartialEq)]
pub struct TrainingDataMember {
    pub input: Vec<Fixed>,
    pub output: Fixed,
}

/// The mathematical content of a training record.
pub struct Record {
    pub input: Seq<Fixed>,
    pub output: Fixed,
}

impl View for TrainingDataMember {
    type V = Record;

    open spec fn view(&self) -> Record {
        Record { input: self.input@, output: self.output }
    }
}

/// A non-empty collection of records whose inputs all have the same,
/// positive length.
#[derive(Debug, PartialEq)]
pub struct TrainingData {
    inner: Vec<TrainingDataMember>,
    input_length: usize,
}

/// The records that a sequence of raw pairs describes, in the same order.
pub open spec fn records_of(pairs: Seq<(Vec<Fixed>, Fixed)>) -> Seq<Record> {
    Seq::new(pairs.len(), |i: int| Record { input: pairs[i].0@, output: pairs[i].1 })
}

/// Whether every pair before `end` has an input as long as the first pair's.
pub open spec fn uniform_before(pairs: Seq<(Vec<Fixed>, Fixed)>, end: int) -> bool {
    forall|i: int| 0 <= i < end ==> (#[trigger] pairs[i]).0@.len() == pairs[0].0@.len()
}

/// Whether a sequence of records is what a dataset may hold: it is not
/// empty, and all inputs have the length `width`, which is positive.
pub open spec fn is_dataset(records: Seq<Record>, width: nat) -> bool {
    &&& records.len() > 0
    &&& width > 0
    &&& forall|i: int| 0 <= i < records.len() ==> (#[trigger] records[i]).input.len() == width
}

impl View for TrainingData {
    type V = Seq<Record>;

    closed spec fn view(&self) -> Seq<Record> {
        Seq::new(self.inner@.len(), |i: int| self.inner@[i]@)
    }
}

impl TrainingData {
    /// The common length of the inputs.
    pub closed spec fn width(&self) -> nat {
        self.input_length as nat
    }

    /// What holds of every dataset: its records are what a dataset may hold.
    #[verifier::type_invariant]
    pub closed spec fn well_formed(&self) -> bool {
        is_dataset(self@, self.width())
    }

    /// The common length of the inputs, which is that of the first record's.
    pub fn input_length(&self) -> (n: usize)
        ensures
            n == self.width(),
            n > 0,
            self@.len() > 0,
            n == self@[0].input.len(),
    {
        proof {
            use_type_invariant(self);
        }
        self.input_length
    }

    /// The number of records, which is at least one.
    pub fn record_count(&self) -> (n: usize)
        ensures
            n == self@.len(),
            n > 0,
    {
        proof {
            use_type_invariant(self);
        }
        self.inner.len()
    }

    /// The records, in the order they were given in.
    pub fn inner(&self) -> (records: &Vec<TrainingDataMember>)
        ensures
            records@.len() == self@.len(),
            forall|i: int| 0 <= i < records@.len() ==> (#[trigger] records@[i])@ == self@[i],
            is_dataset(self@, self.width()),
    {
        proof {
            use_type_invariant(self);
        }
        &self.inner
    }
}

/// The rows of a table of noise values.
pub open spec fn rows_of(noise: Seq<Vec<Fixed>>) -> Seq<Seq<Fixed>> {
    Seq::new(noise.len(), |i: int| noise[i]@)
}

/// Whether `noise` holds one row per record and in each row one value per
/// input scalar.
pub open spec fn fits(records: Seq<Record>, noise: Seq<Seq<Fixed>>) -> bool {
    &&& noise.len() == records.len()
    &&& forall|i: int|
        0 <= i < records.len() ==> (#[trigger] noise[i]).len() == records[i].input.len()
}

/// The records with `noise[i][k]` added to scalar `k` of the input of
/// record `i`, and the expected outputs as they are.
pub open spec fn shifted(records: Seq<Record>, noise: Seq<Seq<Fixed>>) -> Seq<Record> {
    Seq::new(
        records.len(),
        |i: int|
            Record {
                input: Seq::new(
                    records[i].input.len(),
                    |k: int| records[i].input[k].sum(noise[i][k]),
                ),
                output: records[i].output,
            },
    )
}

/// Whether `drawn` is a value that `noise` may return.
pub open spec fn may_return<F: Fn(&mut ThreadRng) -> Fixed>(noise: F, drawn: Fixed) -> bool {
    exists|rng: &mut ThreadRng| call_ensures(noise, (rng,), drawn)
}

/// Whether `after` is `before` with something that `noise` may return added
/// to the input scalar.
pub open spec fn is_perturbed<F: Fn(&mut ThreadRng) -> Fixed>(
    noise: F,
    before: Fixed,
    after: Fixed,
) -> bool {
    exists|drawn: Fixed| may_return(noise, drawn) && after == before.sum(drawn)
}

impl TrainingData {
    /// Adds `noise[i][k]` to scalar `k` of the input of record `i`, for every
    /// scalar of every input. Nothing happens, and the answer is `false`,
    /// unless `noise` holds one row per record and one value per scalar.
    ///
    /// The expected outputs, the number of records and the input length stay
    /// as they are.
    pub fn add_inputs(&mut self, noise: &Vec<Vec<Fixed>>) -> (done: bool)
        ensures
            done <==> fits(old(self)@, rows_of(noise@)),
            done ==> final(self)@ == shifted(old(self)@, rows_of(noise@)),
            !done ==> final(self)@ == old(self)@,
            final(self).width() == old(self).width(),
    {
        proof {
            use_type_invariant(&*self);
        }
        let ghost before = self@;
        let ghost table = rows_of(noise@);
        if noise.len() != self.inner.len() {
            return false;
        }
        let mut row: usize = 0;
        while row < noise.len()
            invariant
                before == self@,
                table == rows_of(noise@),
                is_dataset(before, self.width()),
                noise@.len() == before.len(),
                row <= noise@.len(),
                forall|i: int|
                    0 <= i < row ==> (#[trigger] table[i]).len() == before[i].input.len(),
            decreases noise@.len() - row,
        {
            if noise[row].len() != self.input_length {
                assert(table[row as int].len() != before[row as int].input.len());
                return false;
            }
            row = row + 1;
        }
        let mut inner: Vec<TrainingDataMember> = Vec::new();
        let mut i: usize = 0;
        while i < self.inner.len()
            invariant
                before == self@,
                table == rows_of(noise@),
                fits(before, table),
                before.len() == self.inner@.len(),
                forall|j: int| 0 <= j < before.len() ==> before[j] == (#[trigger] self.inner@[j])@,
                i <= self.inner@.len(),
                inner@.len() == i,
                forall|j: int| 0 <= j < i ==> (#[trigger] inner@[j])@ == shifted(before, table)[j],
            decreases self.inner@.len() - i,
        {
            let member = &self.inner[i];
            let values = &noise[i];
            assert(values@ == table[i as int]);
            let mut input: Vec<Fixed> = Vec::new();
            let mut k: usize = 0;
            while k < member.input.len()
                invariant
                    member.input@.len() == values@.len(),
                    k <= member.input@.len(),
                    input@.len() == k,
                    forall|m: int|
                        0 <= m < k ==> #[trigger] input@[m] == member.input@[m].sum(values@[m]),
                decreases member.input@.len() - k,
            {
                input.push(member.input[k].saturating_add(values[k]));
                k = k + 1;
            }
            assert(input@ =~= shifted(before, table)[i as int].input);
            inner.push(TrainingDataMember { input, output: member.output });
            i = i + 1;
        }
        assert(Seq::new(inner@.len(), |j: int| inner@[j]@) =~= shifted(before, table));
        self.inner = inner;
        true
    }

    /// Adds a value that `input_f` returns to every scalar of every input,
    /// calling it once per scalar with the thread's random generator, record
    /// by record and from the first scalar of an input to the last.
    ///
    /// The values are drawn first and then added as `add_inputs` adds them.
    /// The expected outputs, the number of records and the input length stay
    /// as they are.
    pub fn add_input_fn<F>(&mut self, input_f: F) where F: Fn(&mut ThreadRng) -> Fixed
        requires
            forall|rng: &mut ThreadRng| call_requires(input_f, (rng,)),
        ensures
            final(self).width() == old(self).width(),
            final(self)@.len() == old(self)@.len(),
            exists|noise: Seq<Seq<Fixed>>|
                {
                    &&& #[trigger] fits(old(self)@, noise)
                    &&& forall|i: int, k: int|
                        0 <= i < noise.len() && 0 <= k < noise[i].len() ==> may_return(
                            input_f,
                            #[trigger] noise[i][k],
                        )
                    &&& final(self)@ == shifted(old(self)@, noise)
                },
            forall|i: int|
                0 <= i < old(self)@.len() ==> {
                    &&& (#[trigger] final(self)@[i]).output == old(self)@[i].output
                    &&& final(self)@[i].input.len() == old(self)@[i].input.len()
                },
            forall|i: int, k: int|
                0 <= i < old(self)@.len() && 0 <= k < old(self)@[i].input.len() ==> is_perturbed(
                    input_f,
                    old(self)@[i].input[k],
                    #[trigger] final(self)@[i].input[k],
                ),
    {
        proof {
            use_type_invariant(&*self);
        }
        let mut rng = thread_generator();
        let ghost before = self@;
        let mut noise: Vec<Vec<Fixed>> = Vec::new();
        let mut i: usize = 0;
        while i < self.inner.len()
            invariant
                before == self@,
                is_dataset(before, self.width()),
                before.len() == self.inner@.len(),
                forall|rng: &mut ThreadRng| call_requires(input_f, (rng,)),
                i <= self.inner@.len(),
                noise@.len() == i,
                forall|j: int| 0 <= j < i ==> (#[trigger] noise@[j])@.len() == self.width(),
                forall|j: int, k: int|
                    0 <= j < i && 0 <= k < noise@[j]@.len() ==> may_return(
                        input_f,
                        #[trigger] noise@[j]@[k],
                    ),
            decreases self.inner@.len() - i,
        {
            let mut values: Vec<Fixed> = Vec::new();
            while values.len() < self.input_length
                invariant
                    forall|rng: &mut ThreadRng| call_requires(input_f, (rng,)),
                    values@.len() <= self.input_length,
                    forall|m: int|
                        0 <= m < values@.len() ==> may_return(input_f, #[trigger] values@[m]),
                decreases self.input_length - values@.len(),
            {
                let drawn = input_f(&mut rng);
                values.push(drawn);
            }
            noise.push(values);
            i = i + 1;
        }
        let ghost table = rows_of(noise@);
        assert(fits(before, table));
        let done = self.add_inputs(&noise);
        assert(done);
        proof {
            assert forall|i: int, k: int|
                0 <= i < table.len() && 0 <= k < table[i].len() implies may_return(
                input_f,
                #[trigger] table[i][k],
            ) by {
                assert(table[i][k] == noise@[i]@[k]);
            }
            assert forall|i: int, k: int|
                0 <= i < before.len() && 0 <= k < before[i].input.len() implies is_perturbed(
                input_f,
                before[i].input[k],
                #[trigger] self@[i].input[k],
            ) by {
                assert(may_return(input_f, table[i][k]));
                assert(self@[i].input[k] == before[i].input[k].sum(table[i][k]));
            }
        }
    }
}

/// What `try_from` returns is stated by its own contract, over the records
/// of the dataset. No formula gives the dataset itself.
impl TryFromSpecImpl<Vec<(Vec<Fixed>, Fixed)>> for TrainingData {
    open spec fn obeys_try_from_spec() -> bool {
        false
    }

    open spec fn try_from_spec(pairs: Vec<(Vec<Fixed>, Fixed)>) -> Result<Self, TrainingDataError> {
        Err(TrainingDataError::EmptyData)
    }
}

impl TryFrom<Vec<(Vec<Fixed>, Fixed)>> for TrainingData {
    type Error = TrainingDataError;

    /// Builds a dataset from raw pairs of an input vector and an expected
    /// output.
    ///
    /// The first pair's input length is the one that counts. Without a first
    /// pair, or with an empty first input, the result is `EmptyData`;
    /// otherwise, if some input has another length, the result is
    /// `LengthMismatch` with the first such pair's index and input length;
    /// otherwise the dataset holds the pairs as they were given.
    fn try_from(pairs: Vec<(Vec<Fixed>, Fixed)>) -> (result: Result<Self, TrainingDataError>)
        ensures
            match result {
                Ok(data) => {
                    &&& pairs@.len() > 0
                    &&& pairs@[0].0@.len() > 0
                    &&& uniform_before(pairs@, pairs@.len() as int)
                    &&& data@ == records_of(pairs@)
                    &&& data.width() == pairs@[0].0@.len()
                },
                Err(TrainingDataError::EmptyData) => pairs@.len() == 0 || pairs@[0].0@.len() == 0,
                Err(TrainingDataError::LengthMismatch(index, length)) => {
                    &&& pairs@.len() > 0
                    &&& pairs@[0].0@.len() > 0
                    &&& 0 < index < pairs@.len()
                    &&& uniform_before(pairs@, index as int)
                    &&& length == pairs@[index as int].0@.len()
                    &&& length != pairs@[0].0@.len()
                },
            },
    {
        if pairs.len() == 0 {
            return Err(TrainingDataError::EmptyData);
        }
        let input_length = pairs[0].0.len();
        if input_length == 0 {
            return Err(TrainingDataError::EmptyData);
        }
        let mut index: usize = 1;
        while index < pairs.len()
            invariant
                1 <= index <= pairs@.len(),
                0 < input_length == pairs@[0].0@.len(),
                uniform_before(pairs@, index as int),
            decreases pairs@.len() - index,
        {
            let length = pairs[index].0.len();
            if length != input_length {
                return Err(TrainingDataError::LengthMismatch(index, length));
            }
            index = index + 1;
        }
        let ghost given = pairs@;
        let mut inner: Vec<TrainingDataMember> = Vec::new();
        for pair in it: pairs.into_iter()
            invariant
                it.seq() == given,
                inner@.len() == it.index(),
                forall|i: int|
                    0 <= i < inner@.len() ==> (#[trigger] inner@[i])@ == (Record {
                        input: given[i].0@,
                        output: given[i].1,
                    }),
        {
            inner.push(TrainingDataMember { input: pair.0, output: pair.1 });
        }
        let data = TrainingData { inner, input_length };
        Ok(data)
    }
}

} // verus!
