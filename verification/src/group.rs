//! Units arranged in levels that narrow towards a single output.

use crate::activation::Activation;
use crate::fixed::Fixed;
use crate::layer::{initial_weights, Layer, LayerInit};
use crate::learning::weighted_sum;
use vstd::arithmetic::power::{lemma_pow0, lemma_pow_increases, pow};
use vstd::prelude::*;
use vstd::slice::{slice_subrange, slice_to_vec};

verus! {

/// A complete tree of units, stored level by level: with `depth` levels and
/// `width` inputs per unit, level `l` holds `width^(depth - 1 - l)` units, so
/// the last level is a single unit.
pub struct Group {
    layers: Vec<Vec<Layer>>,
    input_length: usize,
}

/// Whether `levels` form a complete tree of units with `width` weights each.
pub open spec fn is_tree(levels: Seq<Seq<Layer>>, width: nat) -> bool {
    &&& forall|l: int|
        0 <= l < levels.len() ==> (#[trigger] levels[l]).len() == pow(
            width as int,
            (levels.len() - 1 - l) as nat,
        )
    &&& forall|l: int, i: int|
        0 <= l < levels.len() && 0 <= i < levels[l].len() ==> (#[trigger] levels[l][i])@.len()
            == width
}

/// The raw sums of the units of one level: unit `i` answers to the window
/// of `width` values of `working` that starts at `i * width`.
pub open spec fn level_response(
    units: Seq<Layer>,
    working: Seq<Fixed>,
    width: nat,
) -> Seq<Fixed> {
    Seq::new(
        units.len(),
        |i: int| weighted_sum(units[i]@, working.subrange(i * width, (i + 1) * width)),
    )
}

/// What comes out of the last of `levels` when `input` goes in at the first.
pub open spec fn forward(levels: Seq<Seq<Layer>>, input: Seq<Fixed>, width: nat) -> Seq<Fixed>
    decreases levels.len(),
{
    if levels.len() == 0 {
        input
    } else {
        level_response(levels.last(), forward(levels.drop_last(), input, width), width)
    }
}

/// The number of values that the first of `levels` reads.
pub open spec fn fan_in(levels: Seq<Seq<Layer>>, width: nat) -> nat {
    if levels.len() == 0 {
        0
    } else {
        levels[0].len() * width
    }
}

impl View for Group {
    type V = Seq<Seq<Layer>>;

    /// The levels, first level first.
    closed spec fn view(&self) -> Seq<Seq<Layer>> {
        Seq::new(self.layers@.len(), |l: int| self.layers@[l]@)
    }
}

impl Group {
    /// The number of inputs, and so of weights, of every unit.
    pub closed spec fn width(&self) -> nat {
        self.input_length as nat
    }

    /// What holds of every tree: its levels are complete.
    #[verifier::type_invariant]
    pub closed spec fn well_formed(&self) -> bool {
        is_tree(self@, self.width())
    }

    /// A tree of `depth` levels whose units have `inputs` weights each,
    /// every unit initialised by `init` and training with the logistic
    /// activation.
    pub fn new(depth: u32, inputs: usize, init: LayerInit) -> (group: Group)
        requires
            depth > 0 ==> pow(inputs as int, (depth - 1) as nat) <= usize::MAX,
        ensures
            group@.len() == depth,
            group.width() == inputs,
            is_tree(group@, inputs as nat),
            depth > 0 ==> group@.last().len() == 1,
            forall|l: int, i: int|
                0 <= l < group@.len() && 0 <= i < group@[l].len() ==> {
                    &&& initial_weights((#[trigger] group@[l][i])@, inputs as nat, init)
                    &&& group@[l][i].squashing() == Activation::Logistic
                },
    {
        let mut layers: Vec<Vec<Layer>> = Vec::new();
        let mut level: u32 = 0;
        while level < depth
            invariant
                level <= depth,
                depth > 0 ==> pow(inputs as int, (depth - 1) as nat) <= usize::MAX,
                layers@.len() == level,
                forall|l: int|
                    0 <= l < level ==> (#[trigger] layers@[l])@.len() == pow(
                        inputs as int,
                        (depth - 1 - l) as nat,
                    ),
                forall|l: int, i: int|
                    0 <= l < level && 0 <= i < layers@[l]@.len() ==> {
                        &&& initial_weights((#[trigger] layers@[l]@[i])@, inputs as nat, init)
                        &&& layers@[l]@[i].squashing() == Activation::Logistic
                    },
            decreases depth - level,
        {
            let count = power(inputs, depth - 1 - level, depth - 1);
            let mut units: Vec<Layer> = Vec::new();
            while units.len() < count
                invariant
                    units@.len() <= count,
                    forall|i: int|
                        0 <= i < units@.len() ==> {
                            &&& initial_weights((#[trigger] units@[i])@, inputs as nat, init)
                            &&& units@[i].squashing() == Activation::Logistic
                        },
                decreases count - units@.len(),
            {
                units.push(Layer::new(inputs, init));
            }
            layers.push(units);
            level = level + 1;
        }
        proof {
            lemma_pow0(inputs as int);
        }
        Group { layers, input_length: inputs }
    }

    /// The number of levels.
    pub fn depth(&self) -> (n: usize)
        ensures
            n == self@.len(),
    {
        self.layers.len()
    }

    /// The number of inputs of every unit.
    pub fn input_length(&self) -> (n: usize)
        ensures
            n == self.width(),
    {
        self.input_length
    }

    /// The unit at position `index` of level `level`, if there is one.
    pub fn unit(&self, level: usize, index: usize) -> (unit: Option<&Layer>)
        ensures
            unit is Some <==> level < self@.len() && index < self@[level as int].len(),
            unit matches Some(u) ==> *u == self@[level as int][index as int] && u@.len()
                == self.width(),
    {
        proof {
            use_type_invariant(self);
        }
        if level < self.layers.len() && index < self.layers[level].len() {
            Some(&self.layers[level][index])
        } else {
            None
        }
    }

    /// Puts `unit` at position `index` of level `level`, where its training
    /// is done outside the tree. Nothing happens, and the answer is `false`,
    /// when there is no such position or the unit has another number of
    /// weights than the tree's units have.
    pub fn set_unit(&mut self, level: usize, index: usize, unit: Layer) -> (done: bool)
        ensures
            done <==> level < old(self)@.len() && index < old(self)@[level as int].len()
                && unit@.len() == old(self).width(),
            final(self).width() == old(self).width(),
            done ==> final(self)@ == old(self)@.update(
                level as int,
                old(self)@[level as int].update(index as int, unit),
            ),
            !done ==> final(self)@ == old(self)@,
    {
        proof {
            use_type_invariant(&*self);
        }
        if level < self.layers.len() && index < self.layers[level].len() && unit.weights().len()
            == self.input_length {
            let ghost before = self@;
            let mut layers: Vec<Vec<Layer>> = Vec::new();
            core::mem::swap(&mut self.layers, &mut layers);
            layers[level][index] = unit;
            proof {
                let after = Seq::new(layers@.len(), |l: int| layers@[l]@);
                assert(after =~= before.update(
                    level as int,
                    before[level as int].update(index as int, unit),
                ));
                lemma_replaced_unit(before, self.width(), level as int, index as int, unit);
            }
            self.layers = layers;
            true
        } else {
            false
        }
    }

    /// Sends `input` through the levels in order and returns the raw sums
    /// of the last level; without levels, the input itself.
    ///
    /// Each level turns the values before it into one raw sum per unit; the
    /// decisions of the units in between play no part. The input must hold
    /// at least one window for every unit of the first level.
    pub fn output(&self, input: &[Fixed]) -> (result: Vec<Fixed>)
        requires
            fan_in(self@, self.width()) <= input@.len(),
        ensures
            result@ == forward(self@, input@, self.width()),
            self@.len() > 0 ==> result@.len() == 1,
    {
        proof {
            use_type_invariant(self);
            lemma_pow0(self.width() as int);
        }
        let mut working: Vec<Fixed> = slice_to_vec(input);
        let mut level: usize = 0;
        while level < self.layers.len()
            invariant
                is_tree(self@, self.width()),
                self@.len() == self.layers@.len(),
                forall|l: int|
                    0 <= l < self.layers@.len() ==> (#[trigger] self.layers@[l])@ == self@[l],
                level <= self.layers@.len(),
                working@ == forward(self@.take(level as int), input@, self.width()),
                level < self@.len() ==> self@[level as int].len() * self.width() <= working@.len(),
                level > 0 ==> working@.len() == self@[level - 1].len(),
            decreases self.layers@.len() - level,
        {
            let units = &self.layers[level];
            let mut outputs: Vec<Fixed> = Vec::new();
            let mut index: usize = 0;
            while index < units.len()
                invariant
                    level < self@.len(),
                    units@ == self@[level as int],
                    units@.len() * self.input_length <= working.len(),
                    self.width() == self.input_length,
                    forall|i: int|
                        0 <= i < units@.len() ==> (#[trigger] units@[i])@.len() == self.width(),
                    index <= units@.len(),
                    outputs@.len() == index,
                    forall|i: int|
                        0 <= i < index ==> #[trigger] outputs@[i] == weighted_sum(
                            units@[i]@,
                            working@.subrange(i * self.width(), (i + 1) * self.width()),
                        ),
                decreases units@.len() - index,
            {
                proof {
                    lemma_window(index as int, units@.len() as int, self.input_length as int);
                }
                let offset = index * self.input_length;
                let window = slice_subrange(working.as_slice(), offset, offset + self.input_length);
                outputs.push(units[index].output(window).0);
                index = index + 1;
            }
            proof {
                assert(self@.take(level + 1).drop_last() =~= self@.take(level as int));
                if level + 1 < self@.len() {
                    lemma_level_sizes(self@, self.width(), level as int);
                }
            }
            working = outputs;
            level = level + 1;
        }
        assert(self@.take(level as int) =~= self@);
        working
    }

    /// What `output` returns, or `None` when the input is too short to hold
    /// a window for every unit of the first level.
    pub fn checked_output(&self, input: &[Fixed]) -> (result: Option<Vec<Fixed>>)
        ensures
            result is Some <==> fan_in(self@, self.width()) <= input@.len(),
            result matches Some(values) ==> values@ == forward(self@, input@, self.width()),
    {
        if self.layers.len() == 0 {
            return Some(self.output(input));
        }
        let given = input.len();
        assert(self@[0] == self.layers@[0]@);
        match self.layers[0].len().checked_mul(self.input_length) {
            Some(needed) => {
                if needed <= given {
                    Some(self.output(input))
                } else {
                    None
                }
            },
            None => None,
        }
    }
}

/// `base` to the power of `exponent`, where the power for the larger
/// exponent `bound` is known to fit.
fn power(base: usize, exponent: u32, bound: u32) -> (p: usize)
    requires
        exponent <= bound,
        pow(base as int, bound as nat) <= usize::MAX,
    ensures
        p == pow(base as int, exponent as nat),
{
    let mut p: usize = 1;
    let mut done: u32 = 0;
    proof {
        lemma_pow0(base as int);
    }
    while done < exponent
        invariant
            done <= exponent <= bound,
            pow(base as int, bound as nat) <= usize::MAX,
            p == pow(base as int, done as nat),
        decreases exponent - done,
    {
        proof {
            reveal(pow);
            assert(p * base == base * p) by (nonlinear_arith);
            if base > 0 {
                lemma_pow_increases(base as nat, (done + 1) as nat, bound as nat);
            } else {
                assert(p * base == 0) by (nonlinear_arith)
                    requires
                        base == 0,
                ;
            }
        }
        p = p * base;
        done = done + 1;
    }
    p
}

/// A tree stays a tree when one of its units makes room for another unit
/// with as many weights.
proof fn lemma_replaced_unit(
    levels: Seq<Seq<Layer>>,
    width: nat,
    level: int,
    index: int,
    unit: Layer,
)
    requires
        is_tree(levels, width),
        0 <= level < levels.len(),
        0 <= index < levels[level].len(),
        unit@.len() == width,
    ensures
        is_tree(levels.update(level, levels[level].update(index, unit)), width),
{
    let after = levels.update(level, levels[level].update(index, unit));
    assert forall|l: int| 0 <= l < after.len() implies (#[trigger] after[l]).len()
        == levels[l].len() by {}
    assert forall|l: int, i: int| 0 <= l < after.len() && 0 <= i < after[l].len() implies (
    #[trigger] after[l][i])@.len() == width by {
        if l != level || i != index {
            assert(after[l][i] == levels[l][i]);
        }
    }
}

/// What comes out of a tree with at least one level is a single value.
pub proof fn lemma_single_output(levels: Seq<Seq<Layer>>, input: Seq<Fixed>, width: nat)
    requires
        is_tree(levels, width),
        levels.len() > 0,
    ensures
        forward(levels, input, width).len() == 1,
{
    lemma_pow0(width as int);
}

/// In a complete tree, a level holds as many units as the next level reads
/// values.
proof fn lemma_level_sizes(levels: Seq<Seq<Layer>>, width: nat, level: int)
    requires
        is_tree(levels, width),
        0 <= level,
        level + 1 < levels.len(),
    ensures
        levels[level].len() == levels[level + 1].len() * width,
{
    let e = (levels.len() - 1 - (level + 1)) as nat;
    reveal(pow);
    assert(width * pow(width as int, e) == pow(width as int, e) * width) by (nonlinear_arith);
}

/// The window of unit `index` lies within the values that `count` units read.
proof fn lemma_window(index: int, count: int, width: int)
    requires
        0 <= index < count,
        0 <= width,
    ensures
        0 <= index * width,
        index * width + width == (index + 1) * width,
        (index + 1) * width <= count * width,
{
    assert(0 <= index * width) by (nonlinear_arith)
        requires
            0 <= index,
            0 <= width,
    ;
    assert(index * width + width == (index + 1) * width) by (nonlinear_arith);
    assert((index + 1) * width <= count * width) by (nonlinear_arith)
        requires
            index + 1 <= count,
            0 <= width,
    ;
}

} // verus!
