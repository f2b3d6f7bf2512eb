//! Linear-threshold learning units and small feed-forward trees built from
//! them.
//!
//! A unit ([`layer::Layer`]) holds one weight per input. It answers an input
//! with the weighted sum of the input and with the decision whether that sum
//! lies above one half. It is trained on a dataset
//! ([`training_data::TrainingData`]) by the delta rule, either with a fixed
//! learning rate or with a search for a rate by repeated halving. A tree
//! ([`group::Group`]) arranges units in levels that narrow to one unit and
//! sends an input through the levels.
//!
//! All numbers are fixed-point numbers ([`fixed::Fixed`]) with 32 fractional
//! bits, whose arithmetic rounds to the nearest representable number and
//! saturates. What a function returns is therefore an exact function of its
//! arguments, which the module [`learning`] writes down.

pub mod activation;
pub mod fixed;
pub mod group;
pub mod layer;
pub mod learning;
pub mod random;
pub mod training_data;
pub mod vec_additions;
