use perceptron::fixed::Fixed;
use perceptron::group::Group;
use perceptron::layer::{Layer, LayerInit};
use perceptron::training_data::TrainingData;

fn fx(x: f64) -> Fixed {
    Fixed::from_raw((x * 4294967296.0).round() as i64)
}

fn as_float(x: Fixed) -> f64 {
    x.raw() as f64 / 4294967296.0
}

fn dataset(raw: Vec<(Vec<f64>, f64)>) -> TrainingData {
    let pairs: Vec<(Vec<Fixed>, Fixed)> = raw
        .into_iter()
        .map(|(input, output)| (input.into_iter().map(fx).collect(), fx(output)))
        .collect();
    TrainingData::try_from(pairs).unwrap()
}

fn exclusive_data() -> [TrainingData; 2] {
    [
        dataset(vec![
            (vec![0.0, 0.0], 0.0),
            (vec![0.2, 0.0], 0.0),
            (vec![0.5, 0.0], 1.0),
            (vec![0.7, 0.0], 1.0),
        ]),
        dataset(vec![
            (vec![0.0, 0.0], 0.0),
            (vec![0.0, 0.2], 0.0),
            (vec![0.0, 0.5], 1.0),
            (vec![0.0, 0.7], 1.0),
        ]),
    ]
}

fn or_data() -> TrainingData {
    dataset(vec![
        (vec![0.0, 0.0], 0.0),
        (vec![1.0, 0.2], 1.0),
        (vec![0.2, 1.0], 1.0),
        (vec![1.0, 1.0], 1.0),
    ])
}

// Demonstrates that xor is actually learn-able by multiple layers cooperating.
#[test]
fn group_basic() {
    let mut network = Group::new(2, 2, LayerInit::Threshold);

    // Train the exclusive nodes first.
    let first_data = exclusive_data();

    let first_level: Vec<Layer> = (0..2)
        .map(|index| network.unit(0, index).unwrap().clone())
        .collect();
    for (index, mut i) in first_level.into_iter().enumerate() {
        i.train_optimizer(&first_data[index], fx(0.055)..fx(0.3), fx(0.3))
            .0
            .unwrap();
    }

    // Train the or node.
    let second_data = or_data();

    let mut or_node = network.unit(1, 0).unwrap().clone();
    or_node
        .train_optimizer(&second_data, fx(0.055)..fx(0.3), fx(0.3))
        .0
        .unwrap();
    assert!(network.set_unit(1, 0, or_node));

    let test_data = [
        ([0.0, 0.0, 0.0, 0.0], 0.0),
        ([0.0, 1.0, 0.0, 1.0], 1.0),
        ([1.0, 0.0, 1.0, 0.0], 1.0),
        ([0.0, 0.0, 0.0, 0.0], 0.0),
    ];

    for i in test_data {
        let input: Vec<Fixed> = i.0.iter().map(|x| fx(*x)).collect();
        let result = network.output(&input);

        println!("{:?} -> {:.6}", i, as_float(result[0]));
        assert_eq!(result[0] > fx(0.5), i.1 > 0.5);
    }
}

/// A tree whose hidden units and output unit were all trained answers the
/// rows of the exclusive or that have at most one input set. With both
/// inputs set the hidden units pass both their sums on, and the output unit
/// adds them up.
#[test]
fn trained_tree_separates_single_inputs() {
    let mut network = Group::new(2, 2, LayerInit::Threshold);
    let first_data = exclusive_data();
    for index in 0..2 {
        let mut unit = network.unit(0, index).unwrap().clone();
        unit.train_optimizer(&first_data[index], fx(0.055)..fx(0.3), fx(0.3))
            .0
            .unwrap();
        assert!(network.set_unit(0, index, unit));
    }
    let mut or_node = network.unit(1, 0).unwrap().clone();
    or_node
        .train_optimizer(&or_data(), fx(0.055)..fx(0.3), fx(0.3))
        .0
        .unwrap();
    assert!(network.set_unit(1, 0, or_node));

    let rows = [
        ([0.0, 0.0], 0i64, false),
        ([0.0, 1.0], 8560223495, true),
        ([1.0, 0.0], 8561758121, true),
        ([1.0, 1.0], 17121981616, true),
    ];
    for (row, raw, decision) in rows {
        let input = [fx(row[0]), fx(row[1]), fx(row[0]), fx(row[1])];
        let result = network.output(&input);
        assert_eq!(result.len(), 1);
        assert_eq!(result[0].raw(), raw);
        assert_eq!(result[0] > fx(0.5), decision);
    }
}

#[test]
fn levels_narrow_to_one_unit() {
    let network = Group::new(3, 2, LayerInit::Threshold);
    assert_eq!(network.depth(), 3);
    assert_eq!(network.input_length(), 2);
    for (level, count) in [(0usize, 4usize), (1, 2), (2, 1)] {
        for index in 0..count {
            let unit = network.unit(level, index).unwrap();
            assert_eq!(unit.weights().len(), 2);
            assert_eq!(unit.weights()[0], fx(0.5));
        }
        assert!(network.unit(level, count).is_none());
    }
    assert!(network.unit(3, 0).is_none());
}

#[test]
fn untrained_tree_sums_level_by_level() {
    let network = Group::new(2, 2, LayerInit::Threshold);
    // Both hidden units answer 0.5 * 1 + 0.5 * 1, the output unit 0.5 * 1 + 0.5 * 1.
    let result = network.output(&[fx(1.0), fx(1.0), fx(1.0), fx(1.0)]);
    assert_eq!(result, vec![fx(1.0)]);
    // Each unit reads its own window: the second hidden unit sees (3, 4).
    let result = network.output(&[fx(1.0), fx(2.0), fx(3.0), fx(4.0)]);
    assert_eq!(result, vec![fx(2.5)]);
    // Values beyond the first level's windows play no part.
    let result = network.output(&[fx(1.0), fx(2.0), fx(3.0), fx(4.0), fx(100.0)]);
    assert_eq!(result, vec![fx(2.5)]);
}

#[test]
fn tree_without_levels_hands_the_input_back() {
    let network = Group::new(0, 2, LayerInit::Threshold);
    assert_eq!(network.depth(), 0);
    let input = [fx(0.25), fx(-3.0)];
    assert_eq!(network.output(&input), input.to_vec());
}

#[test]
fn set_unit_refuses_what_does_not_fit() {
    let mut network = Group::new(2, 2, LayerInit::Threshold);
    assert!(!network.set_unit(0, 2, Layer::new(2, LayerInit::Threshold)));
    assert!(!network.set_unit(2, 0, Layer::new(2, LayerInit::Threshold)));
    assert!(!network.set_unit(1, 0, Layer::new(3, LayerInit::Threshold)));
    let seeded = Layer::new(2, LayerInit::Seed(7));
    let weights = seeded.weights().clone();
    assert!(network.set_unit(0, 1, seeded));
    assert_eq!(network.unit(0, 1).unwrap().weights(), &weights);
    assert_eq!(network.unit(0, 0).unwrap().weights(), &vec![fx(0.5), fx(0.5)]);
}

#[test]
fn checked_output_needs_a_window_per_unit() {
    let network = Group::new(2, 2, LayerInit::Threshold);
    assert_eq!(network.checked_output(&[fx(1.0), fx(2.0), fx(3.0)]), None);
    assert_eq!(network.checked_output(&[]), None);
    assert_eq!(
        network.checked_output(&[fx(1.0), fx(2.0), fx(3.0), fx(4.0)]),
        Some(vec![fx(2.5)])
    );
    let flat = Group::new(0, 2, LayerInit::Threshold);
    assert_eq!(flat.checked_output(&[]), Some(vec![]));
    // Units without weights read nothing and answer zero.
    let hollow = Group::new(3, 0, LayerInit::Threshold);
    assert_eq!(hollow.checked_output(&[]), Some(vec![fx(0.0)]));
}
