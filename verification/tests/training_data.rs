use perceptron::fixed::Fixed;
use perceptron::training_data::{TrainingData, TrainingDataError};
use rand::Rng;

fn fx(x: f64) -> Fixed {
    Fixed::from_raw((x * 4294967296.0).round() as i64)
}

fn pairs(raw: Vec<(Vec<f64>, f64)>) -> Vec<(Vec<Fixed>, Fixed)> {
    raw.into_iter()
        .map(|(input, output)| (input.into_iter().map(fx).collect(), fx(output)))
        .collect()
}

#[test]
fn tryfrom_implementation() {
    // Test well formatted learning data.
    TrainingData::try_from(pairs(vec![
        (vec![0.0, 0.0], 0.0),
        (vec![0.0, 1.0], 1.0),
        (vec![1.0, 0.0], 1.0),
        (vec![1.0, 1.0], 0.0),
    ]))
    .unwrap();

    let data = TrainingData::try_from(pairs(vec![]));
    assert_eq!(data, Err(TrainingDataError::EmptyData));

    let data = TrainingData::try_from(pairs(vec![(vec![], 0.0)]));
    assert_eq!(data, Err(TrainingDataError::EmptyData));

    // Test one entry containing more elements than the rest.
    let data = TrainingData::try_from(pairs(vec![
        (vec![0.0, 0.0], 0.0),
        (vec![0.0, 1.0, 1.0], 1.0),
        (vec![1.0, 0.0], 1.0),
        (vec![1.0, 1.0], 0.0),
    ]));

    assert_eq!(data, Err(TrainingDataError::LengthMismatch(1, 3)));
}

#[test]
fn add_input_fn_implementation() {
    // Test adding random numbers to the input data.
    let mut training_data =
        TrainingData::try_from(pairs(vec![(vec![0.0, 0.0], 0.0), (vec![0.0, 0.0], 0.0)])).unwrap();
    training_data.add_input_fn(|rng| fx(rng.gen::<f64>() / 10.0));

    for i in training_data.inner() {
        for k in &i.input {
            assert_eq!(*k <= fx(0.1), true);
        }
    }
}

#[test]
fn add_input_fn_shifts_every_input_scalar() {
    let mut data = TrainingData::try_from(pairs(vec![
        (vec![0.0, 1.0, -2.0], 0.5),
        (vec![0.25, 0.5, 0.75], 1.0),
    ]))
    .unwrap();
    data.add_input_fn(|_| fx(0.25));
    let records = data.inner();
    assert_eq!(records.len(), 2);
    assert_eq!(records[0].input, vec![fx(0.25), fx(1.25), fx(-1.75)]);
    assert_eq!(records[0].output, fx(0.5));
    assert_eq!(records[1].input, vec![fx(0.5), fx(0.75), fx(1.0)]);
    assert_eq!(records[1].output, fx(1.0));
    assert_eq!(data.input_length(), 3);
    assert_eq!(data.record_count(), 2);
}

#[test]
fn add_input_fn_saturates() {
    let mut data =
        TrainingData::try_from(vec![(vec![Fixed::from_raw(i64::MAX - 1)], fx(0.0))]).unwrap();
    data.add_input_fn(|_| Fixed::from_raw(5));
    assert_eq!(data.inner()[0].input[0].raw(), i64::MAX);
}

#[test]
fn input_length_is_that_of_the_first_record() {
    let data = TrainingData::try_from(pairs(vec![
        (vec![0.0, 0.0, 1.0], 0.0),
        (vec![0.0, 1.0, 1.0], 1.0),
    ]))
    .unwrap();
    assert_eq!(data.input_length(), 3);
    assert_eq!(data.input_length(), data.inner()[0].input.len());
    assert_eq!(data.record_count(), 2);
    assert_eq!(data.inner()[1].input, vec![fx(0.0), fx(1.0), fx(1.0)]);
    assert_eq!(data.inner()[1].output, fx(1.0));
}

#[test]
fn length_mismatch_names_the_first_offender() {
    let data = TrainingData::try_from(pairs(vec![
        (vec![0.0, 0.0], 0.0),
        (vec![0.0, 1.0], 1.0),
        (vec![1.0], 1.0),
        (vec![1.0, 1.0, 1.0, 1.0], 0.0),
    ]));
    assert_eq!(data, Err(TrainingDataError::LengthMismatch(2, 1)));

    // An empty input after the first pair is a mismatch, not empty data.
    let data = TrainingData::try_from(pairs(vec![(vec![0.0], 0.0), (vec![], 1.0)]));
    assert_eq!(data, Err(TrainingDataError::LengthMismatch(1, 0)));
}

#[test]
fn add_inputs_adds_value_by_value() {
    let mut data = TrainingData::try_from(pairs(vec![
        (vec![0.0, 1.0, -2.0], 0.5),
        (vec![0.25, 0.5, 0.75], 1.0),
    ]))
    .unwrap();
    let noise = vec![
        vec![fx(0.5), fx(-1.0), fx(0.0)],
        vec![fx(0.125), fx(0.25), fx(-0.75)],
    ];
    assert!(data.add_inputs(&noise));
    let records = data.inner();
    assert_eq!(records[0].input, vec![fx(0.5), fx(0.0), fx(-2.0)]);
    assert_eq!(records[0].output, fx(0.5));
    assert_eq!(records[1].input, vec![fx(0.375), fx(0.75), fx(0.0)]);
    assert_eq!(records[1].output, fx(1.0));
    assert_eq!(data.input_length(), 3);
    assert_eq!(data.record_count(), 2);
}

#[test]
fn add_inputs_refuses_noise_of_another_shape() {
    let given = pairs(vec![(vec![0.0, 1.0], 0.5), (vec![0.25, 0.5], 1.0)]);
    let mut data = TrainingData::try_from(given.clone()).unwrap();
    let untouched = TrainingData::try_from(given).unwrap();
    assert!(!data.add_inputs(&vec![]));
    assert!(!data.add_inputs(&vec![vec![fx(1.0), fx(1.0)]]));
    assert!(!data.add_inputs(&vec![vec![fx(1.0), fx(1.0)], vec![fx(1.0)]]));
    assert!(!data.add_inputs(&vec![
        vec![fx(1.0), fx(1.0)],
        vec![fx(1.0), fx(1.0), fx(1.0)]
    ]));
    assert!(!data.add_inputs(&vec![
        vec![fx(1.0), fx(1.0)],
        vec![fx(1.0), fx(1.0)],
        vec![]
    ]));
    assert_eq!(data, untouched);
    assert!(data.add_inputs(&vec![vec![fx(0.0), fx(0.0)], vec![fx(0.0), fx(0.0)]]));
    assert_eq!(data, untouched);
}

#[test]
fn add_input_fn_adds_what_add_inputs_adds() {
    let given = pairs(vec![(vec![0.0, 1.0], 0.5), (vec![0.25, 0.5], 1.0)]);
    let mut by_function = TrainingData::try_from(given.clone()).unwrap();
    let mut by_table = TrainingData::try_from(given).unwrap();
    by_function.add_input_fn(|_| fx(-0.125));
    assert!(by_table.add_inputs(&vec![vec![fx(-0.125); 2]; 2]));
    assert_eq!(by_function, by_table);
}
