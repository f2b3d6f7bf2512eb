use perceptron::fixed::Fixed;
use perceptron::vec_additions::ExtendedStatistics;

fn fx(x: f64) -> Fixed {
    Fixed::from_raw((x * 4294967296.0).round() as i64)
}

#[test]
fn mean_is_cut_toward_zero() {
    assert_eq!(vec![fx(1.0), fx(2.0), fx(6.0)].avg(), fx(3.0));
    assert_eq!(vec![fx(-1.5)].avg(), fx(-1.5));
    let raws =
        |values: &[i64]| -> Vec<Fixed> { values.iter().map(|v| Fixed::from_raw(*v)).collect() };
    assert_eq!(raws(&[1, 2]).avg().raw(), 1);
    assert_eq!(raws(&[-1, -2]).avg().raw(), -1);
    assert_eq!(raws(&[i64::MAX, i64::MAX, i64::MAX]).avg().raw(), i64::MAX);
    assert_eq!(raws(&[i64::MIN, i64::MIN]).avg().raw(), i64::MIN);
    assert_eq!(raws(&[i64::MIN, i64::MAX]).avg().raw(), 0);
}

#[test]
fn largest_and_smallest() {
    let values = vec![fx(0.5), fx(-2.0), fx(7.25), fx(7.0), fx(-2.0)];
    assert_eq!(ExtendedStatistics::max(&values), fx(7.25));
    assert_eq!(ExtendedStatistics::min(&values), fx(-2.0));
    let single = vec![fx(-0.125)];
    assert_eq!(ExtendedStatistics::max(&single), fx(-0.125));
    assert_eq!(ExtendedStatistics::min(&single), fx(-0.125));
}

#[test]
fn dup_repeats_in_order() {
    let mut values = vec![fx(1.0), fx(2.0)];
    assert_eq!(values.dup(3), vec![fx(1.0), fx(2.0), fx(1.0), fx(2.0), fx(1.0), fx(2.0)]);
    assert_eq!(values.dup(0), Vec::<Fixed>::new());
    assert_eq!(values, vec![fx(1.0), fx(2.0)]);
    let mut empty: Vec<Fixed> = Vec::new();
    assert_eq!(empty.dup(5), Vec::<Fixed>::new());
}
