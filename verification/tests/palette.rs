use wallfetch::palette::{longest_run, median, Reduction};
use wallfetch::reduction::{reduction_plan, Mix};

#[test]
fn longest_run_prefers_the_first_of_equal_runs() {
    assert_eq!(longest_run(&[]), None);
    assert_eq!(longest_run(&[false, false]), None);
    assert_eq!(longest_run(&[true]), Some((0, 0)));
    assert_eq!(longest_run(&[true, true, false, true, true]), Some((0, 1)));
    assert_eq!(
        longest_run(&[false, true, false, true, true, true, false, true]),
        Some((3, 5))
    );
    assert_eq!(longest_run(&[false, true, true, true]), Some((1, 3)));
}

#[test]
fn median_of_odd_and_even_counts() {
    let mut odd = vec![9, 1, 5];
    assert_eq!(median(&mut odd), 5);
    assert_eq!(odd, vec![1, 5, 9]);
    let mut even = vec![10, 1, 4, 200];
    // The mean of 4 and 10, rounded up.
    assert_eq!(median(&mut even), 7);
    let mut pair = vec![254, 255];
    assert_eq!(median(&mut pair), 255);
    let mut one = vec![42];
    assert_eq!(median(&mut one), 42);
}

#[test]
fn reduction_default_is_resample() {
    assert_eq!(Reduction::default(), Reduction::Resample);
}

#[test]
fn resample_plan_keeps_endpoints() {
    // Three sources to two outputs: the first and the last source.
    assert_eq!(
        reduction_plan(3, 2, Reduction::Resample),
        vec![
            Mix::Lerp { index: 0, numerator: 0, denominator: 1 },
            Mix::Source(2),
        ]
    );
    assert_eq!(
        reduction_plan(8, 5, Reduction::Resample),
        vec![
            Mix::Lerp { index: 0, numerator: 0, denominator: 4 },
            Mix::Lerp { index: 1, numerator: 7, denominator: 4 },
            Mix::Lerp { index: 3, numerator: 14, denominator: 4 },
            Mix::Lerp { index: 5, numerator: 21, denominator: 4 },
            Mix::Source(7),
        ]
    );
    assert_eq!(reduction_plan(1, 3, Reduction::Resample), vec![Mix::Source(0), Mix::Source(0), Mix::Source(0)]);
}

#[test]
fn single_output_is_the_average() {
    assert_eq!(reduction_plan(4, 1, Reduction::Mean), vec![Mix::Average]);
    assert_eq!(reduction_plan(4, 1, Reduction::Resample), vec![Mix::Average]);
    assert_eq!(reduction_plan(4, 0, Reduction::Resample), vec![]);
}

#[test]
fn mean_plan_weights_overlaps() {
    // Eight sources into five segments of 1.6 sources each; weights are
    // overlaps scaled by 5.
    assert_eq!(
        reduction_plan(8, 5, Reduction::Mean),
        vec![
            Mix::Weighted(vec![(0, 5), (1, 3)]),
            Mix::Weighted(vec![(1, 2), (2, 5), (3, 1)]),
            Mix::Weighted(vec![(3, 4), (4, 4)]),
            Mix::Weighted(vec![(4, 1), (5, 5), (6, 2)]),
            Mix::Weighted(vec![(6, 3), (7, 5)]),
        ]
    );
    assert_eq!(
        reduction_plan(2, 4, Reduction::Mean),
        vec![
            Mix::Weighted(vec![(0, 2)]),
            Mix::Weighted(vec![(0, 2)]),
            Mix::Weighted(vec![(1, 2)]),
            Mix::Weighted(vec![(1, 2)]),
        ]
    );
    assert_eq!(
        reduction_plan(0, 2, Reduction::Mean),
        vec![Mix::Weighted(vec![]), Mix::Weighted(vec![])]
    );
}
