use river::elimination::{are_elimination_inputs, eliminate, plan_elimination};
use river::error::PlanError;
use river::matrix::Matrix;
use river::planner::{check_operations, schedule, ConflictRule, Planner, RowOperation};
use river::scalar::Scalar;

fn num(x: f64) -> Scalar {
    Scalar::from_bits(x.to_bits())
}

fn square(values: &[f64], order: usize) -> Matrix {
    assert_eq!(values.len(), order * order);
    Matrix::new(values.iter().map(|x| num(*x)).collect(), (order, order))
}

fn multipliers(values: &[f64], order: usize) -> Matrix {
    let mut entries = vec![0.0; order * order];
    for pivot in 0..order {
        for row in pivot + 1..order {
            entries[row * order + pivot] =
                -(values[row * order + pivot] / values[pivot * order + pivot]);
        }
    }
    square(&entries, order)
}

fn step(pivot: usize, row: usize, factor: f64) -> RowOperation {
    RowOperation {
        row_operand_idx1: pivot,
        row_operand_idx2: row,
        destination_row_idx: row,
        factor1: num(factor),
        factor2: num(1.0),
    }
}

const FOUR: [f64; 16] = [
    1.0, -1.0, -1.0, 1.0, //
    0.0, -1.0, -2.0, 0.0, //
    2.0, 0.0, 2.0, 0.0, //
    3.0, -3.0, -2.0, 4.0,
];

#[test]
fn four_by_four_gives_six_operations() {
    let operations = eliminate(&square(&FOUR, 4), &multipliers(&FOUR, 4)).unwrap();
    assert_eq!(
        operations,
        vec![
            step(0, 1, -0.0),
            step(0, 2, -2.0),
            step(0, 3, -3.0),
            step(1, 2, 0.0),
            step(1, 3, -3.0),
            step(2, 3, 1.0),
        ]
    );
}

#[test]
fn four_by_four_batches_follow_the_pivot_columns() {
    let operations = eliminate(&square(&FOUR, 4), &multipliers(&FOUR, 4)).unwrap();
    let expected = vec![
        vec![step(0, 1, -0.0), step(0, 2, -2.0), step(0, 3, -3.0)],
        vec![step(1, 2, 0.0), step(1, 3, -3.0)],
        vec![step(2, 3, 1.0)],
    ];
    assert_eq!(schedule(&operations, ConflictRule::DestinationOnly), expected);
    assert_eq!(schedule(&operations, ConflictRule::DestinationAndSources), expected);

    let mut planner = Planner::new();
    for operation in &operations {
        planner.add_operation(*operation);
    }
    planner.optimize();
    assert_eq!(planner.optimized_operations, expected);
    let first: Vec<usize> =
        planner.optimized_operations[0].iter().map(|o| o.destination_row_idx).collect();
    assert_eq!(first, vec![1, 2, 3]);
    assert!(planner.optimized_operations[0].iter().all(|o| o.row_operand_idx1 == 0));
}

#[test]
fn operations_come_in_increasing_order() {
    for order in 0..7usize {
        let mut values = vec![1.0; order * order];
        for i in 0..order {
            values[i * order + i] = 2.0 + i as f64;
        }
        let operations = eliminate(&square(&values, order), &multipliers(&values, order)).unwrap();
        assert_eq!(operations.len(), order * order.saturating_sub(1) / 2);
        for pair in operations.windows(2) {
            let before = (pair[0].row_operand_idx1, pair[0].destination_row_idx);
            let after = (pair[1].row_operand_idx1, pair[1].destination_row_idx);
            assert!(before < after);
        }
        for operation in &operations {
            assert!(operation.row_operand_idx1 < operation.destination_row_idx);
            assert_eq!(operation.row_operand_idx2, operation.destination_row_idx);
            assert_eq!(operation.factor2, Scalar::one());
        }
        assert_eq!(check_operations(&operations, order), Ok(()));
    }
}

#[test]
fn multiplier_is_taken_from_its_row_and_column() {
    let matrix = square(&[2.0, 1.0, 1.0, 4.0, 3.0, 1.0, 6.0, 5.0, 7.0], 3);
    let factors = square(&[0.0, 0.0, 0.0, 11.0, 0.0, 0.0, 12.0, 13.0, 0.0], 3);
    assert_eq!(
        eliminate(&matrix, &factors),
        Ok(vec![step(0, 1, 11.0), step(0, 2, 12.0), step(1, 2, 13.0)])
    );
}

#[test]
fn zero_pivot_is_singular() {
    let values = [1.0, 0.0, 0.0, 0.0];
    assert_eq!(
        eliminate(&square(&values, 2), &multipliers(&values, 2)),
        Err(PlanError::SingularPivot { pivot: 1 })
    );
}

#[test]
fn negative_zero_pivot_is_singular() {
    let matrix = square(&[-0.0, 1.0, 1.0, 1.0], 2);
    let factors = square(&[0.0, 0.0, 1.0, 0.0], 2);
    assert_eq!(eliminate(&matrix, &factors), Err(PlanError::SingularPivot { pivot: 0 }));
}

#[test]
fn first_zero_pivot_is_reported() {
    let values = [
        1.0, 2.0, 3.0, //
        4.0, 0.0, 6.0, //
        7.0, 8.0, 0.0,
    ];
    assert_eq!(
        eliminate(&square(&values, 3), &multipliers(&values, 3)),
        Err(PlanError::SingularPivot { pivot: 1 })
    );
}

#[test]
fn multiplier_that_is_not_finite_is_singular() {
    let values = [1e-320, 1.0, 1e300, 1.0];
    let factors = multipliers(&values, 2);
    assert!(f64::from_bits(factors.get_element(1, 0).to_bits()).is_infinite());
    assert_eq!(
        eliminate(&square(&values, 2), &factors),
        Err(PlanError::SingularPivot { pivot: 0 })
    );
    let matrix = square(&[1.0, 1.0, 1.0, 1.0], 2);
    let with_nan = square(&[0.0, 0.0, f64::NAN, 0.0], 2);
    assert_eq!(eliminate(&matrix, &with_nan), Err(PlanError::SingularPivot { pivot: 0 }));
}

#[test]
fn entries_on_and_above_the_diagonal_are_not_read() {
    let matrix = square(&[1.0, 1.0, 1.0, 1.0], 2);
    let factors = square(&[f64::NAN, f64::INFINITY, -1.0, f64::NAN], 2);
    assert_eq!(eliminate(&matrix, &factors), Ok(vec![step(0, 1, -1.0)]));
}

#[test]
fn orders_zero_and_one_give_no_operations() {
    assert_eq!(eliminate(&square(&[], 0), &square(&[], 0)), Ok(Vec::new()));
    assert_eq!(eliminate(&square(&[5.0], 1), &square(&[0.0], 1)), Ok(Vec::new()));
    assert_eq!(
        eliminate(&square(&[0.0], 1), &square(&[0.0], 1)),
        Err(PlanError::SingularPivot { pivot: 0 })
    );
}

#[test]
fn elimination_schedule_has_one_batch_per_column() {
    for order in 2..7usize {
        let mut values = vec![1.0; order * order];
        for i in 0..order {
            values[i * order + i] = 3.0;
        }
        let operations = eliminate(&square(&values, order), &multipliers(&values, order)).unwrap();
        for rule in [ConflictRule::DestinationOnly, ConflictRule::DestinationAndSources] {
            let batches = schedule(&operations, rule);
            assert_eq!(batches.len(), order - 1);
            for (pivot, batch) in batches.iter().enumerate() {
                assert_eq!(batch.len(), order - 1 - pivot);
                for (k, operation) in batch.iter().enumerate() {
                    assert_eq!(operation.row_operand_idx1, pivot);
                    assert_eq!(operation.destination_row_idx, pivot + 1 + k);
                }
            }
        }
    }
}

#[test]
fn plan_elimination_schedules_the_recorded_operations() {
    let matrix = square(&FOUR, 4);
    let factors = multipliers(&FOUR, 4);
    let operations = eliminate(&matrix, &factors).unwrap();
    for rule in [ConflictRule::DestinationOnly, ConflictRule::DestinationAndSources] {
        assert_eq!(plan_elimination(&matrix, &factors, rule), Ok(schedule(&operations, rule)));
    }
    assert_eq!(
        plan_elimination(&matrix, &factors, ConflictRule::DestinationOnly).unwrap(),
        vec![
            vec![step(0, 1, -0.0), step(0, 2, -2.0), step(0, 3, -3.0)],
            vec![step(1, 2, 0.0), step(1, 3, -3.0)],
            vec![step(2, 3, 1.0)],
        ]
    );
}

#[test]
fn plan_elimination_of_small_orders_is_one_empty_batch() {
    assert_eq!(
        plan_elimination(&square(&[], 0), &square(&[], 0), ConflictRule::DestinationOnly),
        Ok(vec![Vec::new()])
    );
    assert_eq!(
        plan_elimination(&square(&[2.0], 1), &square(&[0.0], 1), ConflictRule::DestinationOnly),
        Ok(vec![Vec::new()])
    );
}

#[test]
fn plan_elimination_fails_where_eliminate_fails() {
    let values = [1.0, 0.0, 0.0, 0.0];
    assert_eq!(
        plan_elimination(
            &square(&values, 2),
            &multipliers(&values, 2),
            ConflictRule::DestinationAndSources
        ),
        Err(PlanError::SingularPivot { pivot: 1 })
    );
}

#[test]
fn elimination_inputs_are_square_and_of_one_order() {
    let two = square(&[1.0, 2.0, 3.0, 4.0], 2);
    let three = square(&[1.0; 9], 3);
    let wide = Matrix::new(vec![num(1.0); 6], (2, 3));
    let short = Matrix { elements: vec![num(1.0); 3], dimensions: (2, 2) };
    assert!(are_elimination_inputs(&two, &two));
    assert!(!are_elimination_inputs(&two, &three));
    assert!(!are_elimination_inputs(&wide, &wide));
    assert!(!are_elimination_inputs(&short, &two));
    assert!(!are_elimination_inputs(&two, &short));
}
