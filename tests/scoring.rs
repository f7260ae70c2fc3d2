use permutation_importance::score::{
    check_sizes, checked_predictions, checked_predictions_with_permuted_column, Model, ScoreError, ScoreKind,
};

struct RowSum;

impl Model<f64> for RowSum {
    fn spec_predict(&self, _x: vstd::seq::Seq<vstd::seq::Seq<f64>>) -> vstd::seq::Seq<f64> {
        panic!("a specification item, never run")
    }

    fn predict(&self, x: &Vec<Vec<f64>>) -> Vec<f64> {
        x.iter().map(|row| row.iter().sum()).collect()
    }
}

#[test]
fn sizes_agree() {
    assert_eq!(check_sizes(3, 3), Ok(()));
    assert_eq!(check_sizes(1, 1), Ok(()));
}

#[test]
fn sizes_mismatch() {
    assert_eq!(check_sizes(2, 3), Err(ScoreError::LengthMismatch));
    assert_eq!(check_sizes(4, 3), Err(ScoreError::LengthMismatch));
}

#[test]
fn sizes_empty() {
    assert_eq!(check_sizes(0, 0), Err(ScoreError::EmptyInput));
    assert_eq!(check_sizes(0, 3), Err(ScoreError::EmptyInput));
}

#[test]
fn empty_targets_with_empty_matrix() {
    let x: Vec<Vec<f64>> = vec![];
    let y: Vec<f64> = vec![];
    assert_eq!(checked_predictions(&RowSum, &x, &y), Err(ScoreError::EmptyInput));
}

#[test]
fn empty_targets_with_three_rows() {
    let x = vec![vec![1.0, 0.0, 3.0], vec![4.0, 0.0, 6.0], vec![7.0, 0.0, 9.0]];
    let y: Vec<f64> = vec![];
    assert_eq!(checked_predictions(&RowSum, &x, &y), Err(ScoreError::EmptyInput));
    assert_eq!(
        checked_predictions_with_permuted_column(&RowSum, &x, 3, 0, &vec![2, 1, 0], &y),
        Err(ScoreError::EmptyInput)
    );
}

#[test]
fn three_rows_two_targets_mismatch() {
    let x = vec![vec![1.0, 0.0, 3.0], vec![4.0, 0.0, 6.0], vec![7.0, 0.0, 9.0]];
    let y = vec![4.0, 10.0];
    assert_eq!(checked_predictions(&RowSum, &x, &y), Err(ScoreError::LengthMismatch));
}

#[test]
fn predictions_when_sizes_agree() {
    let x = vec![vec![1.0, 0.0, 3.0], vec![4.0, 0.0, 6.0], vec![7.0, 0.0, 9.0]];
    let y = vec![4.0, 10.0, 16.0];
    assert_eq!(checked_predictions(&RowSum, &x, &y), Ok(vec![4.0, 10.0, 16.0]));
}

#[test]
fn ideal_scores() {
    assert_eq!(ScoreKind::Acc.ideal_score(), 100);
    assert_eq!(ScoreKind::Mae.ideal_score(), 0);
    assert_eq!(ScoreKind::Mse.ideal_score(), 0);
    assert_eq!(ScoreKind::Rmse.ideal_score(), 0);
    assert_eq!(ScoreKind::Smape.ideal_score(), 0);
}

#[test]
fn default_fast_path_permutes_one_column() {
    let x = vec![vec![1.0, 10.0], vec![2.0, 20.0], vec![3.0, 30.0]];
    let p = RowSum.predict_with_permuted_column(&x, 2, 1, &vec![2, 0, 1]);
    assert_eq!(p, vec![31.0, 12.0, 23.0]);
}

#[test]
fn fast_path_checks_sizes() {
    let x = vec![vec![1.0, 10.0], vec![2.0, 20.0], vec![3.0, 30.0]];
    let perm = vec![1, 2, 0];
    assert_eq!(
        checked_predictions_with_permuted_column(&RowSum, &x, 2, 0, &perm, &vec![0.0, 0.0]),
        Err(ScoreError::LengthMismatch)
    );
    assert_eq!(
        checked_predictions_with_permuted_column(&RowSum, &x, 2, 0, &perm, &vec![0.0, 0.0, 0.0]),
        Ok(vec![12.0, 23.0, 31.0])
    );
}

#[test]
fn identity_permutation_changes_nothing() {
    let x = vec![vec![1.0, 10.0], vec![2.0, 20.0], vec![3.0, 30.0]];
    let y = vec![0.0, 0.0, 0.0];
    for col in 0..2 {
        assert_eq!(
            checked_predictions_with_permuted_column(&RowSum, &x, 2, col, &vec![0, 1, 2], &y),
            checked_predictions(&RowSum, &x, &y)
        );
    }
}
