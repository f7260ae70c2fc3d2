use permutation_importance::engine::{
    check_request, feature_trials, one_trial, trial_predictions, Config, ImportanceError, Opts,
};
use permutation_importance::permute::ShuffleScope;
use permutation_importance::score::{Model, ScoreError, ScoreKind};

struct RowSum;

impl Model<f64> for RowSum {
    fn spec_predict(&self, _x: vstd::seq::Seq<vstd::seq::Seq<f64>>) -> vstd::seq::Seq<f64> {
        panic!("a specification item, never run")
    }

    fn predict(&self, x: &Vec<Vec<f64>>) -> Vec<f64> {
        x.iter().map(|row| row.iter().sum()).collect()
    }
}

struct Constant;

impl Model<f64> for Constant {
    fn spec_predict(&self, _x: vstd::seq::Seq<vstd::seq::Seq<f64>>) -> vstd::seq::Seq<f64> {
        panic!("a specification item, never run")
    }

    fn predict(&self, x: &Vec<Vec<f64>>) -> Vec<f64> {
        vec![2.5; x.len()]
    }
}

fn example() -> Vec<Vec<f64>> {
    vec![vec![1.0, 0.0, 3.0], vec![4.0, 0.0, 6.0], vec![7.0, 0.0, 9.0]]
}

fn opts(kind: Option<ScoreKind>, n: Option<usize>) -> Opts {
    Opts { verbose: false, kind, n, only_means: true, scale: false }
}

#[test]
fn resolve_complete_options() {
    let o = Opts { verbose: true, kind: Some(ScoreKind::Smape), n: Some(100), only_means: true, scale: true };
    assert_eq!(
        o.resolve(),
        Ok(Config { kind: ScoreKind::Smape, n: 100, only_means: true, scale: true })
    );
}

#[test]
fn resolve_missing_kind() {
    assert_eq!(opts(None, Some(3)).resolve(), Err(ImportanceError::InvalidConfiguration));
}

#[test]
fn resolve_missing_trial_count() {
    assert_eq!(opts(Some(ScoreKind::Mae), None).resolve(), Err(ImportanceError::InvalidConfiguration));
}

#[test]
fn resolve_zero_trials() {
    assert_eq!(opts(Some(ScoreKind::Mae), Some(0)).resolve(), Err(ImportanceError::InvalidConfiguration));
}

#[test]
fn trial_count_is_kept() {
    let x = example();
    for n in [1usize, 7, 100] {
        let r = trial_predictions(&RowSum, &x, 3, ShuffleScope::Column(0), n);
        assert_eq!(r.len(), n);
        assert!(r.iter().all(|p| p.len() == 3));
    }
    assert!(trial_predictions(&RowSum, &x, 3, ShuffleScope::All, 0).is_empty());
}

#[test]
fn all_zero_column_never_changes_row_sums() {
    let x = example();
    let r = trial_predictions(&RowSum, &x, 3, ShuffleScope::Column(1), 100);
    assert!(r.iter().all(|p| *p == vec![4.0, 10.0, 16.0]));
}

#[test]
fn informative_columns_change_row_sums() {
    let x = example();
    for col in [0usize, 2] {
        let r = trial_predictions(&RowSum, &x, 3, ShuffleScope::Column(col), 100);
        assert!(r.iter().any(|p| *p != vec![4.0, 10.0, 16.0]));
        for p in &r {
            let total: f64 = p.iter().sum();
            assert_eq!(total, 30.0);
        }
    }
}

#[test]
fn ignored_features_leave_predictions_alone() {
    let x = example();
    for scope in [ShuffleScope::Column(0), ShuffleScope::Column(2), ShuffleScope::All] {
        let r = trial_predictions(&Constant, &x, 3, scope, 50);
        assert!(r.iter().all(|p| *p == vec![2.5, 2.5, 2.5]));
    }
}

#[test]
fn every_feature_gets_its_trials() {
    let x = example();
    let r = feature_trials(&RowSum, &x, 3, 10);
    assert_eq!(r.len(), 3);
    for trials in &r {
        assert_eq!(trials.len(), 10);
        assert!(trials.iter().all(|p| p.len() == 3));
    }
    assert!(r[1].iter().all(|p| *p == vec![4.0, 10.0, 16.0]));
}

#[test]
fn one_trial_of_zero_column() {
    let x = example();
    assert_eq!(one_trial(&RowSum, &x, 3, ShuffleScope::Column(1)), vec![4.0, 10.0, 16.0]);
    let p = one_trial(&RowSum, &x, 3, ShuffleScope::All);
    assert_eq!(p.iter().sum::<f64>(), 30.0);
}

#[test]
fn request_checks_options_first() {
    assert_eq!(check_request(&opts(None, Some(5)), 0, 3), Err(ImportanceError::InvalidConfiguration));
    assert_eq!(check_request(&opts(Some(ScoreKind::Acc), Some(0)), 3, 3), Err(ImportanceError::InvalidConfiguration));
}

#[test]
fn request_checks_sizes_second() {
    let o = opts(Some(ScoreKind::Rmse), Some(5));
    assert_eq!(check_request(&o, 0, 3), Err(ImportanceError::Score(ScoreError::EmptyInput)));
    assert_eq!(check_request(&o, 2, 3), Err(ImportanceError::Score(ScoreError::LengthMismatch)));
    assert_eq!(
        check_request(&o, 3, 3),
        Ok(Config { kind: ScoreKind::Rmse, n: 5, only_means: true, scale: false })
    );
}
