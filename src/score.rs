//! Score kinds, the model capability, and the checks made before scoring.
use crate::permute::{
    column_perms, is_matrix, is_permutation, permuted_column_copy, rows_of, shuffled, ShuffleScope,
};
use vstd::prelude::*;

verus! {

/// The metric a set of predictions is scored with.
#[derive(Clone, Copy, Debug, PartialEq, Eq, Structural)]
pub enum ScoreKind {
    /// Mean absolute error.
    Mae,
    /// Mean squared error.
    Mse,
    /// Root mean squared error.
    Rmse,
    /// Symmetric mean absolute percentage error, on a 0 to 100 scale.
    Smape,
    /// Fraction of exact matches.
    Acc,
}

/// Why a score could not be computed.
#[derive(Clone, Copy, Debug, PartialEq, Eq, Structural)]
pub enum ScoreError {
    /// The number of targets differs from the number of rows.
    LengthMismatch,
    /// There are no targets.
    EmptyInput,
}

/// The reference point importances are rescaled against: 0 for the error
/// metrics, and 100 for accuracy. Accuracy itself is a fraction in `[0, 1]`,
/// so this reference sits on a percentage scale: rescaled accuracy
/// importances come out small.
pub open spec fn spec_ideal_score(kind: ScoreKind) -> u32 {
    if kind == ScoreKind::Acc { 100 } else { 0 }
}

impl ScoreKind {
    /// The reference value a perfect fit reaches under this metric.
    pub fn ideal_score(self) -> (r: u32)
        ensures
            r == spec_ideal_score(self),
    {
        match self {
            ScoreKind::Acc => 100,
            _ => 0,
        }
    }
}

/// The outcome of the checks made on the sizes of a scoring request.
pub open spec fn spec_check_sizes(n_targets: nat, n_rows: nat) -> Result<(), ScoreError> {
    if n_targets == 0 {
        Err(ScoreError::EmptyInput)
    } else if n_targets != n_rows {
        Err(ScoreError::LengthMismatch)
    } else {
        Ok(())
    }
}

/// Checks that there is at least one target, and then that there is one
/// target per row: no targets is `EmptyInput` whatever the matrix.
pub fn check_sizes(n_targets: usize, n_rows: usize) -> (r: Result<(), ScoreError>)
    ensures
        r == spec_check_sizes(n_targets as nat, n_rows as nat),
{
    if n_targets == 0 {
        Err(ScoreError::EmptyInput)
    } else if n_targets != n_rows {
        Err(ScoreError::LengthMismatch)
    } else {
        Ok(())
    }
}

/// A fitted model, consumed only through its predictions.
pub trait Model<T: Copy> {
    /// What the model predicts for the rows `x`. A model is deterministic:
    /// equal matrices get equal predictions. This item exists for proofs
    /// only: an implementation in ordinary Rust has to write it out, but its
    /// body is never run.
    spec fn spec_predict(&self, x: Seq<Seq<T>>) -> Seq<T>;

    /// Predicts one value per row of `x`, in row order.
    fn predict(&self, x: &Vec<Vec<T>>) -> (r: Vec<T>)
        ensures
            r@ == self.spec_predict(rows_of(x@)),
            r@.len() == x@.len(),
    ;

    /// Predicts as `predict` would on `x` with row `r` of column `col` taken
    /// from row `perm[r]`. The default builds that copy; a model may override
    /// it to read the permuted column in place, with the same result.
    fn predict_with_permuted_column(
        &self,
        x: &Vec<Vec<T>>,
        width: usize,
        col: usize,
        perm: &Vec<usize>,
    ) -> (r: Vec<T>)
        requires
            is_matrix(rows_of(x@), width as nat),
            col < width,
            is_permutation(perm@, x@.len()),
        ensures
            r@ == self.spec_predict(
                shuffled(rows_of(x@), ShuffleScope::Column(col), column_perms(width as nat, col, perm@)),
            ),
            r@.len() == x@.len(),
    {
        let copy = permuted_column_copy(x, width, col, perm);
        assert(copy@.len() == rows_of(copy@).len());
        self.predict(&copy)
    }
}

/// The predictions a score is computed from: the sizes of `x` and `y` are
/// checked first, and the model is asked only when they agree.
pub fn checked_predictions<T: Copy, M: Model<T>>(model: &M, x: &Vec<Vec<T>>, y: &Vec<T>) -> (r: Result<
    Vec<T>,
    ScoreError,
>)
    ensures
        r is Err <==> spec_check_sizes(y@.len(), x@.len()) is Err,
        r is Err ==> spec_check_sizes(y@.len(), x@.len()) == Err::<(), ScoreError>(r->Err_0),
        r is Ok ==> r->Ok_0@.len() == y@.len(),
        r is Ok ==> r->Ok_0@ == model.spec_predict(rows_of(x@)),
{
    match check_sizes(y.len(), x.len()) {
        Err(e) => Err(e),
        Ok(()) => Ok(model.predict(x)),
    }
}

/// The predictions a score on `x` with column `col` permuted by `perm` is
/// computed from, after the same size checks as `checked_predictions`.
pub fn checked_predictions_with_permuted_column<T: Copy, M: Model<T>>(
    model: &M,
    x: &Vec<Vec<T>>,
    width: usize,
    col: usize,
    perm: &Vec<usize>,
    y: &Vec<T>,
) -> (r: Result<Vec<T>, ScoreError>)
    requires
        is_matrix(rows_of(x@), width as nat),
        col < width,
        is_permutation(perm@, x@.len()),
    ensures
        r is Err <==> spec_check_sizes(y@.len(), x@.len()) is Err,
        r is Err ==> spec_check_sizes(y@.len(), x@.len()) == Err::<(), ScoreError>(r->Err_0),
        r is Ok ==> r->Ok_0@.len() == y@.len(),
        r is Ok ==> r->Ok_0@ == model.spec_predict(
            shuffled(rows_of(x@), ShuffleScope::Column(col), column_perms(width as nat, col, perm@)),
        ),
{
    match check_sizes(y.len(), x.len()) {
        Err(e) => Err(e),
        Ok(()) => Ok(model.predict_with_permuted_column(x, width, col, perm)),
    }
}

} // verus!
