//! The options of an importance run and the trial loop that collects a
//! model's predictions on shuffled copies of the matrix.
use crate::permute::{
    column_is_constant, fits_scope, is_matrix, lemma_column_perms_fit, lemma_constant_column_unchanged,
    random_permutation, rows_of, shuffled, shuffled_trial, ShuffleScope,
};
use crate::score::{check_sizes, spec_check_sizes, Model, ScoreError, ScoreKind};
use rayon::iter::{IndexedParallelIterator, IntoParallelIterator, ParallelIterator};
use vstd::prelude::*;

verus! {

/// The options of an importance run, as a caller fills them in.
pub struct Opts {
    /// Presentation only: has no effect on computed values.
    pub verbose: bool,
    /// The metric; required.
    pub kind: Option<ScoreKind>,
    /// The number of trials per feature; required and positive.
    pub n: Option<usize>,
    /// Keep only the mean importance of each feature.
    pub only_means: bool,
    /// Divide importances by the distance between the ideal score and the
    /// score of a fully shuffled matrix.
    pub scale: bool,
}

/// The options once the required ones are known to be present.
#[derive(Clone, Copy, Debug, PartialEq, Eq, Structural)]
pub struct Config {
    pub kind: ScoreKind,
    pub n: usize,
    pub only_means: bool,
    pub scale: bool,
}

/// Why an importance run failed.
#[derive(Clone, Copy, Debug, PartialEq, Eq, Structural)]
pub enum ImportanceError {
    /// The unshuffled data could not be scored.
    Score(ScoreError),
    /// A required option is missing, or the trial count is zero.
    InvalidConfiguration,
}

/// The options are complete: a metric and a positive trial count are given.
pub open spec fn spec_opts_complete(kind: Option<ScoreKind>, n: Option<usize>) -> bool {
    kind is Some && n is Some && n->Some_0 > 0
}

impl Opts {
    /// The run's configuration, or `InvalidConfiguration` when the metric or
    /// the trial count is missing or the trial count is zero.
    pub fn resolve(&self) -> (r: Result<Config, ImportanceError>)
        ensures
            r is Ok <==> spec_opts_complete(self.kind, self.n),
            r is Err ==> r->Err_0 == ImportanceError::InvalidConfiguration,
            r is Ok ==> (r->Ok_0 == Config {
                kind: self.kind->Some_0,
                n: self.n->Some_0,
                only_means: self.only_means,
                scale: self.scale,
            }),
    {
        match (self.kind, self.n) {
            (Some(kind), Some(n)) => {
                if n == 0 {
                    Err(ImportanceError::InvalidConfiguration)
                } else {
                    Ok(Config { kind, n, only_means: self.only_means, scale: self.scale })
                }
            },
            _ => Err(ImportanceError::InvalidConfiguration),
        }
    }
}

/// The checks an importance run starts with, in order: the options must be
/// complete, then the targets must be present and one per row.
pub fn check_request(opts: &Opts, n_targets: usize, n_rows: usize) -> (r: Result<Config, ImportanceError>)
    ensures
        !spec_opts_complete(opts.kind, opts.n) ==> r == Err::<Config, ImportanceError>(
            ImportanceError::InvalidConfiguration,
        ),
        spec_opts_complete(opts.kind, opts.n) && spec_check_sizes(n_targets as nat, n_rows as nat) is Err
            ==> r == Err::<Config, ImportanceError>(
            ImportanceError::Score(spec_check_sizes(n_targets as nat, n_rows as nat)->Err_0),
        ),
        spec_opts_complete(opts.kind, opts.n) && spec_check_sizes(n_targets as nat, n_rows as nat) is Ok
            ==> r == Ok::<Config, ImportanceError>(
            Config {
                kind: opts.kind->Some_0,
                n: opts.n->Some_0,
                only_means: opts.only_means,
                scale: opts.scale,
            },
        ),
{
    let config = match opts.resolve() {
        Ok(c) => c,
        Err(e) => return Err(e),
    };
    match check_sizes(n_targets, n_rows) {
        Ok(()) => Ok(config),
        Err(e) => Err(ImportanceError::Score(e)),
    }
}

/// Relies on rayon's `into_par_iter` over `0..n`, `map` and
/// `collect_into_vec`: `f` is called once for each index, possibly on several
/// threads, and result `i` is `f(i)`, in index order.
#[verifier::external_body]
fn par_map_indices<R: Send, F: Fn(usize) -> R + Send + Sync>(n: usize, f: F) -> (r: Vec<R>)
    requires
        forall|i: usize| i < n ==> #[trigger] f.requires((i,)),
    ensures
        r@.len() == n,
        forall|i: int| 0 <= i < n ==> f.ensures((i as usize,), #[trigger] r@[i]),
{
    let mut out = Vec::new();
    (0..n).into_par_iter().map(f).collect_into_vec(&mut out);
    out
}

/// The model's predictions on `x` with the columns in `scope` reordered by
/// some permutations of the rows that fit the scope.
pub open spec fn is_trial_of<T: Copy, M: Model<T>>(
    model: &M,
    x: Seq<Seq<T>>,
    width: nat,
    scope: ShuffleScope,
    p: Seq<T>,
) -> bool {
    exists|perms: Seq<Seq<usize>>|
        fits_scope(perms, scope, x.len(), width) && p == model.spec_predict(
            shuffled(x, scope, perms),
        )
}

/// One trial: the model's predictions on a private copy of `x` whose columns
/// in `scope` are shuffled with a generator of this thread.
pub fn one_trial<T: Copy, M: Model<T>>(model: &M, x: &Vec<Vec<T>>, width: usize, scope: ShuffleScope) -> (r:
    Vec<T>)
    requires
        is_matrix(rows_of(x@), width as nat),
    ensures
        is_trial_of(model, rows_of(x@), width as nat, scope, r@),
        r@.len() == x@.len(),
{
    let mut rng = rand::thread_rng();
    match scope {
        ShuffleScope::Column(col) => {
            if col < width {
                let perm = random_permutation(x.len(), &mut rng);
                proof {
                    lemma_column_perms_fit(width as nat, col, perm@, x@.len());
                }
                return model.predict_with_permuted_column(x, width, col, &perm);
            }
        },
        ShuffleScope::All => {},
    }
    let copy = shuffled_trial(x, width, scope, &mut rng);
    assert(copy@.len() == rows_of(copy@).len());
    model.predict(&copy)
}

/// Runs `n` independent trials in parallel: each shuffles the columns in
/// `scope` of a private copy of `x` and records the model's predictions on it.
pub fn trial_predictions<T: Copy + Send + Sync, M: Model<T> + Sync>(
    model: &M,
    x: &Vec<Vec<T>>,
    width: usize,
    scope: ShuffleScope,
    n: usize,
) -> (r: Vec<Vec<T>>)
    requires
        is_matrix(rows_of(x@), width as nat),
    ensures
        r@.len() == n,
        forall|t: int|
            0 <= t < n ==> is_trial_of(model, rows_of(x@), width as nat, scope, (#[trigger] r@[t])@),
        forall|t: int| 0 <= t < n ==> (#[trigger] r@[t])@.len() == x@.len(),
{
    let trial = |_t: usize| -> (p: Vec<T>)
        requires
            is_matrix(rows_of(x@), width as nat),
        ensures
            is_trial_of(model, rows_of(x@), width as nat, scope, p@),
            p@.len() == x@.len(),
        { one_trial(model, x, width, scope) };
    par_map_indices(n, trial)
}

/// The trials of every feature, in column order: entry `i` holds the `n`
/// trials that shuffle column `i` alone. Features run in parallel.
pub fn feature_trials<T: Copy + Send + Sync, M: Model<T> + Sync>(
    model: &M,
    x: &Vec<Vec<T>>,
    width: usize,
    n: usize,
) -> (r: Vec<Vec<Vec<T>>>)
    requires
        is_matrix(rows_of(x@), width as nat),
    ensures
        r@.len() == width,
        forall|i: int| 0 <= i < width ==> (#[trigger] r@[i])@.len() == n,
        forall|i: int, t: int|
            0 <= i < width && 0 <= t < n ==> is_trial_of(
                model,
                rows_of(x@),
                width as nat,
                ShuffleScope::Column(i as usize),
                (#[trigger] r@[i]@[t])@,
            ),
        forall|i: int, t: int|
            0 <= i < width && 0 <= t < n ==> (#[trigger] r@[i]@[t])@.len() == x@.len(),
{
    let feature = |i: usize| -> (p: Vec<Vec<T>>)
        requires
            is_matrix(rows_of(x@), width as nat),
        ensures
            p@.len() == n,
            forall|t: int|
                0 <= t < n ==> is_trial_of(
                    model,
                    rows_of(x@),
                    width as nat,
                    ShuffleScope::Column(i),
                    (#[trigger] p@[t])@,
                ),
            forall|t: int| 0 <= t < n ==> (#[trigger] p@[t])@.len() == x@.len(),
        { trial_predictions(model, x, width, ShuffleScope::Column(i), n) };
    par_map_indices(width, feature)
}

/// Every trial that shuffles a column whose values are all equal hands back
/// exactly the model's predictions on the unshuffled matrix, so such a
/// feature's importance is zero in every trial.
pub proof fn lemma_constant_column_trial_is_base<T: Copy, M: Model<T>>(
    model: &M,
    x: Seq<Seq<T>>,
    width: nat,
    col: usize,
    p: Seq<T>,
)
    requires
        is_matrix(x, width),
        col < width,
        column_is_constant(x, col as int),
        is_trial_of(model, x, width, ShuffleScope::Column(col), p),
    ensures
        p == model.spec_predict(x),
{
    let perms = choose|perms: Seq<Seq<usize>>|
        fits_scope(perms, ShuffleScope::Column(col), x.len(), width) && p == model.spec_predict(
            shuffled(x, ShuffleScope::Column(col), perms),
        );
    lemma_constant_column_unchanged(x, width, col, perms);
}

} // verus!
