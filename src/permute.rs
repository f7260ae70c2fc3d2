//! Random permutations of row positions, and the shuffled working copies of a
//! matrix built from them.
use rand::seq::SliceRandom;
use rand::rngs::ThreadRng;
use vstd::prelude::*;
use vstd::seq_lib::group_to_multiset_ensures;

verus! {

/// rand's handle to the generator of the current thread, carried through
/// opaquely.
#[verifier::external_type_specification]
#[verifier::external_body]
pub struct ExThreadRng(ThreadRng);

/// Relies on rand::thread_rng: a handle to this thread's generator, seeded
/// from the operating system on first use.
pub assume_specification[ rand::thread_rng ]() -> ThreadRng;

/// Relies on rand's `SliceRandom::shuffle` for slices: it only swaps elements
/// (a Fisher-Yates pass), so the result holds the same elements.
#[verifier::external_body]
fn shuffle_in_place(v: &mut Vec<usize>, rng: &mut ThreadRng)
    ensures
        final(v)@.to_multiset() == old(v)@.to_multiset(),
{
    v.as_mut_slice().shuffle(rng);
}

/// The positions `0, 1, ..., n - 1` in order.
pub open spec fn identity(n: nat) -> Seq<usize> {
    Seq::new(n, |i: int| i as usize)
}

/// `p` reorders the positions `0 .. n`: each position occurs exactly once.
pub open spec fn is_permutation(p: Seq<usize>, n: nat) -> bool {
    &&& p.len() == n
    &&& forall|i: int| 0 <= i < n ==> #[trigger] p[i] < n
    &&& p.no_duplicates()
}

proof fn lemma_multiset_of_identity_is_permutation(p: Seq<usize>, n: nat)
    requires
        p.to_multiset() == identity(n).to_multiset(),
        n <= usize::MAX + 1,
    ensures
        is_permutation(p, n),
{
    broadcast use group_to_multiset_ensures;

    let id = identity(n);
    assert(p.len() == p.to_multiset().len());
    assert(id.len() == id.to_multiset().len());
    assert(id.no_duplicates());
    id.lemma_multiset_has_no_duplicates();
    p.lemma_multiset_has_no_duplicates_conv();
    assert forall|i: int| 0 <= i < n implies #[trigger] p[i] < n by {
        assert(p.contains(p[i]));
        assert(p.to_multiset().count(p[i]) > 0);
        assert(id.contains(p[i]));
        let k = choose|k: int| 0 <= k < id.len() && id[k] == p[i];
        assert(id[k] == k as usize);
    }
}

/// Draws a permutation of the positions `0 .. n` from `rng`.
pub fn random_permutation(n: usize, rng: &mut ThreadRng) -> (r: Vec<usize>)
    ensures
        is_permutation(r@, n as nat),
{
    let mut v: Vec<usize> = Vec::with_capacity(n);
    let mut i: usize = 0;
    while i < n
        invariant
            i <= n,
            v@ == identity(i as nat),
        decreases n - i,
    {
        v.push(i);
        i = i + 1;
        assert(v@ =~= identity(i as nat));
    }
    shuffle_in_place(&mut v, rng);
    proof {
        lemma_multiset_of_identity_is_permutation(v@, n as nat);
    }
    v
}

/// Which columns a trial shuffles.
#[derive(Clone, Copy, Debug, PartialEq, Eq, Structural)]
pub enum ShuffleScope {
    /// Only the column with this index.
    Column(usize),
    /// Every column, each with a permutation of its own.
    All,
}

/// Whether column `c` is shuffled under `scope`.
pub open spec fn in_scope(scope: ShuffleScope, c: int) -> bool {
    match scope {
        ShuffleScope::Column(k) => c == k,
        ShuffleScope::All => true,
    }
}

/// The rows of a matrix as sequences.
pub open spec fn rows_of<T>(x: Seq<Vec<T>>) -> Seq<Seq<T>> {
    x.map_values(|row: Vec<T>| row@)
}

/// Every row of `m` has `width` entries.
pub open spec fn is_matrix<T>(m: Seq<Seq<T>>, width: nat) -> bool {
    forall|r: int| 0 <= r < m.len() ==> #[trigger] m[r].len() == width
}

/// `perms` holds, for each column in scope, a permutation of the row
/// positions; the entries for the other columns are left empty.
pub open spec fn fits_scope(
    perms: Seq<Seq<usize>>,
    scope: ShuffleScope,
    n_rows: nat,
    width: nat,
) -> bool {
    &&& perms.len() == width
    &&& forall|c: int|
        0 <= c < width ==> if in_scope(scope, c) {
            is_permutation(#[trigger] perms[c], n_rows)
        } else {
            perms[c].len() == 0
        }
}

/// The matrix `m` with each column in `scope` reordered: row `r` of column `c`
/// takes the value of row `perms[c][r]`. Other columns keep their values.
pub open spec fn shuffled<T>(
    m: Seq<Seq<T>>,
    scope: ShuffleScope,
    perms: Seq<Seq<usize>>,
) -> Seq<Seq<T>> {
    Seq::new(
        m.len(),
        |r: int|
            Seq::new(
                m[r].len(),
                |c: int|
                    if in_scope(scope, c) {
                        m[perms[c][r] as int][c]
                    } else {
                        m[r][c]
                    },
            ),
    )
}

/// Column `c` of `m` holds one value in every row.
pub open spec fn column_is_constant<T>(m: Seq<Seq<T>>, c: int) -> bool {
    forall|r: int| 0 <= r < m.len() ==> #[trigger] m[r][c] == m[0][c]
}

/// Shuffling a column whose values are all equal leaves the matrix as it
/// was, whatever permutation is drawn; so a trial on such a column hands the
/// model exactly the unshuffled data.
pub proof fn lemma_constant_column_unchanged<T>(
    m: Seq<Seq<T>>,
    width: nat,
    col: usize,
    perms: Seq<Seq<usize>>,
)
    requires
        is_matrix(m, width),
        col < width,
        column_is_constant(m, col as int),
        fits_scope(perms, ShuffleScope::Column(col), m.len(), width),
    ensures
        shuffled(m, ShuffleScope::Column(col), perms) == m,
{
    let s = shuffled(m, ShuffleScope::Column(col), perms);
    assert forall|r: int| 0 <= r < m.len() implies #[trigger] s[r] == m[r] by {
        assert(is_permutation(perms[col as int], m.len()));
        let src = perms[col as int][r] as int;
        assert(m[src][col as int] == m[0][col as int]);
        assert(m[r][col as int] == m[0][col as int]);
        assert(s[r] =~= m[r]);
    }
    assert(s =~= m);
}

/// `s` read in the order `p`: entry `i` is `s[p[i]]`.
pub open spec fn reorder<A>(s: Seq<A>, p: Seq<usize>) -> Seq<A> {
    Seq::new(p.len(), |i: int| s[p[i] as int])
}

/// Column `c` of `m`, top to bottom.
pub open spec fn column<T>(m: Seq<Seq<T>>, c: int) -> Seq<T> {
    Seq::new(m.len(), |r: int| m[r][c])
}

/// Reading a sequence in the order of a permutation of its positions yields
/// the same values, each as often.
pub proof fn lemma_reorder_keeps_values<A>(s: Seq<A>, p: Seq<usize>)
    requires
        is_permutation(p, s.len()),
    ensures
        reorder(s, p).to_multiset() == s.to_multiset(),
    decreases p.len(),
{
    broadcast use group_to_multiset_ensures;
    broadcast use vstd::multiset::group_multiset_axioms;

    let t = reorder(s, p);
    if p.len() == 0 {
        assert(t =~= Seq::<A>::empty());
        assert(s =~= Seq::<A>::empty());
        return;
    }
    let m = p.len() - 1;
    let k = p[m] as int;
    let s2 = s.remove(k);
    let p2 = Seq::new(m as nat, |i: int| if p[i] > k { (p[i] - 1) as usize } else { p[i] });
    assert forall|i: int| 0 <= i < m implies #[trigger] p2[i] < s2.len() by {
        assert(p[i] < s.len());
        assert(p[i] != p[m]);
    }
    assert forall|i: int, j: int| 0 <= i < m && 0 <= j < m && i != j implies p2[i] != p2[j] by {
        assert(p[i] != p[j]);
        assert(p[i] != p[m]);
        assert(p[j] != p[m]);
    }
    assert(is_permutation(p2, s2.len()));
    lemma_reorder_keeps_values(s2, p2);
    assert forall|i: int| 0 <= i < m implies #[trigger] reorder(s2, p2)[i] == t.drop_last()[i] by {
        assert(p[i] != p[m]);
        assert(p[i] < s.len());
    }
    assert(reorder(s2, p2) =~= t.drop_last());
    assert(t =~= t.drop_last().push(t.last()));
    assert(s.contains(s[k]));
    assert(s.to_multiset().count(s[k]) > 0);
    assert(t.to_multiset() =~= s.to_multiset());
}

/// A trial keeps the values of every column: a shuffled column holds the
/// same values as before, each as often, and a column out of scope is left
/// exactly as it was.
pub proof fn lemma_shuffle_keeps_column_values<T>(
    m: Seq<Seq<T>>,
    width: nat,
    scope: ShuffleScope,
    perms: Seq<Seq<usize>>,
    c: int,
)
    requires
        is_matrix(m, width),
        fits_scope(perms, scope, m.len(), width),
        0 <= c < width,
    ensures
        column(shuffled(m, scope, perms), c).to_multiset() == column(m, c).to_multiset(),
        !in_scope(scope, c) ==> column(shuffled(m, scope, perms), c) == column(m, c),
{
    let sh = shuffled(m, scope, perms);
    if in_scope(scope, c) {
        let p = perms[c];
        assert(is_permutation(p, m.len()));
        assert forall|r: int| 0 <= r < m.len() implies #[trigger] column(sh, c)[r] == reorder(
            column(m, c),
            p,
        )[r] by {
            assert(p[r] < m.len());
            assert(m[r].len() == width);
        }
        assert(column(sh, c) =~= reorder(column(m, c), p));
        lemma_reorder_keeps_values(column(m, c), p);
    } else {
        assert forall|r: int| 0 <= r < m.len() implies #[trigger] column(sh, c)[r] == column(
            m,
            c,
        )[r] by {
            assert(m[r].len() == width);
        }
        assert(column(sh, c) =~= column(m, c));
    }
}

/// Draws the permutations a trial under `scope` needs: one for each column in
/// scope, an empty one for each other column.
pub fn draw_permutations(n_rows: usize, width: usize, scope: ShuffleScope, rng: &mut ThreadRng) -> (r:
    Vec<Vec<usize>>)
    ensures
        fits_scope(rows_of(r@), scope, n_rows as nat, width as nat),
{
    let mut perms: Vec<Vec<usize>> = Vec::with_capacity(width);
    let mut c: usize = 0;
    while c < width
        invariant
            c <= width,
            perms@.len() == c,
            forall|k: int|
                0 <= k < c ==> if in_scope(scope, k) {
                    is_permutation(#[trigger] perms@[k]@, n_rows as nat)
                } else {
                    perms@[k]@.len() == 0
                },
        decreases width - c,
    {
        let in_it = match scope {
            ShuffleScope::Column(k) => k == c,
            ShuffleScope::All => true,
        };
        if in_it {
            perms.push(random_permutation(n_rows, rng));
        } else {
            perms.push(Vec::new());
        }
        c = c + 1;
    }
    proof {
        assert forall|k: int| 0 <= k < width implies if in_scope(scope, k) {
            is_permutation(#[trigger] rows_of(perms@)[k], n_rows as nat)
        } else {
            rows_of(perms@)[k].len() == 0
        } by {
            assert(rows_of(perms@)[k] == perms@[k]@);
        }
    }
    perms
}

/// A copy of `x` with the columns in `scope` reordered by `perms`.
pub fn shuffled_copy<T: Copy>(x: &Vec<Vec<T>>, width: usize, scope: ShuffleScope, perms: &Vec<
    Vec<usize>,
>) -> (r: Vec<Vec<T>>)
    requires
        is_matrix(rows_of(x@), width as nat),
        fits_scope(rows_of(perms@), scope, x@.len(), width as nat),
    ensures
        rows_of(r@) == shuffled(rows_of(x@), scope, rows_of(perms@)),
{
    let ghost m = rows_of(x@);
    let ghost ps = rows_of(perms@);
    let ghost want = shuffled(m, scope, ps);
    let n = x.len();
    let mut out: Vec<Vec<T>> = Vec::with_capacity(n);
    let mut r: usize = 0;
    while r < n
        invariant
            n == x@.len(),
            r <= n,
            m == rows_of(x@),
            ps == rows_of(perms@),
            want == shuffled(m, scope, ps),
            is_matrix(m, width as nat),
            fits_scope(ps, scope, n as nat, width as nat),
            out@.len() == r,
            forall|i: int| 0 <= i < r ==> #[trigger] out@[i]@ == want[i],
        decreases n - r,
    {
        assert(m[r as int] == x@[r as int]@);
        let mut row: Vec<T> = Vec::with_capacity(width);
        let mut c: usize = 0;
        while c < width
            invariant
                n == x@.len(),
                r < n,
                c <= width,
                m == rows_of(x@),
                ps == rows_of(perms@),
                want == shuffled(m, scope, ps),
                is_matrix(m, width as nat),
                fits_scope(ps, scope, n as nat, width as nat),
                row@.len() == c,
                forall|j: int| 0 <= j < c ==> #[trigger] row@[j] == want[r as int][j],
            decreases width - c,
        {
            let in_it = match scope {
                ShuffleScope::Column(k) => k == c,
                ShuffleScope::All => true,
            };
            assert(m[r as int].len() == width);
            assert(x@[r as int]@ == m[r as int]);
            if in_it {
                assert(ps[c as int] == perms@[c as int]@);
                assert(is_permutation(ps[c as int], n as nat));
                let src = perms[c][r];
                assert(src < n);
                assert(m[src as int].len() == width);
                assert(x@[src as int]@ == m[src as int]);
                row.push(x[src][c]);
            } else {
                row.push(x[r][c]);
            }
            c = c + 1;
        }
        assert(row@ =~= want[r as int]);
        out.push(row);
        r = r + 1;
    }
    assert(rows_of(out@) =~= want);
    out
}

/// The width of `x` if all its rows have the same length (0 for no rows),
/// `None` otherwise.
pub fn matrix_width<T>(x: &Vec<Vec<T>>) -> (r: Option<usize>)
    ensures
        match r {
            Some(w) => is_matrix(rows_of(x@), w as nat) && (x@.len() > 0 ==> w == x@[0]@.len()),
            None => forall|w: nat| !is_matrix(rows_of(x@), w),
        },
{
    if x.len() == 0 {
        return Some(0);
    }
    let w = x[0].len();
    let mut r: usize = 0;
    while r < x.len()
        invariant
            r <= x@.len(),
            x@.len() > 0,
            w == x@[0]@.len(),
            forall|i: int| 0 <= i < r ==> #[trigger] x@[i]@.len() == w,
        decreases x@.len() - r,
    {
        if x[r].len() != w {
            proof {
                assert forall|v: nat| !is_matrix(rows_of(x@), v) by {
                    if is_matrix(rows_of(x@), v) {
                        assert(rows_of(x@)[0].len() == v);
                        assert(rows_of(x@)[r as int].len() == v);
                    }
                }
            }
            return None;
        }
        r = r + 1;
    }
    assert forall|i: int| 0 <= i < x@.len() implies #[trigger] rows_of(x@)[i].len() == w by {
        assert(rows_of(x@)[i] == x@[i]@);
    }
    Some(w)
}

/// The permutations of a trial that reorders column `col` alone by `p`.
pub open spec fn column_perms(width: nat, col: usize, p: Seq<usize>) -> Seq<Seq<usize>> {
    Seq::new(width, |c: int| if c == col { p } else { Seq::<usize>::empty() })
}

/// Reordering one column by a permutation of the rows fits that column's scope.
pub proof fn lemma_column_perms_fit(width: nat, col: usize, p: Seq<usize>, n_rows: nat)
    requires
        col < width,
        is_permutation(p, n_rows),
    ensures
        fits_scope(column_perms(width, col, p), ShuffleScope::Column(col), n_rows, width),
{
}

/// A copy of `x` with column `col` alone reordered by `perm`.
pub fn permuted_column_copy<T: Copy>(x: &Vec<Vec<T>>, width: usize, col: usize, perm: &Vec<
    usize,
>) -> (r: Vec<Vec<T>>)
    requires
        is_matrix(rows_of(x@), width as nat),
        col < width,
        is_permutation(perm@, x@.len()),
    ensures
        rows_of(r@) == shuffled(
            rows_of(x@),
            ShuffleScope::Column(col),
            column_perms(width as nat, col, perm@),
        ),
{
    let scope = ShuffleScope::Column(col);
    let mut perms: Vec<Vec<usize>> = Vec::with_capacity(width);
    let mut c: usize = 0;
    while c < width
        invariant
            c <= width,
            col < width,
            is_permutation(perm@, x@.len()),
            perms@.len() == c,
            forall|k: int|
                0 <= k < c ==> (#[trigger] perms@[k])@ == column_perms(width as nat, col, perm@)[k],
        decreases width - c,
    {
        if c == col {
            perms.push(perm.clone());
        } else {
            perms.push(Vec::new());
        }
        c = c + 1;
    }
    proof {
        assert forall|k: int| 0 <= k < width implies #[trigger] rows_of(perms@)[k] == column_perms(
            width as nat,
            col,
            perm@,
        )[k] by {
            assert(rows_of(perms@)[k] == perms@[k]@);
        }
        assert(rows_of(perms@) =~= column_perms(width as nat, col, perm@));
        lemma_column_perms_fit(width as nat, col, perm@, x@.len());
    }
    shuffled_copy(x, width, scope, &perms)
}

/// Reordering a column by the identity permutation leaves the matrix as it
/// was.
pub proof fn lemma_identity_changes_nothing<T>(m: Seq<Seq<T>>, width: nat, col: usize)
    requires
        is_matrix(m, width),
        col < width,
        m.len() <= usize::MAX,
    ensures
        shuffled(m, ShuffleScope::Column(col), column_perms(width, col, identity(m.len()))) == m,
{
    let s = shuffled(m, ShuffleScope::Column(col), column_perms(width, col, identity(m.len())));
    assert forall|r: int| 0 <= r < m.len() implies #[trigger] s[r] == m[r] by {
        assert(m[r].len() == width);
        assert(identity(m.len())[r] as int == r);
        assert(s[r] =~= m[r]);
    }
    assert(s =~= m);
}

/// One trial's working copy: `x` with the columns in `scope` reordered by
/// freshly drawn permutations of the rows.
pub fn shuffled_trial<T: Copy>(x: &Vec<Vec<T>>, width: usize, scope: ShuffleScope, rng: &mut ThreadRng) -> (r:
    Vec<Vec<T>>)
    requires
        is_matrix(rows_of(x@), width as nat),
    ensures
        exists|perms: Seq<Seq<usize>>|
            fits_scope(perms, scope, x@.len(), width as nat) && rows_of(r@) == shuffled(
                rows_of(x@),
                scope,
                perms,
            ),
{
    let perms = draw_permutations(x.len(), width, scope, rng);
    shuffled_copy(x, width, scope, &perms)
}

} // verus!
