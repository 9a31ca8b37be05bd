//! Summation laws of the presigning algebra.
//!
//! Round two of presigning hands every party `i` a share
//! `delta_i = gamma_i·k_i + sum over j of (alpha_ij + beta_ij)` in which
//! `alpha_ij` is what party `i` decrypts from party `j`'s masked product
//! and `beta_ij` is the mask `i` chose for `j`. When every party is honest,
//! `alpha_ij = gamma_j·k_i - beta_ji`: the theorem here is that the masks
//! then cancel across the whole session and the shares add up to
//! `(sum of gamma)·(sum of k)`, the identity behind the presigning triple.
//! Read with `x` for `gamma`, the same theorem gives
//! `sum of chi_i = (sum of x)·(sum of k)`, the product-share identity.

use vstd::arithmetic::mul::{lemma_mul_is_commutative, lemma_mul_is_distributive_add};
use vstd::prelude::*;

verus! {

/// The sum of `f(0) + f(1) + ... + f(n-1)`.
pub open spec fn sum_over(n: int, f: spec_fn(int) -> int) -> int
    decreases n,
{
    if n <= 0 {
        0
    } else {
        sum_over(n - 1, f) + f(n - 1)
    }
}

/// Sums add pointwise.
pub proof fn lemma_sum_add(n: int, f: spec_fn(int) -> int, g: spec_fn(int) -> int, h: spec_fn(
    int,
) -> int)
    requires
        n >= 0,
        forall|i: int| 0 <= i < n ==> #[trigger] h(i) == f(i) + g(i),
    ensures
        sum_over(n, h) == sum_over(n, f) + sum_over(n, g),
    decreases n,
{
    if n > 0 {
        lemma_sum_add(n - 1, f, g, h);
    }
}

/// Sums subtract pointwise.
pub proof fn lemma_sum_sub(n: int, f: spec_fn(int) -> int, g: spec_fn(int) -> int, h: spec_fn(
    int,
) -> int)
    requires
        n >= 0,
        forall|i: int| 0 <= i < n ==> #[trigger] h(i) == f(i) - g(i),
    ensures
        sum_over(n, h) == sum_over(n, f) - sum_over(n, g),
    decreases n,
{
    if n > 0 {
        lemma_sum_sub(n - 1, f, g, h);
    }
}

/// Two pointwise-equal summands have the same sum.
pub proof fn lemma_sum_congruence(n: int, f: spec_fn(int) -> int, g: spec_fn(int) -> int)
    requires
        n >= 0,
        forall|i: int| 0 <= i < n ==> #[trigger] f(i) == g(i),
    ensures
        sum_over(n, f) == sum_over(n, g),
    decreases n,
{
    if n > 0 {
        lemma_sum_congruence(n - 1, f, g);
    }
}

/// A constant factor pulls out of a sum.
pub proof fn lemma_sum_scale(n: int, c: int, f: spec_fn(int) -> int, g: spec_fn(int) -> int)
    requires
        n >= 0,
        forall|i: int| 0 <= i < n ==> #[trigger] g(i) == c * f(i),
    ensures
        sum_over(n, g) == c * sum_over(n, f),
    decreases n,
{
    if n <= 0 {
    } else {
        lemma_sum_scale(n - 1, c, f, g);
        lemma_mul_is_distributive_add(c, sum_over(n - 1, f), f(n - 1));
    }
}

/// Finite double sums can be summed in either order.
pub proof fn lemma_sum_swap(
    rows: int,
    cols: int,
    a: spec_fn(int) -> spec_fn(int) -> int,
    row_sum: spec_fn(int) -> int,
    col_sum: spec_fn(int) -> int,
)
    requires
        rows >= 0,
        cols >= 0,
        forall|i: int| 0 <= i < rows ==> #[trigger] row_sum(i) == sum_over(cols, a(i)),
        forall|j: int|
            0 <= j < cols ==> #[trigger] col_sum(j) == sum_over(rows, |i: int| a(i)(j)),
    ensures
        sum_over(rows, row_sum) == sum_over(cols, col_sum),
    decreases rows,
{
    if rows == 0 {
        let zero_col = |j: int| 0int;
        lemma_sum_congruence(cols, col_sum, zero_col);
        lemma_sum_zero(cols, zero_col);
    } else {
        let m = rows - 1;
        let shorter_col = |j: int| sum_over(m, |i: int| a(i)(j));
        lemma_sum_swap(m, cols, a, row_sum, shorter_col);
        // col_sum(j) == shorter_col(j) + a(m)(j) for each column.
        let last_row = |j: int| a(m)(j);
        assert forall|j: int| 0 <= j < cols implies #[trigger] col_sum(j) == shorter_col(j)
            + last_row(j) by {
            assert(col_sum(j) == sum_over(rows, |i: int| a(i)(j)));
            assert(sum_over(rows, |i: int| a(i)(j)) == sum_over(m, |i: int| a(i)(j)) + a(m)(j));
        }
        lemma_sum_add(cols, shorter_col, last_row, col_sum);
        assert(row_sum(m) == sum_over(cols, a(m)));
        lemma_sum_congruence(cols, last_row, a(m));
    }
}

/// A sum of zeroes is zero.
pub proof fn lemma_sum_zero(n: int, f: spec_fn(int) -> int)
    requires
        n >= 0,
        forall|i: int| 0 <= i < n ==> #[trigger] f(i) == 0,
    ensures
        sum_over(n, f) == 0,
    decreases n,
{
    if n > 0 {
        lemma_sum_zero(n - 1, f);
    }
}

/// A product of sums expands into the double sum of products.
pub proof fn lemma_product_of_sums(
    n: int,
    gamma: spec_fn(int) -> int,
    k: spec_fn(int) -> int,
    cross: spec_fn(int) -> int,
)
    requires
        n >= 0,
        forall|i: int|
            0 <= i < n ==> #[trigger] cross(i) == sum_over(n, |j: int| gamma(j) * k(i)),
    ensures
        sum_over(n, cross) == sum_over(n, gamma) * sum_over(n, k),
    decreases n,
{
    let sg = sum_over(n, gamma);
    assert forall|i: int| 0 <= i < n implies #[trigger] cross(i) == sg * k(i) by {
        let scaled = |j: int| gamma(j) * k(i);
        assert forall|j: int| 0 <= j < n implies #[trigger] scaled(j) == k(i) * gamma(j) by {
            lemma_mul_is_commutative(gamma(j), k(i));
        }
        lemma_sum_scale(n, k(i), gamma, scaled);
        lemma_mul_is_commutative(k(i), sg);
    }
    let by_k = |i: int| sg * k(i);
    lemma_sum_congruence(n, cross, by_k);
    lemma_sum_scale(n, sg, k, by_k);
}

/// The masking identity of presigning round two: when every decrypted
/// masked product is honest — `alpha(i, j) == gamma(j)·k(i) - beta(j, i)`
/// for all `i != j` — the per-party shares
/// `delta(i) == gamma(i)·k(i) + sum over j != i of (alpha(i, j) + beta(i, j))`
/// add up to `(sum of gamma)·(sum of k)`. With `x` in place of `gamma`
/// this is the identity `sum of chi_i == (sum of x)·(sum of k)` of the
/// presigning triple.
pub proof fn lemma_masking_cancellation(
    n: int,
    gamma: spec_fn(int) -> int,
    k: spec_fn(int) -> int,
    beta: spec_fn(int, int) -> int,
    alpha: spec_fn(int, int) -> int,
    delta: spec_fn(int) -> int,
)
    requires
        n >= 0,
        forall|i: int, j: int|
            0 <= i < n && 0 <= j < n && i != j ==> #[trigger] alpha(i, j) == gamma(j) * k(i)
                - beta(j, i),
        forall|i: int|
            0 <= i < n ==> #[trigger] delta(i) == gamma(i) * k(i) + sum_over(
                n,
                |j: int|
                    if j == i {
                        0int
                    } else {
                        alpha(i, j) + beta(i, j)
                    },
            ),
    ensures
        sum_over(n, delta) == sum_over(n, gamma) * sum_over(n, k),
{
    // The full contribution matrix: diagonal gamma_i*k_i, off-diagonal
    // alpha + beta.
    let m = |i: int|
        (|j: int|
            if j == i {
                gamma(i) * k(i)
            } else {
                alpha(i, j) + beta(i, j)
            });
    let row = |i: int| sum_over(n, m(i));
    // Each delta(i) equals its row sum.
    assert forall|i: int| 0 <= i < n implies #[trigger] delta(i) == row(i) by {
        let diag_zero = |j: int|
            if j == i {
                0int
            } else {
                alpha(i, j) + beta(i, j)
            };
        let diag_only = |j: int|
            if j == i {
                gamma(i) * k(i)
            } else {
                0int
            };
        assert forall|j: int| 0 <= j < n implies #[trigger] m(i)(j) == diag_zero(j) + diag_only(
            j,
        ) by {}
        lemma_sum_add(n, diag_zero, diag_only, m(i));
        lemma_sum_single(n, i, gamma(i) * k(i), diag_only);
    }
    lemma_sum_congruence(n, delta, row);

    // Split the matrix into the products, the outgoing masks, and the
    // incoming masks.
    let g = |i: int| (|j: int| gamma(j) * k(i));
    let bout = |i: int|
        (|j: int|
            if j == i {
                0int
            } else {
                beta(i, j)
            });
    let bin = |i: int|
        (|j: int|
            if j == i {
                0int
            } else {
                beta(j, i)
            });
    let grow = |i: int| sum_over(n, g(i));
    let bout_row = |i: int| sum_over(n, bout(i));
    let bin_row = |i: int| sum_over(n, bin(i));
    assert forall|i: int| 0 <= i < n implies #[trigger] row(i) == grow(i) + bout_row(i) - bin_row(
        i,
    ) by {
        let gb = |j: int| g(i)(j) + bout(i)(j);
        assert forall|j: int| 0 <= j < n implies #[trigger] m(i)(j) == gb(j) - bin(i)(j) by {
            if j == i {
            } else {
                assert(alpha(i, j) == gamma(j) * k(i) - beta(j, i));
            }
        }
        lemma_sum_add(n, g(i), bout(i), gb);
        lemma_sum_sub(n, gb, bin(i), m(i));
    }
    let split = |i: int| grow(i) + bout_row(i) - bin_row(i);
    lemma_sum_congruence(n, row, split);
    let gplus = |i: int| grow(i) + bout_row(i);
    assert forall|i: int| 0 <= i < n implies #[trigger] gplus(i) == grow(i) + bout_row(i) by {}
    lemma_sum_add(n, grow, bout_row, gplus);
    assert forall|i: int| 0 <= i < n implies #[trigger] split(i) == gplus(i) - bin_row(i) by {}
    lemma_sum_sub(n, gplus, bin_row, split);

    // The incoming masks are the outgoing masks summed in the other
    // order.
    let bout_col = |j: int| sum_over(n, |i: int| bout(i)(j));
    lemma_sum_swap(n, n, bout, bout_row, bout_col);
    assert forall|j: int| 0 <= j < n implies #[trigger] bin_row(j) == bout_col(j) by {
        let as_col = |i: int| bout(i)(j);
        assert forall|i: int| 0 <= i < n implies #[trigger] bin(j)(i) == as_col(i) by {}
        lemma_sum_congruence(n, bin(j), as_col);
    }
    lemma_sum_congruence(n, bin_row, bout_col);

    // What remains is the product matrix.
    lemma_product_of_sums(n, gamma, k, grow);
}

/// A sum over a single nonzero entry.
pub proof fn lemma_sum_single(n: int, at: int, v: int, f: spec_fn(int) -> int)
    requires
        0 <= at < n,
        forall|i: int| 0 <= i < n ==> #[trigger] f(i) == (if i == at {
            v
        } else {
            0int
        }),
    ensures
        sum_over(n, f) == v,
    decreases n,
{
    if n - 1 == at {
        lemma_sum_zero(n - 1, f);
    } else {
        lemma_sum_single(n - 1, at, v, f);
    }
}

} // verus!
