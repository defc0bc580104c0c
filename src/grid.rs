//! Row-major layout of a square grid and its wrap-around neighbours.
use vstd::prelude::*;
use vstd::arithmetic::div_mod::{lemma_fundamental_div_mod, lemma_fundamental_div_mod_converse};

verus! {

/// The five cells that one output cell is computed from.
#[derive(Clone, Copy, Debug, PartialEq, Eq, Structural)]
pub struct Stencil<T> {
    pub center: T,
    pub up: T,
    pub down: T,
    pub left: T,
    pub right: T,
}

/// Offset of the cell one row up from offset `c`; row 0 wraps to the last row.
pub open spec fn above(n: int, c: int) -> int {
    if c < n {
        c + n * n - n
    } else {
        c - n
    }
}

/// Offset of the cell one row down from offset `c`; the last row wraps to row 0.
pub open spec fn below(n: int, c: int) -> int {
    if c >= n * n - n {
        c + n - n * n
    } else {
        c + n
    }
}

/// Offset of the cell one column left of `c`; column 0 wraps to the last column.
pub open spec fn left_of(n: int, c: int) -> int {
    if c % n == 0 {
        c + n - 1
    } else {
        c - 1
    }
}

/// Offset of the cell one column right of `c`; the last column wraps to column 0.
pub open spec fn right_of(n: int, c: int) -> int {
    if c % n == n - 1 {
        c + 1 - n
    } else {
        c + 1
    }
}

/// The offsets read for the output cell at offset `c`.
pub open spec fn stencil_indices(n: int, c: int) -> Stencil<int> {
    Stencil { center: c, up: above(n, c), down: below(n, c), left: left_of(n, c), right: right_of(n, c) }
}

/// The values read from grid `g` for the output cell at offset `c`.
pub open spec fn stencil_at<T>(g: Seq<T>, n: int, c: int) -> Stencil<T> {
    Stencil {
        center: g[c],
        up: g[above(n, c)],
        down: g[below(n, c)],
        left: g[left_of(n, c)],
        right: g[right_of(n, c)],
    }
}

/// Offset `c` of a grid of side `n` splits into a row and a column, both below `n`.
pub proof fn lemma_cell_split(n: int, c: int)
    requires
        0 < n,
        0 <= c < n * n,
    ensures
        c == n * (c / n) + c % n,
        0 <= c / n < n,
        0 <= c % n < n,
        n <= n * n,
        c - c % n + n <= n * n,
{
    lemma_fundamental_div_mod(c, n);
    let q = c / n;
    let r = c % n;
    assert(0 <= r < n);
    assert(0 <= q < n) by (nonlinear_arith)
        requires
            c == n * q + r,
            0 <= r < n,
            0 <= c < n * n,
            0 < n,
    ;
    assert(n <= n * n) by (nonlinear_arith)
        requires
            0 < n,
    ;
    assert(n * q + n <= n * n) by (nonlinear_arith)
        requires
            0 <= q < n,
    ;
}

/// Every neighbour of a cell lies inside the grid.
pub proof fn lemma_neighbors_in_grid(n: int, c: int)
    requires
        0 < n,
        0 <= c < n * n,
    ensures
        0 <= above(n, c) < n * n,
        0 <= below(n, c) < n * n,
        0 <= left_of(n, c) < n * n,
        0 <= right_of(n, c) < n * n,
{
    lemma_cell_split(n, c);
}

/// Moving to a neighbour and back in the opposite direction returns to the
/// same cell, at the edges as well.
pub proof fn lemma_neighbor_symmetry(n: int, c: int)
    requires
        0 < n,
        0 <= c < n * n,
    ensures
        below(n, above(n, c)) == c,
        above(n, below(n, c)) == c,
        right_of(n, left_of(n, c)) == c,
        left_of(n, right_of(n, c)) == c,
{
    lemma_cell_split(n, c);
    let q = c / n;
    let r = c % n;
    assert(c == q * n + r) by (nonlinear_arith)
        requires
            c == n * q + r,
    ;
    if r == 0 {
        lemma_fundamental_div_mod_converse(c + n - 1, n, q, n - 1);
    } else {
        lemma_fundamental_div_mod_converse(c - 1, n, q, r - 1);
    }
    if r == n - 1 {
        lemma_fundamental_div_mod_converse(c + 1 - n, n, q, 0);
    } else {
        lemma_fundamental_div_mod_converse(c + 1, n, q, r + 1);
    }
}

/// The neighbours of cell `(i, j)` are `(i - 1, j)`, `(i + 1, j)`, `(i, j - 1)`
/// and `(i, j + 1)`, each coordinate taken modulo `n`.
pub proof fn lemma_wrap_coordinates(n: int, i: int, j: int)
    requires
        0 <= i < n,
        0 <= j < n,
    ensures
        above(n, i * n + j) == ((i + n - 1) % n) * n + j,
        below(n, i * n + j) == ((i + 1) % n) * n + j,
        left_of(n, i * n + j) == i * n + (j + n - 1) % n,
        right_of(n, i * n + j) == i * n + (j + 1) % n,
{
    let c = i * n + j;
    lemma_fundamental_div_mod_converse(c, n, i, j);
    assert(c < n <==> i == 0) by (nonlinear_arith)
        requires
            c == i * n + j,
            0 <= i < n,
            0 <= j < n,
    ;
    assert(c >= n * n - n <==> i == n - 1) by (nonlinear_arith)
        requires
            c == i * n + j,
            0 <= i < n,
            0 <= j < n,
    ;
    assert((n - 1) * n == n * n - n && (i - 1) * n == i * n - n && (i + 1) * n == i * n + n)
        by (nonlinear_arith);
    if i == 0 {
        lemma_fundamental_div_mod_converse(i + n - 1, n, 0, n - 1);
    } else {
        lemma_fundamental_div_mod_converse(i + n - 1, n, 1, i - 1);
    }
    if i == n - 1 {
        lemma_fundamental_div_mod_converse(i + 1, n, 1, 0);
    } else {
        lemma_fundamental_div_mod_converse(i + 1, n, 0, i + 1);
    }
    if j == 0 {
        lemma_fundamental_div_mod_converse(j + n - 1, n, 0, n - 1);
    } else {
        lemma_fundamental_div_mod_converse(j + n - 1, n, 1, j - 1);
    }
    if j == n - 1 {
        lemma_fundamental_div_mod_converse(j + 1, n, 1, 0);
    } else {
        lemma_fundamental_div_mod_converse(j + 1, n, 0, j + 1);
    }
}

/// Offset of the cell one row up from `c`, wrapping row 0 to the last row.
pub fn up_index(n: usize, c: usize) -> (r: usize)
    requires
        c < n * n <= usize::MAX,
    ensures
        r == above(n as int, c as int),
{
    proof {
        lemma_cell_split(n as int, c as int);
    }
    let nn = n * n;
    if c < n {
        c + (nn - n)
    } else {
        c - n
    }
}

/// Offset of the cell one row down from `c`, wrapping the last row to row 0.
pub fn down_index(n: usize, c: usize) -> (r: usize)
    requires
        c < n * n <= usize::MAX,
    ensures
        r == below(n as int, c as int),
{
    proof {
        lemma_cell_split(n as int, c as int);
    }
    let nn = n * n;
    if c >= nn - n {
        c - (nn - n)
    } else {
        c + n
    }
}

/// Offset of the cell one column left of `c`, wrapping column 0 to the last column.
pub fn left_index(n: usize, c: usize) -> (r: usize)
    requires
        c < n * n <= usize::MAX,
    ensures
        r == left_of(n as int, c as int),
{
    proof {
        lemma_cell_split(n as int, c as int);
    }
    if c % n == 0 {
        c + (n - 1)
    } else {
        c - 1
    }
}

/// Offset of the cell one column right of `c`, wrapping the last column to column 0.
pub fn right_index(n: usize, c: usize) -> (r: usize)
    requires
        c < n * n <= usize::MAX,
    ensures
        r == right_of(n as int, c as int),
{
    proof {
        lemma_cell_split(n as int, c as int);
    }
    if c % n == n - 1 {
        c - (n - 1)
    } else {
        c + 1
    }
}

/// The offsets read for the output cell at offset `c`.
pub fn neighborhood(n: usize, c: usize) -> (r: Stencil<usize>)
    requires
        c < n * n <= usize::MAX,
    ensures
        r.center == c,
        r.up == above(n as int, c as int),
        r.down == below(n as int, c as int),
        r.left == left_of(n as int, c as int),
        r.right == right_of(n as int, c as int),
{
    Stencil {
        center: c,
        up: up_index(n, c),
        down: down_index(n, c),
        left: left_index(n, c),
        right: right_index(n, c),
    }
}

/// Reads the five input values that the output cell at offset `c` is computed from.
pub fn gather<T: Copy>(input: &[T], n: usize, c: usize) -> (r: Stencil<T>)
    requires
        c < n * n <= input@.len(),
    ensures
        r == stencil_at(input@, n as int, c as int),
{
    proof {
        assert(input@.len() == input.len());
        lemma_neighbors_in_grid(n as int, c as int);
    }
    let at = neighborhood(n, c);
    Stencil {
        center: input[c],
        up: input[at.up],
        down: input[at.down],
        left: input[at.left],
        right: input[at.right],
    }
}

} // verus!
