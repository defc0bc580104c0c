//! The step kernel: every output cell from its stencil of input cells.
use vstd::prelude::*;

use crate::error::StepError;
use crate::grid::{
    above, below, gather, left_of, lemma_neighbor_symmetry, lemma_neighbors_in_grid, right_of,
    stencil_at, Stencil,
};

verus! {

/// `after` is one step of `rule` over a grid of side `n` read from `input`:
/// each of its first `n * n` cells is a result of `rule` on that cell's
/// stencil, and the cells from `n * n` on are those of `before`.
pub open spec fn is_step_of<T, F: Fn(Stencil<T>) -> T>(
    rule: F,
    input: Seq<T>,
    n: int,
    before: Seq<T>,
    after: Seq<T>,
) -> bool {
    &&& after.len() == before.len()
    &&& forall|c: int|
        0 <= c < n * n ==> rule.ensures((stencil_at(input, n, c),), #[trigger] after[c])
    &&& forall|c: int| n * n <= c < after.len() ==> #[trigger] after[c] == before[c]
}

/// `rule` can be called on every stencil.
pub open spec fn accepts_all<T, F: Fn(Stencil<T>) -> T>(rule: F) -> bool {
    forall|s: Stencil<T>| #[trigger] rule.requires((s,))
}

/// `rule` gives at most one result for each stencil.
pub open spec fn is_functional<T, F: Fn(Stencil<T>) -> T>(rule: F) -> bool {
    forall|s: Stencil<T>, a: T, b: T|
        #[trigger] rule.ensures((s,), a) && #[trigger] rule.ensures((s,), b) ==> a == b
}

/// Writes one step of `rule` into the first `n * n` cells of `out`, reading
/// only `input`; cells of `out` past `n * n` are left as they were. With
/// `n == 0` nothing is written.
pub fn step_grid<T: Copy, F: Fn(Stencil<T>) -> T>(out: &mut [T], input: &[T], n: usize, rule: F)
    requires
        n * n <= old(out)@.len(),
        n * n <= input@.len(),
        accepts_all(rule),
    ensures
        is_step_of(rule, input@, n as int, old(out)@, final(out)@),
        n == 0 ==> final(out)@ == old(out)@,
{
    proof {
        assert(input@.len() == input.len());
    }
    let nn = n * n;
    let mut c: usize = 0;
    while c < nn
        invariant
            nn == n * n,
            nn <= input@.len(),
            nn <= out@.len(),
            c <= nn,
            accepts_all(rule),
            out@.len() == old(out)@.len(),
            forall|k: int|
                0 <= k < c ==> rule.ensures((stencil_at(input@, n as int, k),), #[trigger] out@[k]),
            forall|k: int| c <= k < out@.len() ==> #[trigger] out@[k] == old(out)@[k],
        decreases nn - c,
    {
        let s = gather(input, n, c);
        let v = rule(s);
        out[c] = v;
        c = c + 1;
    }
    proof {
        if n == 0 {
            assert(out@ =~= old(out)@);
        }
    }
}

/// Checks that both buffers hold at least `n * n` cells, then writes one step
/// of `rule` as `step_grid` does. On a short buffer nothing is written.
pub fn step_checked<T: Copy, F: Fn(Stencil<T>) -> T>(
    out: &mut [T],
    input: &[T],
    n: usize,
    rule: F,
) -> (r: Result<(), StepError>)
    requires
        accepts_all(rule),
    ensures
        n * n > old(out)@.len() ==> r == Err::<(), StepError>(StepError::OutputTooShort),
        n * n <= old(out)@.len() && n * n > input@.len() ==> r == Err::<(), StepError>(
            StepError::InputTooShort,
        ),
        r is Err ==> final(out)@ == old(out)@,
        r is Ok <==> n * n <= old(out)@.len() && n * n <= input@.len(),
        r is Ok ==> is_step_of(rule, input@, n as int, old(out)@, final(out)@),
{
    let nn = match n.checked_mul(n) {
        Some(nn) => nn,
        None => {
            proof {
                assert(out@.len() == out.len());
            }
            return Err(StepError::OutputTooShort);
        },
    };
    if nn > out.len() {
        return Err(StepError::OutputTooShort);
    }
    if nn > input.len() {
        return Err(StepError::InputTooShort);
    }
    step_grid(out, input, n, rule);
    Ok(())
}

/// A step is deterministic: with a rule that gives one result per stencil, two
/// steps over the same input agree on every written cell, and over the same
/// prior output they leave identical buffers.
pub proof fn lemma_step_deterministic<T, F: Fn(Stencil<T>) -> T>(
    rule: F,
    input: Seq<T>,
    n: int,
    before1: Seq<T>,
    after1: Seq<T>,
    before2: Seq<T>,
    after2: Seq<T>,
)
    requires
        is_functional(rule),
        is_step_of(rule, input, n, before1, after1),
        is_step_of(rule, input, n, before2, after2),
    ensures
        forall|c: int| 0 <= c < n * n && c < after1.len() && c < after2.len() ==> after1[c] == after2[c],
        before1 == before2 ==> after1 == after2,
{
    assert forall|c: int| 0 <= c < n * n && c < after1.len() && c < after2.len() implies after1[c] == after2[c] by {
        assert(rule.ensures((stencil_at(input, n, c),), after1[c]));
        assert(rule.ensures((stencil_at(input, n, c),), after2[c]));
    }
    if before1 == before2 {
        assert forall|c: int| 0 <= c < after1.len() implies after1[c] == after2[c] by {
            if c < n * n {
                assert(rule.ensures((stencil_at(input, n, c),), after1[c]));
                assert(rule.ensures((stencil_at(input, n, c),), after2[c]));
            }
        }
        assert(after1 =~= after2);
    }
}

/// A step is local: when two inputs differ only at cell `k`, the outputs can
/// differ only at `k` and at its four wrap-around neighbours.
pub proof fn lemma_step_locality<T, F: Fn(Stencil<T>) -> T>(
    rule: F,
    n: int,
    k: int,
    input1: Seq<T>,
    input2: Seq<T>,
    before: Seq<T>,
    after1: Seq<T>,
    after2: Seq<T>,
)
    requires
        is_functional(rule),
        0 <= n,
        0 <= k < n * n,
        input1.len() == input2.len(),
        n * n <= input1.len(),
        forall|c: int| 0 <= c < input1.len() && c != k ==> input1[c] == input2[c],
        is_step_of(rule, input1, n, before, after1),
        is_step_of(rule, input2, n, before, after2),
    ensures
        forall|c: int|
            0 <= c < after1.len() && after1[c] != after2[c] ==> c == k || c == above(n, k) || c
                == below(n, k) || c == left_of(n, k) || c == right_of(n, k),
{
    assert(n > 0) by (nonlinear_arith)
        requires
            0 <= n,
            0 <= k < n * n,
    ;
    assert forall|c: int|
        0 <= c < after1.len() && after1[c] != after2[c] implies c == k || c == above(n, k) || c
            == below(n, k) || c == left_of(n, k) || c == right_of(n, k) by {
        if c < n * n {
            lemma_neighbor_symmetry(n, c);
            lemma_neighbors_in_grid(n, c);
            if c != k && c != above(n, k) && c != below(n, k) && c != left_of(n, k) && c != right_of(n, k) {
                assert(stencil_at(input1, n, c) == stencil_at(input2, n, c));
                assert(rule.ensures((stencil_at(input1, n, c),), after1[c]));
                assert(rule.ensures((stencil_at(input2, n, c),), after2[c]));
            }
        }
    }
}

} // verus!
