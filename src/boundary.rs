//! Checks on the arguments of a call that arrives as two buffer addresses and
//! a signed side length, before any memory is touched.
use vstd::prelude::*;

use crate::error::StepError;

verus! {

/// Bytes in one cell: a 32-bit float, which is also its alignment.
pub const CELL_BYTES: usize = 4;

/// Bytes in a grid of side `n`.
pub open spec fn grid_bytes(n: int) -> int {
    CELL_BYTES * (n * n)
}

/// The byte ranges `[a, a + len)` and `[b, b + len)` share a byte.
pub open spec fn ranges_overlap(a: int, b: int, len: int) -> bool {
    a < b + len && b < a + len
}

/// The first broken precondition of a call with these arguments, if any:
/// the side length must not be negative, both addresses must be non-null and
/// aligned, each buffer must end inside the address space with a byte size
/// within `isize::MAX`, and the buffers must be distinct and disjoint.
pub open spec fn raw_call_error(out_addr: int, in_addr: int, n: int) -> Option<StepError> {
    if n < 0 {
        Some(StepError::NegativeDimension)
    } else if out_addr == 0 || in_addr == 0 {
        Some(StepError::NullBuffer)
    } else if out_addr % CELL_BYTES as int != 0 || in_addr % CELL_BYTES as int != 0 {
        Some(StepError::MisalignedBuffer)
    } else if grid_bytes(n) > isize::MAX || out_addr + grid_bytes(n) > usize::MAX || in_addr
        + grid_bytes(n) > usize::MAX {
        Some(StepError::GridTooLarge)
    } else if out_addr == in_addr || ranges_overlap(out_addr, in_addr, grid_bytes(n)) {
        Some(StepError::AliasedBuffers)
    } else {
        None
    }
}

/// A call whose output and input addresses are equal is always refused, for
/// every side length.
pub proof fn lemma_same_buffer_refused(addr: int, n: int)
    ensures
        raw_call_error(addr, addr, n) is Some,
{
}

/// Whether the byte ranges `[a, a + len)` and `[b, b + len)` share a byte.
pub fn buffers_overlap(a: usize, b: usize, len: usize) -> (r: bool)
    requires
        a + len <= usize::MAX,
        b + len <= usize::MAX,
    ensures
        r == ranges_overlap(a as int, b as int, len as int),
{
    a < b + len && b < a + len
}

/// Validates the arguments of a call made with an output address, an input
/// address and a signed side length. On success returns the number of cells,
/// `n * n`, that each buffer is then known to span; otherwise the first broken
/// precondition.
pub fn validate_raw_call(out_addr: usize, in_addr: usize, n: i32) -> (r: Result<usize, StepError>)
    ensures
        r == (match raw_call_error(out_addr as int, in_addr as int, n as int) {
            Some(e) => Err::<usize, StepError>(e),
            None => Ok((n * n) as usize),
        }),
{
    if n < 0 {
        return Err(StepError::NegativeDimension);
    }
    if out_addr == 0 || in_addr == 0 {
        return Err(StepError::NullBuffer);
    }
    if out_addr % CELL_BYTES != 0 || in_addr % CELL_BYTES != 0 {
        return Err(StepError::MisalignedBuffer);
    }
    let side = n as usize;
    let cells = match side.checked_mul(side) {
        Some(k) => k,
        None => {
            return Err(StepError::GridTooLarge);
        },
    };
    let bytes = match cells.checked_mul(CELL_BYTES) {
        Some(k) => k,
        None => {
            return Err(StepError::GridTooLarge);
        },
    };
    if bytes > isize::MAX as usize || bytes > usize::MAX - out_addr || bytes > usize::MAX
        - in_addr {
        return Err(StepError::GridTooLarge);
    }
    if out_addr == in_addr || buffers_overlap(out_addr, in_addr, bytes) {
        return Err(StepError::AliasedBuffers);
    }
    Ok(cells)
}

} // verus!
