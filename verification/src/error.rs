//! The ways in which a factorization or a check of operations fails.

use vstd::prelude::*;

verus! {

/// Why a call gave no result.
#[derive(Debug, Copy, Clone, PartialEq, Eq, Structural)]
pub enum PlanError {
    /// The pivot on the diagonal at `pivot` is zero, or so small that a
    /// multiplier of its column is not a finite number.
    SingularPivot { pivot: usize },
    /// The operation at `position` of a stream names row `row`, which a
    /// matrix with `rows` rows does not have.
    IndexOutOfRange { position: usize, row: usize, rows: usize },
}

} // verus!
