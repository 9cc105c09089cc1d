//! Planning of row operations for dense square matrices.
//!
//! A forward elimination is recorded as a stream of [`planner::RowOperation`]s
//! instead of being applied ([`elimination`]), and such a stream is cut into
//! the least number of consecutive batches whose members may run side by
//! side ([`planner`]). What holds of every stream and of every schedule is
//! proved in [`elimination_laws`] and [`schedule_laws`].
//!
//! The crate does no arithmetic on matrix entries. It carries them as the
//! bit patterns of binary64 numbers ([`scalar::Scalar`]), tells zero,
//! infinities and NaN apart by those bits, and leaves every quotient,
//! product and difference to its caller.

pub mod elimination;
pub mod elimination_laws;
pub mod error;
pub mod matrix;
pub mod planner;
pub mod scalar;
pub mod schedule_laws;
