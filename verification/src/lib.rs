//! Accounting core of a concentrated-liquidity market maker: tick-indexed
//! liquidity state, Q64.64 square-root price math, fee-growth attribution,
//! liquidity-amount conversions, and the swap state machine.
//!
//! Token transfers, account wiring and persistence are boundary collaborators:
//! callers hand this library plain values and apply its results.

pub mod errors;
pub mod fee_math;
pub mod full_math;
pub mod liquidity_math;
pub mod liquidity_ops;
pub mod pool;
pub mod position;
pub mod swap_engine;
pub mod swap_math;
pub mod tick;
pub mod tick_math;
pub mod tick_math_proofs;
