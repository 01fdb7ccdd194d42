use vstd::prelude::*;

verus! {

/// Failures of the tick-index price math and of tick-page addressing.
#[derive(Clone, Copy, Debug, PartialEq, Eq, Structural)]
pub enum TickMathError {
    /// A tick index lies outside `[MIN_TICK, MAX_TICK]`, or a square-root
    /// price lies outside `[MIN_SQRT_PRICE_X64, MAX_SQRT_PRICE_X64]`.
    TickOutOfRange,
}

/// Failures of liquidity conversions and of position/tick mutation.
#[derive(Clone, Copy, Debug, PartialEq, Eq, Structural)]
pub enum LiquidityError {
    /// A liquidity change of zero was requested.
    ZeroLiquidity,
    /// A decrease asks for more liquidity than the position holds.
    InsufficientLiquidity,
    /// A decrease would drive a tick's gross liquidity below zero.
    LiquidityUnderflow,
    /// A price range with `sqrt_price_upper <= sqrt_price_lower`, or an
    /// invalid tick range.
    InvalidPriceRange,
    /// An intermediate or final quantity does not fit its width.
    MathOverflow,
    /// A tick is not covered by the addressed tick page, or is not aligned
    /// to the page's spacing grid.
    TickOutOfPage,
}

/// Failures of swap execution.
#[derive(Clone, Copy, Debug, PartialEq, Eq, Structural)]
pub enum SwapError {
    /// The price limit does not lie strictly between the current price and
    /// the directional bound.
    InvalidSqrtPriceLimit,
    /// The pool has no active liquidity.
    NoLiquidity,
    /// The swap input amount is zero.
    ZeroAmount,
    /// The output amount fell below the caller's minimum.
    SlippageExceeded,
    /// An intermediate or accumulated quantity does not fit its width.
    MathOverflow,
}

} // verus!
