//! Core engine for a multi-timeframe market-data application: a keyed cache
//! of immutable OHLCV candle series, a deterministic timeframe aggregator,
//! and a steppable replay cursor over a loaded series.

pub mod aggregate;
pub mod cache;
pub mod candle;
pub mod engine;
pub mod fixed;
pub mod parse;
pub mod replay;
pub mod store;
pub mod text;
pub mod timeframe;
pub mod types;

use vstd::prelude::*;

verus! {

/// The errors the engine surfaces to callers.
#[derive(Clone, Copy, PartialEq, Eq, Structural, Debug)]
pub enum ChartError {
    /// A timeframe label did not parse.
    InvalidTimeframe,
    /// No native series is stored for the requested symbol.
    SymbolNotFound,
    /// The aggregation target is not strictly coarser than the source,
    /// or not an integer multiple of it.
    AggregationDirectionError,
    /// A field of an import row was malformed.
    ParseError,
    /// A replay cursor operation was attempted with no loaded session.
    EmptyReplaySession,
}

} // verus!
