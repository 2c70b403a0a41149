//! Plain data shapes for the surrounding application's terminal and
//! download integrations; the engine only carries them.

use vstd::prelude::*;

verus! {

/// One installed trading terminal the application can read data from.
#[derive(Clone)]
pub struct TerminalInfo {
    pub name: String,
    pub data_path: String,
    pub custom_symbols_path: String,
    pub is_default: bool,
}

/// One tradable symbol as the application lists it.
#[derive(Clone)]
pub struct SymbolInfo {
    pub name: String,
    pub display_name: String,
    pub category: String,
}

/// An inclusive date range, as the application's wire strings.
#[derive(Clone)]
pub struct DateRange {
    pub start: String,
    pub end: String,
}

/// The outcome of one tick-data download.
#[derive(Clone)]
pub struct DownloadResult {
    pub success: bool,
    pub tick_count: u64,
    pub message: String,
    pub output_path: Option<String>,
}

} // verus!
