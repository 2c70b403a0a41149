use charting_core::candle::Candle;
use charting_core::engine::{
    aggregate_data, clear_cache, get_app_info, get_cache_stats, get_data_window,
    get_session_config, get_available_symbols, import_csv_data, load_drawings, load_ohlcv_data,
    load_replay_session, pause_replay, save_drawings, seek_to_index, set_replay_speed,
    start_replay, step_backward, step_forward, stop_replay, update_session_config, CoreEngine,
    SessionConfigRequest,
};
use charting_core::fixed::FixedDec;
use charting_core::replay::ReplayState;
use charting_core::timeframe::TimeFrame;
use charting_core::ChartError;

fn dec(units: i128) -> FixedDec {
    FixedDec::from_units(units)
}

fn candle(time: i64, open: i128, high: i128, low: i128, close: i128, volume: i128) -> Candle {
    Candle {
        time,
        open: dec(open),
        high: dec(high),
        low: dec(low),
        close: dec(close),
        volume: dec(volume),
    }
}

/// One M1 candle per minute starting at `start`, `n` of them.
fn minute_series(start: i64, n: usize) -> Vec<Candle> {
    let mut out = Vec::new();
    for k in 0..n {
        let t = start + 60 * k as i64;
        let base = 100_000_000 + 1_000_000 * k as i128;
        out.push(candle(t, base, base + 2_000_000, base - 2_000_000, base + 1_000_000, 50_000_000));
    }
    out
}

fn engine_with(symbol: &str, tf: TimeFrame, data: Vec<Candle>) -> CoreEngine {
    let mut core = CoreEngine::new();
    core.save_ohlcv(symbol, tf, &data);
    core
}

#[test]
fn cache_round_trip_after_save() {
    let data = minute_series(0, 10);
    let mut core = engine_with("EURUSD", TimeFrame::M1, data.clone());
    let loaded = core.get_or_load("EURUSD", TimeFrame::M1).unwrap();
    assert_eq!(loaded.len(), 10);
    assert_eq!(loaded, data);
}

#[test]
fn save_invalidates_stale_cache_entry() {
    let first = minute_series(0, 5);
    let mut core = engine_with("EURUSD", TimeFrame::M1, first.clone());
    let a = core.get_or_load("EURUSD", TimeFrame::M1).unwrap();
    assert_eq!(a, first);
    // Overwrite the stored series; the next read must not reuse the
    // pre-save cached copy.
    let second = minute_series(6000, 7);
    core.save_ohlcv("EURUSD", TimeFrame::M1, &second);
    let b = core.get_or_load("EURUSD", TimeFrame::M1).unwrap();
    assert_eq!(b, second);
}

#[test]
fn unknown_symbol_is_symbol_not_found() {
    let mut core = CoreEngine::new();
    let r = core.get_or_load("GBPUSD", TimeFrame::M1);
    assert_eq!(r.unwrap_err(), ChartError::SymbolNotFound);
}

#[test]
fn cache_miss_aggregates_from_finest_native_series() {
    // 120 one-minute candles; asking for H1 must aggregate 60 each.
    let data = minute_series(0, 120);
    let mut core = engine_with("EURUSD", TimeFrame::M1, data);
    let hourly = core.get_or_load("EURUSD", TimeFrame::H1).unwrap();
    assert_eq!(hourly.len(), 2);
    assert_eq!(hourly[0].time, 0);
    assert_eq!(hourly[1].time, 3600);
    // open of first bucket, close of last candle in bucket
    assert_eq!(hourly[0].open.units, 100_000_000);
    assert_eq!(hourly[0].close.units, 100_000_000 + 1_000_000 * 59 + 1_000_000);
    // volume: 60 candles of 0.5 each
    assert_eq!(hourly[0].volume.units, 60 * 50_000_000);
}

#[test]
fn aggregation_to_finer_timeframe_is_an_error() {
    let mut hour = Vec::new();
    hour.push(candle(0, 1, 2, 1, 2, 3));
    hour.push(candle(3600, 2, 3, 2, 3, 4));
    let mut core = engine_with("EURUSD", TimeFrame::H1, hour);
    let r = core.get_or_load("EURUSD", TimeFrame::M1);
    assert_eq!(r.unwrap_err(), ChartError::AggregationDirectionError);
}

#[test]
fn aggregate_volume_is_preserved_and_extremes_bound() {
    let data = minute_series(0, 90);
    let src_vol: i128 = data.iter().map(|c| c.volume.units).sum();
    let src_high = data.iter().map(|c| c.high.units).max().unwrap();
    let src_low = data.iter().map(|c| c.low.units).min().unwrap();
    let mut core = engine_with("EURUSD", TimeFrame::M1, data);
    let hourly = core.get_or_load("EURUSD", TimeFrame::H1).unwrap();
    let out_vol: i128 = hourly.iter().map(|c| c.volume.units).sum();
    assert_eq!(out_vol, src_vol);
    let out_high = hourly.iter().map(|c| c.high.units).max().unwrap();
    let out_low = hourly.iter().map(|c| c.low.units).min().unwrap();
    assert_eq!(out_high, src_high);
    assert_eq!(out_low, src_low);
}

#[test]
fn aggregation_chains_match_direct_aggregation() {
    // M1 -> H1 -> D1 equals M1 -> D1 on identical coverage.
    let data = minute_series(0, 60 * 30);
    let mut core1 = engine_with("EURUSD", TimeFrame::M1, data.clone());
    let hourly = core1.get_or_load("EURUSD", TimeFrame::H1).unwrap();
    let mut core2 = engine_with("EURUSD", TimeFrame::H1, hourly);
    let daily_chained = core2.get_or_load("EURUSD", TimeFrame::D1).unwrap();
    let mut core3 = engine_with("EURUSD", TimeFrame::M1, data);
    let daily_direct = core3.get_or_load("EURUSD", TimeFrame::D1).unwrap();
    assert_eq!(daily_chained, daily_direct);
}

#[test]
fn cache_stats_track_live_entries() {
    let mut core = CoreEngine::new();
    let s0 = get_cache_stats(&core);
    assert_eq!(s0.entries, 0);
    assert_eq!(s0.total_candles, 0);
    core.save_ohlcv("EURUSD", TimeFrame::M1, &minute_series(0, 10));
    core.save_ohlcv("GBPUSD", TimeFrame::M1, &minute_series(0, 4));
    core.get_or_load("EURUSD", TimeFrame::M1).unwrap();
    let s1 = get_cache_stats(&core);
    assert_eq!(s1.entries, 1);
    assert_eq!(s1.total_candles, 10);
    core.get_or_load("GBPUSD", TimeFrame::M1).unwrap();
    let s2 = get_cache_stats(&core);
    assert_eq!(s2.entries, 2);
    assert_eq!(s2.total_candles, 14);
    // Saving a key evicts only that key's entry.
    core.save_ohlcv("EURUSD", TimeFrame::M1, &minute_series(0, 3));
    let s3 = get_cache_stats(&core);
    assert_eq!(s3.entries, 1);
    assert_eq!(s3.total_candles, 4);
    clear_cache(&mut core);
    let s4 = get_cache_stats(&core);
    assert_eq!(s4.entries, 0);
    assert_eq!(s4.total_candles, 0);
}

#[test]
fn eviction_keeps_totals_under_the_soft_target() {
    let mut core = CoreEngine::new();
    let req = SessionConfigRequest {
        symbol: "EURUSD".to_string(),
        timeframe: "M1".to_string(),
        max_cache_size: 15,
    };
    update_session_config(&mut core, &req).unwrap();
    core.save_ohlcv("A", TimeFrame::M1, &minute_series(0, 10));
    core.save_ohlcv("B", TimeFrame::M1, &minute_series(0, 10));
    core.get_or_load("A", TimeFrame::M1).unwrap();
    core.get_or_load("B", TimeFrame::M1).unwrap();
    let s = get_cache_stats(&core);
    assert!(s.total_candles <= 15);
    assert_eq!(s.entries, 1);
}

#[test]
fn oversized_series_is_admitted_anyway() {
    let mut core = CoreEngine::new();
    let req = SessionConfigRequest {
        symbol: "EURUSD".to_string(),
        timeframe: "M1".to_string(),
        max_cache_size: 5,
    };
    update_session_config(&mut core, &req).unwrap();
    core.save_ohlcv("A", TimeFrame::M1, &minute_series(0, 50));
    let loaded = core.get_or_load("A", TimeFrame::M1).unwrap();
    assert_eq!(loaded.len(), 50);
    let s = get_cache_stats(&core);
    assert_eq!(s.entries, 1);
    assert_eq!(s.total_candles, 50);
}

#[test]
fn replay_step_round_trip_returns_to_start() {
    let mut core = engine_with("EURUSD", TimeFrame::M1, minute_series(0, 20));
    load_replay_session(&mut core, "EURUSD", "M1").unwrap();
    let fwd = step_forward(&mut core, Some(5)).unwrap();
    assert_eq!(fwd.current_index, 5);
    let back = step_backward(&mut core, Some(5)).unwrap();
    assert_eq!(back.current_index, 0);
    // Clamped at the start: stepping backward from 0 stays at 0.
    let back2 = step_backward(&mut core, Some(3)).unwrap();
    assert_eq!(back2.current_index, 0);
}

#[test]
fn replay_seek_clamps_and_reports_full_progress() {
    let mut core = engine_with("EURUSD", TimeFrame::M1, minute_series(0, 100));
    load_replay_session(&mut core, "EURUSD", "M1").unwrap();
    let u = seek_to_index(&mut core, 1_000_000).unwrap();
    assert_eq!(u.current_index, 99);
    assert_eq!(u.progress_num, 99);
    assert_eq!(u.progress_den, 99);
    let progress = u.progress_num as f64 / u.progress_den as f64;
    assert_eq!(progress, 1.0);
}

#[test]
fn replay_scenario_five_candles() {
    // Candles at 0, 60, 120, 180, 240 seconds.
    let mut core = engine_with("EURUSD", TimeFrame::M1, minute_series(0, 5));
    let info = load_replay_session(&mut core, "EURUSD", "M1").unwrap();
    assert_eq!(info.total_candles, 5);
    assert_eq!(info.start_time, 0);
    assert_eq!(info.end_time, 240);
    let u1 = step_forward(&mut core, Some(2)).unwrap();
    assert_eq!(u1.current_index, 2);
    assert_eq!(u1.time, 120);
    let u2 = step_backward(&mut core, Some(10)).unwrap();
    assert_eq!(u2.current_index, 0);
    assert_eq!(u2.time, 0);
    let u3 = seek_to_index(&mut core, 4).unwrap();
    assert_eq!(u3.current_index, 4);
    assert_eq!(u3.progress_num as f64 / u3.progress_den as f64, 1.0);
}

#[test]
fn replay_controls_and_empty_session_errors() {
    let mut core = CoreEngine::new();
    assert_eq!(start_replay(&mut core).unwrap_err(), ChartError::EmptyReplaySession);
    assert_eq!(
        step_forward(&mut core, None).unwrap_err(),
        ChartError::EmptyReplaySession
    );
    assert_eq!(
        step_backward(&mut core, None).unwrap_err(),
        ChartError::EmptyReplaySession
    );
    assert_eq!(
        seek_to_index(&mut core, 3).unwrap_err(),
        ChartError::EmptyReplaySession
    );
    // Pausing is always safe.
    pause_replay(&mut core).unwrap();
    let snap = charting_core::engine::get_replay_state(&core);
    assert!(!snap.is_loaded);
    assert!(!snap.is_playing);
    assert_eq!(snap.current_index, 0);

    core.save_ohlcv("EURUSD", TimeFrame::M1, &minute_series(0, 3));
    load_replay_session(&mut core, "EURUSD", "M1").unwrap();
    start_replay(&mut core).unwrap();
    let playing = charting_core::engine::get_replay_state(&core);
    assert!(playing.is_playing);
    // Stepping interrupts autoplay.
    step_forward(&mut core, Some(1)).unwrap();
    let paused = charting_core::engine::get_replay_state(&core);
    assert!(!paused.is_playing);
    assert_eq!(paused.current_index, 1);
    stop_replay(&mut core).unwrap();
    let stopped = charting_core::engine::get_replay_state(&core);
    assert_eq!(stopped.current_index, 0);
    assert!(stopped.is_loaded);
}

#[test]
fn replay_speed_is_clamped() {
    let mut core = engine_with("EURUSD", TimeFrame::M1, minute_series(0, 3));
    load_replay_session(&mut core, "EURUSD", "M1").unwrap();
    set_replay_speed(&mut core, FixedDec::from_units(25_000_000)).unwrap();
    assert_eq!(core.replay.speed.units, 25_000_000);
    set_replay_speed(&mut core, FixedDec::from_units(0)).unwrap();
    assert_eq!(core.replay.speed.units, 10_000_000); // 0.1
    set_replay_speed(&mut core, FixedDec::from_units(5_000_000_000)).unwrap();
    assert_eq!(core.replay.speed.units, 1_000_000_000); // 10.0
}

#[test]
fn replay_loading_replaces_prior_session() {
    let mut core = engine_with("EURUSD", TimeFrame::M1, minute_series(0, 10));
    core.save_ohlcv("GBPUSD", TimeFrame::M1, &minute_series(0, 4));
    load_replay_session(&mut core, "EURUSD", "M1").unwrap();
    seek_to_index(&mut core, 7).unwrap();
    let info = load_replay_session(&mut core, "GBPUSD", "M1").unwrap();
    assert_eq!(info.total_candles, 4);
    assert_eq!(info.current_index, 0);
    let snap = charting_core::engine::get_replay_state(&core);
    assert_eq!(snap.symbol, "GBPUSD".to_string());
    assert_eq!(snap.current_index, 0);
}

#[test]
fn import_skips_malformed_rows() {
    // Three rows, one with a bad `open` field: two candles imported.
    let text = b"0,1.5,2.0,1.0,1.8,10\n60,xyz,2.0,1.0,1.8,10\n120,1.9,2.5,1.7,2.2,12\n";
    let mut core = CoreEngine::new();
    let r = import_csv_data(&mut core, text, "EURUSD", "M1").unwrap();
    assert_eq!(r.candles_imported, 2);
    assert_eq!(r.symbol, "EURUSD".to_string());
    assert_eq!(r.timeframe, "M1".to_string());
    let data = core.get_or_load("EURUSD", TimeFrame::M1).unwrap();
    assert_eq!(data.len(), 2);
    assert_eq!(data[0].time, 0);
    assert_eq!(data[0].open.units, 150_000_000);
    assert_eq!(data[1].time, 120);
    assert_eq!(data[1].close.units, 220_000_000);
}

#[test]
fn import_rejects_non_increasing_timestamps() {
    let text = b"60,1,1,1,1,1\n60,2,2,2,2,2\n0,3,3,3,3,3\n120,4,4,4,4,4\n";
    let mut core = CoreEngine::new();
    let r = import_csv_data(&mut core, text, "EURUSD", "M1").unwrap();
    assert_eq!(r.candles_imported, 2);
    let data = core.get_or_load("EURUSD", TimeFrame::M1).unwrap();
    assert_eq!(data[0].time, 60);
    assert_eq!(data[1].time, 120);
}

#[test]
fn import_with_bad_timeframe_label_fails() {
    let mut core = CoreEngine::new();
    let r = import_csv_data(&mut core, b"0,1,1,1,1,1\n", "EURUSD", "Q3");
    assert_eq!(r.unwrap_err(), ChartError::InvalidTimeframe);
}

#[test]
fn load_ohlcv_data_returns_decimal_strings() {
    let mut data = Vec::new();
    data.push(candle(0, 150_000_000, 200_000_000, 100_000_000, 180_000_000, 1_000_000_000));
    let mut core = engine_with("EURUSD", TimeFrame::M1, data);
    let rows = load_ohlcv_data(&mut core, "EURUSD", "M1").unwrap();
    assert_eq!(rows.len(), 1);
    assert_eq!(rows[0].time, 0);
    assert_eq!(rows[0].open, "1.5".to_string());
    assert_eq!(rows[0].high, "2".to_string());
    assert_eq!(rows[0].low, "1".to_string());
    assert_eq!(rows[0].close, "1.8".to_string());
    assert_eq!(rows[0].volume, "10".to_string());
}

#[test]
fn load_ohlcv_data_rejects_bad_label() {
    let mut core = CoreEngine::new();
    let r = load_ohlcv_data(&mut core, "EURUSD", "M2");
    assert_eq!(r.unwrap_err(), ChartError::InvalidTimeframe);
}

#[test]
fn data_window_clamps_the_end() {
    let mut core = engine_with("EURUSD", TimeFrame::M1, minute_series(0, 10));
    let w = get_data_window(&mut core, "EURUSD", "M1", 4, 100).unwrap();
    assert_eq!(w.len(), 6);
    assert_eq!(w[0].time, 240);
    // An inverted range yields an empty window.
    let e = get_data_window(&mut core, "EURUSD", "M1", 8, 2).unwrap();
    assert_eq!(e.len(), 0);
}

#[test]
fn aggregate_data_command_checks_labels_and_direction() {
    let mut core = engine_with("EURUSD", TimeFrame::M1, minute_series(0, 120));
    let rows = aggregate_data(&mut core, "EURUSD", "M1", "H1").unwrap();
    assert_eq!(rows.len(), 2);
    let bad = aggregate_data(&mut core, "EURUSD", "huh", "H1");
    assert_eq!(bad.unwrap_err(), ChartError::InvalidTimeframe);
    let wrong_way = aggregate_data(&mut core, "EURUSD", "M1", "M1");
    assert_eq!(wrong_way.unwrap_err(), ChartError::AggregationDirectionError);
}

#[test]
fn session_config_updates_and_reads_back() {
    let mut core = CoreEngine::new();
    let req = SessionConfigRequest {
        symbol: "XAUUSD".to_string(),
        timeframe: "H4".to_string(),
        max_cache_size: 777,
    };
    update_session_config(&mut core, &req).unwrap();
    let resp = get_session_config(&core);
    assert_eq!(resp.symbol, "XAUUSD".to_string());
    assert_eq!(resp.timeframe, "H4".to_string());
    assert_eq!(resp.max_cache_size, 777);
    let bad = SessionConfigRequest {
        symbol: "X".to_string(),
        timeframe: "H5".to_string(),
        max_cache_size: 1,
    };
    assert_eq!(
        update_session_config(&mut core, &bad).unwrap_err(),
        ChartError::InvalidTimeframe
    );
}

#[test]
fn available_symbols_lists_stored_series() {
    let mut core = CoreEngine::new();
    core.save_ohlcv("EURUSD", TimeFrame::M1, &minute_series(0, 2));
    core.save_ohlcv("GBPUSD", TimeFrame::M1, &minute_series(0, 2));
    let symbols = get_available_symbols(&core);
    assert_eq!(symbols.len(), 2);
    assert!(symbols.contains(&"EURUSD".to_string()));
    assert!(symbols.contains(&"GBPUSD".to_string()));
}

#[test]
fn app_info_and_drawing_stubs() {
    assert_eq!(get_app_info(), "Charting DAAVFX v1.0".to_string());
    let mut core = CoreEngine::new();
    save_drawings(&mut core, "EURUSD", "M1", "[]").unwrap();
    assert_eq!(load_drawings(&core, "EURUSD", "M1").unwrap(), "[]".to_string());
}

#[test]
fn replay_state_struct_defaults() {
    let r = ReplayState::empty();
    assert_eq!(r.current_index, 0);
    assert!(!r.is_playing);
    assert_eq!(r.speed.units, 100_000_000);
    assert_eq!(r.data.len(), 0);
}

#[test]
fn empty_source_aggregates_to_empty_output() {
    let mut core = engine_with("EURUSD", TimeFrame::M1, Vec::new());
    let out = core.get_or_load("EURUSD", TimeFrame::H1).unwrap();
    assert!(out.is_empty());
}

#[test]
fn empty_series_cannot_open_a_replay_session() {
    let mut core = engine_with("EURUSD", TimeFrame::M1, Vec::new());
    let r = load_replay_session(&mut core, "EURUSD", "M1");
    assert_eq!(r.unwrap_err(), ChartError::EmptyReplaySession);
    // The failed load left no trace in the cache.
    let s = get_cache_stats(&core);
    assert_eq!(s.entries, 0);
    assert_eq!(s.total_candles, 0);
}

#[test]
fn failed_aggregation_direction_leaves_the_cache_untouched() {
    let mut core = engine_with("EURUSD", TimeFrame::M1, minute_series(0, 10));
    let r = aggregate_data(&mut core, "EURUSD", "H1", "M1");
    assert_eq!(r.unwrap_err(), ChartError::AggregationDirectionError);
    let s = get_cache_stats(&core);
    assert_eq!(s.entries, 0);
    assert_eq!(s.total_candles, 0);
}

#[test]
fn replay_state_default_is_empty() {
    let r = ReplayState::default();
    assert_eq!(r.current_index, 0);
    assert!(!r.is_playing);
    assert_eq!(r.data.len(), 0);
}
