use charting_core::candle::{is_wf_series, Candle, OHLCVResponse};
use charting_core::fixed::{parse_decimal_units, FixedDec};
use charting_core::parse::{import_candles, parse_csv_row, parse_i64_bytes};
use charting_core::timeframe::TimeFrame;
use charting_core::ChartError;

#[test]
fn timeframe_labels_round_trip() {
    let all = [
        TimeFrame::M1,
        TimeFrame::M5,
        TimeFrame::M15,
        TimeFrame::M30,
        TimeFrame::H1,
        TimeFrame::H4,
        TimeFrame::D1,
        TimeFrame::W1,
    ];
    for tf in all {
        let label = tf.display();
        assert_eq!(TimeFrame::from_str(label.as_str()), Some(tf));
    }
    assert_eq!(TimeFrame::from_str("m1"), None);
    assert_eq!(TimeFrame::from_str("H2"), None);
    assert_eq!(TimeFrame::from_str(""), None);
}

#[test]
fn timeframe_durations() {
    assert_eq!(TimeFrame::M1.duration_seconds(), 60);
    assert_eq!(TimeFrame::M5.duration_seconds(), 300);
    assert_eq!(TimeFrame::M15.duration_seconds(), 900);
    assert_eq!(TimeFrame::M30.duration_seconds(), 1800);
    assert_eq!(TimeFrame::H1.duration_seconds(), 3600);
    assert_eq!(TimeFrame::H4.duration_seconds(), 14400);
    assert_eq!(TimeFrame::D1.duration_seconds(), 86400);
    assert_eq!(TimeFrame::W1.duration_seconds(), 604800);
}

#[test]
fn decimal_parsing_exact_values() {
    assert_eq!(parse_decimal_units(b"1.2345"), Some(123_450_000));
    assert_eq!(parse_decimal_units(b"0"), Some(0));
    assert_eq!(parse_decimal_units(b"-0.5"), Some(-50_000_000));
    assert_eq!(parse_decimal_units(b"10"), Some(1_000_000_000));
    assert_eq!(parse_decimal_units(b"9999999999.99999999"), Some(999_999_999_999_999_999));
    assert_eq!(parse_decimal_units(b"0.00000001"), Some(1));
}

#[test]
fn decimal_parsing_rejects_malformed_input() {
    assert_eq!(parse_decimal_units(b""), None);
    assert_eq!(parse_decimal_units(b"-"), None);
    assert_eq!(parse_decimal_units(b"abc"), None);
    assert_eq!(parse_decimal_units(b"1."), None);
    assert_eq!(parse_decimal_units(b".5"), None);
    assert_eq!(parse_decimal_units(b"1.123456789"), None); // nine fraction digits
    assert_eq!(parse_decimal_units(b"12345678901"), None); // eleven integer digits
    assert_eq!(parse_decimal_units(b"1,5"), None);
    assert_eq!(parse_decimal_units(b"1.2.3"), None);
}

#[test]
fn decimal_display_exact_strings() {
    assert_eq!(FixedDec::from_units(150_000_000).to_decimal_string(), "1.5".to_string());
    assert_eq!(FixedDec::from_units(0).to_decimal_string(), "0".to_string());
    assert_eq!(FixedDec::from_units(-314_000_000).to_decimal_string(), "-3.14".to_string());
    assert_eq!(FixedDec::from_units(1).to_decimal_string(), "0.00000001".to_string());
    assert_eq!(FixedDec::from_units(200_000_000).to_decimal_string(), "2".to_string());
    assert_eq!(
        FixedDec::from_units(123_456_789_000).to_decimal_string(),
        "1234.56789".to_string()
    );
}

#[test]
fn decimal_display_then_parse_round_trips() {
    for units in [
        0i128,
        1,
        -1,
        150_000_000,
        -150_000_000,
        999_999_999_999_999_999,
        -999_999_999_999_999_999,
        123_456_789,
    ] {
        let s = FixedDec::from_units(units).to_decimal_string();
        assert_eq!(parse_decimal_units(s.as_bytes()), Some(units));
    }
}

#[test]
fn integer_parsing() {
    assert_eq!(parse_i64_bytes(b"0"), Some(0));
    assert_eq!(parse_i64_bytes(b"1700000000"), Some(1_700_000_000));
    assert_eq!(parse_i64_bytes(b"-60"), Some(-60));
    assert_eq!(parse_i64_bytes(b"9223372036854775807"), Some(i64::MAX));
    assert_eq!(parse_i64_bytes(b"9223372036854775808"), None);
    assert_eq!(parse_i64_bytes(b""), None);
    assert_eq!(parse_i64_bytes(b"12a"), None);
}

#[test]
fn csv_row_parses_exactly() {
    let c = parse_csv_row(b"1700000000,1.5,2.0,1.0,1.8,10").unwrap();
    assert_eq!(c.time, 1_700_000_000);
    assert_eq!(c.open.units, 150_000_000);
    assert_eq!(c.high.units, 200_000_000);
    assert_eq!(c.low.units, 100_000_000);
    assert_eq!(c.close.units, 180_000_000);
    assert_eq!(c.volume.units, 1_000_000_000);
}

#[test]
fn csv_row_extra_fields_are_ignored() {
    let c = parse_csv_row(b"0,1,2,0.5,1.5,3,ignored,also").unwrap();
    assert_eq!(c.volume.units, 300_000_000);
}

#[test]
fn csv_row_errors_are_parse_errors() {
    assert_eq!(parse_csv_row(b"").unwrap_err(), ChartError::ParseError);
    assert_eq!(parse_csv_row(b"0,1,2,3,4").unwrap_err(), ChartError::ParseError);
    assert_eq!(parse_csv_row(b"zero,1,2,3,4,5").unwrap_err(), ChartError::ParseError);
    assert_eq!(parse_csv_row(b"0,one,2,3,4,5").unwrap_err(), ChartError::ParseError);
    assert_eq!(parse_csv_row(b"0,1,2,3,4,five").unwrap_err(), ChartError::ParseError);
}

#[test]
fn import_handles_crlf_and_blank_lines() {
    let text = b"0,1,1,1,1,1\r\n\r\n60,2,2,2,2,2\r\n";
    let candles = import_candles(text);
    assert_eq!(candles.len(), 2);
    assert_eq!(candles[0].time, 0);
    assert_eq!(candles[1].time, 60);
}

#[test]
fn import_without_trailing_newline() {
    let candles = import_candles(b"0,1,1,1,1,1\n60,2,2,2,2,2");
    assert_eq!(candles.len(), 2);
}

#[test]
fn imported_series_is_well_formed() {
    let candles = import_candles(b"0,1,1,1,1,1\n60,2,2,2,2,-2\n30,9,9,9,9,9\n");
    assert!(is_wf_series(&candles));
    assert_eq!(candles.len(), 2);
}

#[test]
fn wf_series_checker_spots_disorder() {
    let c0 = Candle {
        time: 60,
        open: FixedDec::from_units(1),
        high: FixedDec::from_units(1),
        low: FixedDec::from_units(1),
        close: FixedDec::from_units(1),
        volume: FixedDec::from_units(1),
    };
    let c1 = Candle { time: 0, ..c0 };
    assert!(is_wf_series(&vec![c1, c0]));
    assert!(!is_wf_series(&vec![c0, c1]));
    assert!(is_wf_series(&Vec::new()));
}

#[test]
fn response_strings_are_exact_decimals() {
    let c = Candle {
        time: 7,
        open: FixedDec::from_units(101_230_000),
        high: FixedDec::from_units(200_000_000),
        low: FixedDec::from_units(-50_000_000),
        close: FixedDec::from_units(100_000_000),
        volume: FixedDec::from_units(0),
    };
    let r = OHLCVResponse::from_candle(&c);
    assert_eq!(r.time, 7);
    assert_eq!(r.open, "1.0123".to_string());
    assert_eq!(r.high, "2".to_string());
    assert_eq!(r.low, "-0.5".to_string());
    assert_eq!(r.close, "1".to_string());
    assert_eq!(r.volume, "0".to_string());
}
