use pattern_engine::num::SCALE;
use pattern_engine::replay::{count_rows, is_header_row_x, parse_fx, parse_replay_lines, parse_tick_row};

fn sample_lines() -> Vec<String> {
    vec![
        "symbol,price,volume,timestamp".to_string(),
        "AAPL,150.0,1000.0,1696000000".to_string(),
        "MSFT,300.5,500.0,1696000001".to_string(),
        "GOOGL,2800.0,200.0,1696000002".to_string(),
    ]
}

#[test]
fn test_replay_counts_and_rows() {
    let lines = sample_lines();
    let cnt = count_rows(&lines);
    assert_eq!(cnt, 3);

    let ticks = parse_replay_lines(&lines);
    assert_eq!(ticks.len(), 3);
    assert_eq!(ticks[0].symbol.as_str(), "AAPL");
    assert_eq!(ticks[0].price, 150 * SCALE);
    assert_eq!(ticks[0].volume, 1000 * SCALE);
    assert_eq!(ticks[0].timestamp, 1696000000 * SCALE);
    assert_eq!(ticks[1].symbol.as_str(), "MSFT");
    assert_eq!(ticks[1].price, 300_500_000_000);
}

#[test]
fn test_replay_skips_blank_and_short_rows() {
    let lines = vec![
        "".to_string(),
        "   ".to_string(),
        "AAPL,150.0,1000.0,1696000000".to_string(),
        "broken,row".to_string(),
        "MSFT,300.5,500.0,1696000001".to_string(),
    ];
    let ticks = parse_replay_lines(&lines);
    assert_eq!(ticks.len(), 2);
    // The simple count does not inspect fields, so the short row
    // still counts as a data row.
    assert_eq!(count_rows(&lines), 3);
}

#[test]
fn test_header_detection_is_case_insensitive() {
    assert!(is_header_row_x("symbol,price,volume,timestamp"));
    assert!(is_header_row_x("  Symbol,Price"));
    assert!(is_header_row_x("TIMESTAMP,symbol"));
    assert!(is_header_row_x("Price"));
    assert!(!is_header_row_x("AAPL,150.0,1000.0,1696000000"));
}

#[test]
fn test_parse_fx_values() {
    assert_eq!(parse_fx("150.0"), Some(150 * SCALE));
    assert_eq!(parse_fx("1696000000"), Some(1696000000 * SCALE));
    assert_eq!(parse_fx("-2.5"), Some(-2_500_000_000));
    assert_eq!(parse_fx("+0.25"), Some(250_000_000));
    assert_eq!(parse_fx("0.123456789123"), Some(123_456_789));
    assert_eq!(parse_fx(""), None);
    assert_eq!(parse_fx("abc"), None);
    assert_eq!(parse_fx("1.2.3"), None);
    assert_eq!(parse_fx("."), None);
    assert_eq!(parse_fx(".5"), Some(500_000_000));
    assert_eq!(parse_fx("5."), Some(5 * SCALE));
    assert_eq!(parse_fx("99999999999999999999"), None);
}

#[test]
fn test_parse_tick_row_fields() {
    let t = parse_tick_row(" AAPL , 150.0 , 1000.0 , 1696000000 ").unwrap();
    assert_eq!(t.symbol.as_str(), "AAPL");
    assert_eq!(t.price, 150 * SCALE);
    assert_eq!(t.volume, 1000 * SCALE);
    assert_eq!(t.timestamp, 1696000000 * SCALE);

    // Malformed numbers fall back to zero; short rows are nothing.
    let t = parse_tick_row("AAPL,oops,1000.0,1696000000").unwrap();
    assert_eq!(t.price, 0);
    assert!(parse_tick_row("AAPL,150.0,1000.0").is_none());

    // Extra fields are ignored.
    let t = parse_tick_row("AAPL,1.0,2.0,3.0,extra").unwrap();
    assert_eq!(t.timestamp, 3 * SCALE);
}
