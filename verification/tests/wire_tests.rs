use pattern_engine::num::SCALE;
use pattern_engine::patterns::PatternMeta;
use pattern_engine::signal::{Signal, SignalMeta, Tick};
use pattern_engine::text::{fx_text_of, i64_text, u64_text};
use pattern_engine::wire::{signal_from_json, signal_to_json, tick_to_json};

fn sample_signal() -> Signal {
    Signal {
        id: "AAPL_1234567890".to_string(),
        symbol: "AAPL".to_string(),
        score: 750_000_000,
        pattern: "ema_crossover".to_string(),
        timestamp: 1234567890 * SCALE,
        meta: Some(SignalMeta {
            ema_fast: Some(150_500_000_000),
            ema_slow: Some(149_200_000_000),
            vwap: Some(150 * SCALE),
            volume: 1000 * SCALE,
            volatility: 20_000_000,
            rsi: Some(55 * SCALE),
            atr: Some(500_000_000),
        }),
        pattern_meta: Some(PatternMeta {
            name: "ema_crossover".to_string(),
            description: "EMA crossover".to_string(),
            tags: vec!["momentum".to_string()],
            strength: 600_000_000,
            polarity: 750_000_000,
            action: "buy".to_string(),
            confidence: 800_000_000,
            features: vec![],
        }),
    }
}

#[test]
fn test_signal_serialization() {
    let signal = sample_signal();
    let json = signal_to_json(&signal);
    let deserialized = signal_from_json(json.as_str()).unwrap();

    assert_eq!(signal.id, deserialized.id);
    assert_eq!(signal.symbol, deserialized.symbol);
    assert!((signal.score - deserialized.score).abs() < 1);
}

#[test]
fn test_signal_round_trip_full() {
    let signal = sample_signal();
    let json = signal_to_json(&signal);
    let de = signal_from_json(json.as_str()).unwrap();
    assert_eq!(de.pattern.as_str(), "ema_crossover");
    assert_eq!(de.timestamp, signal.timestamp);
    let m = de.meta.unwrap();
    assert_eq!(m.ema_fast, Some(150_500_000_000));
    assert_eq!(m.rsi, Some(55 * SCALE));
    let pm = de.pattern_meta.unwrap();
    assert_eq!(pm.name.as_str(), "ema_crossover");
    assert_eq!(pm.tags.len(), 1);
    assert_eq!(pm.features.len(), 0);
}

#[test]
fn test_absent_optional_fields_are_omitted() {
    let mut signal = sample_signal();
    signal.meta = None;
    signal.pattern_meta = None;
    let json = signal_to_json(&signal);
    assert!(!json.contains("\"meta\""));
    assert!(!json.contains("\"pattern_meta\""));
    assert!(!json.contains("null"));
    let de = signal_from_json(json.as_str()).unwrap();
    assert!(de.meta.is_none());
    assert!(de.pattern_meta.is_none());
}

#[test]
fn test_wire_number_format() {
    assert_eq!(fx_text_of(750_000_000).as_str(), "0.750000000");
    assert_eq!(fx_text_of(-2_500_000_000).as_str(), "-2.500000000");
    assert_eq!(fx_text_of(0).as_str(), "0.000000000");
    assert_eq!(u64_text(1234).as_str(), "1234");
    assert_eq!(i64_text(-5).as_str(), "-5");
    assert_eq!(i64_text(0).as_str(), "0");
}

#[test]
fn test_escaped_symbol_round_trip() {
    let mut signal = sample_signal();
    signal.symbol = "A\"B\\C".to_string();
    signal.id = "line1\nline2".to_string();
    let json = signal_to_json(&signal);
    let de = signal_from_json(json.as_str()).unwrap();
    assert_eq!(de.symbol, signal.symbol);
    assert_eq!(de.id, signal.id);
}

#[test]
fn test_reader_rejects_mangled_text() {
    let signal = sample_signal();
    let json = signal_to_json(&signal);
    let mut mangled = json.clone();
    mangled.push('x');
    assert!(signal_from_json(mangled.as_str()).is_none());
    assert!(signal_from_json("not json").is_none());
    assert!(signal_from_json("").is_none());
}

#[test]
fn test_tick_wire_form() {
    let tick = Tick {
        symbol: "MSFT".to_string(),
        price: 300_500_000_000,
        volume: 500 * SCALE,
        timestamp: 1696000001 * SCALE,
    };
    let json = tick_to_json(&tick);
    assert_eq!(
        json.as_str(),
        "{\"symbol\":\"MSFT\",\"price\":300.500000000,\"volume\":500.000000000,\"timestamp\":1696000001.000000000}"
    );
}

#[test]
fn test_pattern_meta_arrays_round_trip() {
    let mut signal = sample_signal();
    if let Some(pm) = &mut signal.pattern_meta {
        pm.tags = vec!["reversal".to_string(), "bearish".to_string()];
        pm.features = vec![1_000_000_000, -500_000_000, 250_000_000];
    }
    let json = signal_to_json(&signal);
    let de = signal_from_json(json.as_str()).unwrap();
    let pm = de.pattern_meta.unwrap();
    assert_eq!(pm.tags, vec!["reversal".to_string(), "bearish".to_string()]);
    assert_eq!(pm.features, vec![1_000_000_000, -500_000_000, 250_000_000]);
}
