use pattern_engine::bars::BarAggregator;
use pattern_engine::detect::SymbolState;
use pattern_engine::engine::SymbolEngine;
use pattern_engine::num::SCALE;

#[test]
fn test_bar_aggregator_single_close() {
    let mut agg = BarAggregator::new(vec![60]);

    let closed = agg.on_tick(100 * SCALE, 10 * SCALE, 0);
    assert_eq!(closed.len(), 0);

    let closed = agg.on_tick(105 * SCALE, 5 * SCALE, 30 * SCALE);
    assert_eq!(closed.len(), 0);

    // The tick at 61 seconds falls in the next bucket: exactly one
    // bar closes, reflecting only the first two ticks.
    let closed = agg.on_tick(95 * SCALE, 1 * SCALE, 61 * SCALE);
    assert_eq!(closed.len(), 1);
    let (interval, bar) = closed[0];
    assert_eq!(interval, 60);
    assert_eq!(bar.start, 0);
    assert_eq!(bar.open, 100 * SCALE);
    assert_eq!(bar.high, 105 * SCALE);
    assert_eq!(bar.low, 100 * SCALE);
    assert_eq!(bar.close, 105 * SCALE);
    assert_eq!(bar.volume, 15 * SCALE);
}

#[test]
fn test_bar_aggregator_bucket_alignment() {
    let mut agg = BarAggregator::new(vec![60, 300]);
    agg.on_tick(100 * SCALE, 1 * SCALE, 125 * SCALE);
    assert_eq!(agg.open_bars.len(), 2);
    let b60 = agg.open_bars[0].unwrap();
    let b300 = agg.open_bars[1].unwrap();
    assert_eq!(b60.start, 120);
    assert_eq!(b300.start, 0);
}

#[test]
fn test_cooldown_suppresses_second_signal() {
    let mut state = SymbolState::new("AAPL".to_string());

    // Warm up: seed the averages far enough back that the cooldown
    // from time zero has elapsed.
    let first = state.update_and_detect(100 * SCALE, 10 * SCALE, 40 * SCALE);
    assert!(first.is_none());

    // A price jump with a volume spike crosses the threshold.
    let second = state.update_and_detect(200 * SCALE, 5000 * SCALE, 100 * SCALE);
    assert!(second.is_some());
    let sig = second.unwrap();
    assert_eq!(sig.symbol.as_str(), "AAPL");
    assert!(sig.score.abs() > 300_000_000);

    // An equally strong move ten seconds later is inside the
    // thirty-second cooldown window: no signal, but the indicators
    // still absorbed all three observations.
    let third = state.update_and_detect(300 * SCALE, 5000 * SCALE, 110 * SCALE);
    assert!(third.is_none());
    assert_eq!(state.welford.count, 3);
    assert_eq!(state.volume_count, 3);

    // Well past the window the machine may emit again.
    let fourth = state.update_and_detect(450 * SCALE, 5000 * SCALE, 150 * SCALE);
    assert!(fourth.is_some());
}

#[test]
fn test_atr_two_phase_smoothing() {
    let mut state = SymbolState::new("NVDA".to_string());
    // First observation has no previous close: no true range yet.
    state.update_and_detect(10 * SCALE, 1, 0);
    assert_eq!(state.atr, 0);
    // Second observation: running average of one true range over the
    // observation count, (0 * 1 + 2) / 2 = 1.
    state.update_and_detect(12 * SCALE, 1, 0);
    assert_eq!(state.atr, 1 * SCALE);
    // Third observation, still in the initial phase: (1 * 2 + 2) / 3.
    state.update_and_detect(14 * SCALE, 1, 0);
    assert_eq!(state.atr, 4 * SCALE / 3);
}

#[test]
fn test_signal_id_and_meta() {
    let mut state = SymbolState::new("TSLA".to_string());
    state.update_and_detect(100 * SCALE, 10 * SCALE, 40 * SCALE);
    let sig = state.update_and_detect(200 * SCALE, 5000 * SCALE, 100 * SCALE).unwrap();
    assert_eq!(sig.id.as_str(), "TSLA_100");
    assert_eq!(sig.timestamp, 100 * SCALE);
    assert_eq!(sig.pattern.as_str(), "volume_spike");
    let m = sig.meta.unwrap();
    assert_eq!(m.volume, 5000 * SCALE);
    assert!(m.ema_fast.is_some() && m.ema_slow.is_some());
    assert!(m.rsi.is_some() && m.atr.is_some());
    assert!(sig.pattern_meta.is_none());
}

#[test]
fn test_engine_replays_closed_bars_into_detection() {
    let mut engine = SymbolEngine::new("GOOGL".to_string(), vec![60]);
    engine.on_tick(100 * SCALE, 10 * SCALE, 0);
    assert_eq!(engine.state.volume_count, 1);

    // The second tick closes the first bar, so detection sees the
    // closed bar and then the tick itself: two more observations.
    engine.on_tick(101 * SCALE, 10 * SCALE, 61 * SCALE);
    assert_eq!(engine.state.volume_count, 3);
}

#[test]
fn test_engine_tags_bar_signals_with_interval() {
    let mut engine = SymbolEngine::new("AMZN".to_string(), vec![60]);
    engine.on_tick(100 * SCALE, 10 * SCALE, 0);
    // Closing the bar with a strong move: the bar replays at its
    // bucket start, outside the cooldown from time zero? The bar
    // closed at start 0 replays at time 0, still cooling down, so
    // only the tick-level detection can emit here.
    let detections = engine.on_tick(200 * SCALE, 5000 * SCALE, 61 * SCALE);
    for d in &detections {
        assert_eq!(d.signal.symbol.as_str(), "AMZN");
        assert!(d.features.len() == 6 || d.features.len() == 8);
        if d.signal.pattern.contains(":60s") {
            assert_eq!(d.features.len(), 8);
        }
    }
}
