use pattern_engine::num::SCALE;
use pattern_engine::onnx_client::{OnnxClient, default_model_stub};
use pattern_engine::patterns::PatternLibrary;

#[test]
fn test_default_model_stub() {
    let features = vec![1 * SCALE, 2 * SCALE, 3 * SCALE];
    let result = default_model_stub(&features);
    assert!(result >= -SCALE && result <= SCALE);
}

#[test]
fn test_default_model_stub_exact_mean() {
    let features = vec![1 * SCALE, 2 * SCALE, 3 * SCALE];
    // The mean of 1, 2 and 3 is 2, which clamps to 1.
    assert_eq!(default_model_stub(&features), SCALE);
    let features = vec![300_000_000, -150_000_000];
    assert_eq!(default_model_stub(&features), 75_000_000);
    let empty: Vec<i64> = Vec::new();
    assert_eq!(default_model_stub(&empty), 0);
}

#[test]
fn test_onnx_client_stub() {
    let client = OnnxClient::new("dummy.onnx").unwrap();
    let features = vec![1 * SCALE, 2 * SCALE, 3 * SCALE];
    let result = client.infer(&features).unwrap();
    assert!(result >= -SCALE && result <= SCALE);
}

#[test]
fn test_lookup_known() {
    let lib = PatternLibrary::new("dummy.onnx").unwrap();
    let meta = lib.lookup_or_infer("double_top", None).unwrap();
    assert_eq!(meta.name.as_str(), "double_top");
    assert!(meta.polarity < 0);
    assert_eq!(meta.action.as_str(), "sell");
    assert!(meta.confidence > 0);
    assert_eq!(meta.tags, vec!["reversal".to_string(), "bearish".to_string()]);
    assert_eq!(meta.description.as_str(), "Two peaks at similar levels followed by a drop");
    assert!(meta.features.is_empty());
}

#[test]
fn test_infer_unknown_with_features() {
    let lib = PatternLibrary::new("dummy.onnx").unwrap();
    let features = vec![1_000_000_000, -500_000_000, 250_000_000];
    let meta = lib.lookup_or_infer("mystery_pattern", Some(&features)).unwrap();
    assert_eq!(meta.name.as_str(), "mystery_pattern");
    assert!(meta.polarity >= -SCALE && meta.polarity <= SCALE);
    assert_eq!(meta.features, features);
    assert!(meta.confidence >= 0 && meta.confidence <= SCALE);
}

#[test]
fn test_curated_resolution_idempotent() {
    let lib = PatternLibrary::new("dummy.onnx").unwrap();
    let first = lib.lookup_or_infer("double_top", None).unwrap();
    let other_features = vec![5 * SCALE];
    let second = lib.lookup_or_infer("double_top", Some(&other_features)).unwrap();
    assert_eq!(first.name, second.name);
    assert_eq!(first.description, second.description);
    assert_eq!(first.tags, second.tags);
    assert_eq!(first.strength, second.strength);
    assert_eq!(first.polarity, second.polarity);
    assert_eq!(first.action, second.action);
    assert_eq!(first.confidence, second.confidence);
    assert_eq!(first.features, second.features);
}

#[test]
fn test_is_known() {
    let lib = PatternLibrary::new("dummy.onnx").unwrap();
    assert!(lib.is_known("double_top"));
    assert!(lib.is_known("double_bottom"));
    assert!(lib.is_known("head_and_shoulders"));
    assert!(!lib.is_known("mystery_pattern"));
}

#[test]
fn test_synthesized_action_thresholds() {
    let lib = PatternLibrary::new("dummy.onnx").unwrap();
    // Mean 0.5: above the buy threshold of 0.2.
    let buys = vec![500_000_000];
    let meta = lib.lookup_or_infer("novel_up", Some(&buys)).unwrap();
    assert_eq!(meta.action.as_str(), "buy");
    assert_eq!(meta.strength, 500_000_000);
    assert_eq!(meta.confidence, 450_000_000);
    // Mean -0.5: below the sell threshold of -0.2.
    let sells = vec![-500_000_000];
    let meta = lib.lookup_or_infer("novel_down", Some(&sells)).unwrap();
    assert_eq!(meta.action.as_str(), "sell");
    assert_eq!(meta.tags.len(), 1);
    assert_eq!(meta.tags[0].as_str(), "bearish");
    // Mean 0.1: between the thresholds.
    let holds = vec![100_000_000];
    let meta = lib.lookup_or_infer("novel_flat", Some(&holds)).unwrap();
    assert_eq!(meta.action.as_str(), "hold");
    assert_eq!(meta.tags[0].as_str(), "bullish");
}
