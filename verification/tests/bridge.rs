use tuner::bridge::{is_valid_config, BridgeConfig, DetectorRegistry};

type Output = (u32, u32);

fn registry() -> DetectorRegistry<&'static str, f32, Output> {
    DetectorRegistry::new()
}

fn produced(frames: Option<Vec<Vec<f32>>>) -> usize {
    frames.map(|frames| frames.len()).unwrap_or(0)
}

#[test]
fn unknown_detector_operations_are_safe() {
    let mut registry = registry();
    let unknown_detector_id = u32::MAX;

    assert_eq!(produced(registry.push_samples(unknown_detector_id, &[0.0, 1.0, 0.0])), 0);
    assert!(registry.next_output(unknown_detector_id).is_none());
    assert!(!registry.reset(unknown_detector_id, "fresh"));
    assert!(!registry.shutdown(unknown_detector_id));
    assert_eq!(registry.record_readings(unknown_detector_id, "fresh", vec![Some((1, 1))]), 0);
    assert!(registry.detector(unknown_detector_id).is_none());
    assert!(registry.config(unknown_detector_id).is_none());
}

#[test]
fn validates_configs() {
    assert!(is_valid_config(44_100, 4096, 1024));
    assert!(is_valid_config(1, 1, 1));
    assert!(!is_valid_config(0, 4096, 1024));
    assert!(!is_valid_config(44_100, 0, 0));
    assert!(!is_valid_config(44_100, 4096, 0));
    assert!(!is_valid_config(44_100, 1024, 4096));
}

#[test]
fn invalid_config_registers_nothing() {
    let mut registry = registry();
    assert_eq!(registry.new_detector(0, 4096, 1024, "a"), 0);
    assert_eq!(registry.new_detector(44_100, 1024, 2048, "a"), 0);
    assert!(registry.detector(0).is_none());
    assert_eq!(registry.new_detector(44_100, 4096, 1024, "a"), 1);
}

#[test]
fn ids_count_up_from_one_and_are_not_reused_while_taken() {
    let mut registry = registry();
    let first = registry.new_detector(44_100, 4096, 1024, "first");
    let second = registry.new_detector(48_000, 2048, 512, "second");
    assert_eq!(first, 1);
    assert_eq!(second, 2);
    assert!(registry.shutdown(first));
    let third = registry.new_detector(44_100, 4096, 1024, "third");
    assert_eq!(third, 3);
    assert_eq!(registry.detector(second), Some(&"second"));
    assert_eq!(
        registry.config(second),
        Some(BridgeConfig { sample_rate: 48_000, frame_size: 2048, hop_size: 512 })
    );
}

#[test]
fn detector_lifecycle_follows_contract() {
    let mut registry = registry();
    let id = registry.new_detector(8_000, 4, 2, "detector");
    assert_ne!(id, 0);

    assert_eq!(produced(registry.push_samples(id, &[])), 0);
    assert_eq!(produced(registry.push_samples(0, &[1.0])), 0);

    let frames = registry.push_samples(id, &[0.0, 1.0, 2.0]).unwrap();
    assert!(frames.is_empty());
    let frames = registry.push_samples(id, &[3.0, 4.0, 5.0, 6.0]).unwrap();
    assert_eq!(frames, vec![vec![0.0, 1.0, 2.0, 3.0], vec![2.0, 3.0, 4.0, 5.0]]);
    let frames = registry.push_samples(id, &[7.0]).unwrap();
    assert_eq!(frames, vec![vec![4.0, 5.0, 6.0, 7.0]]);

    let count = registry.record_readings(id, "replaced", vec![Some((1, 10)), None, Some((2, 20))]);
    assert_eq!(count, 2);
    assert_eq!(registry.detector(id), Some(&"replaced"));
    assert_eq!(registry.next_output(id), Some((1, 10)));
    assert_eq!(registry.next_output(id), Some((2, 20)));
    assert!(registry.next_output(id).is_none());

    assert_eq!(registry.record_readings(id, "replaced", vec![None, None]), 0);
    assert!(registry.next_output(id).is_none());
    assert_eq!(registry.record_readings(id, "replaced", vec![Some((3, 30))]), 1);
    registry.push_samples(id, &[8.0]);
    assert!(registry.reset(id, "fresh"));
    assert_eq!(registry.detector(id), Some(&"fresh"));
    assert!(registry.next_output(id).is_none());
    let frames = registry.push_samples(id, &[9.0, 10.0, 11.0]).unwrap();
    assert!(frames.is_empty());

    assert!(registry.shutdown(id));
    assert!(!registry.shutdown(id));
    assert!(registry.next_output(id).is_none());
}
