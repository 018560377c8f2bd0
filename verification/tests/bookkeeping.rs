use photonix_core::ai::model_cache::{register_models, LoadStep, ModelCache, MAX_CACHED, MODEL_KEY_SCENE};
use photonix_core::compute::burst_stack::{
    choose_burst_frames, motion_class, sharpest_frame, sharpest_frames, BurstChoice, MotionClass,
};
use photonix_core::compute::exposure::{cumulative_histogram, first_positive, luma_histogram};
use photonix_core::compute::hdr_merge::pyramid_sizes;

#[test]
fn cache_returns_what_was_stored_and_evicts_the_least_recent() {
    let mut cache: ModelCache<u32> = ModelCache::new();
    assert_eq!(cache.get("denoiser"), None);
    cache.insert("denoiser", 1);
    cache.insert("enhancer", 2);
    assert_eq!(cache.get("denoiser"), Some(1));
    cache.insert("depth", 3);
    assert_eq!(MAX_CACHED, 2);
    assert_eq!(cache.get("enhancer"), None);
    assert_eq!(cache.get("denoiser"), Some(1));
    assert_eq!(cache.get("depth"), Some(3));
}

#[test]
fn scene_model_is_pinned() {
    let mut cache: ModelCache<u32> = ModelCache::new();
    assert_eq!(cache.get(MODEL_KEY_SCENE), None);
    cache.insert(MODEL_KEY_SCENE, 9);
    cache.insert("a", 1);
    cache.insert("b", 2);
    cache.insert("c", 3);
    assert_eq!(cache.get("scene_cls"), Some(9));
}

#[test]
fn registry_and_load_steps() {
    let mut cache: ModelCache<String> = ModelCache::new();
    register_models(&mut cache, &[("depth", "a.onnx"), ("denoiser", "b.onnx"), ("depth", "c.onnx")]);
    assert_eq!(cache.registered_path("depth"), Some("c.onnx".to_string()));
    assert_eq!(cache.registered_path("denoiser"), Some("b.onnx".to_string()));
    assert_eq!(cache.registered_path("super_res"), None);
    match cache.load_step("depth") {
        LoadStep::Build(p) => assert_eq!(p, "c.onnx"),
        _ => panic!("expected a build step"),
    }
    cache.insert("depth", "session".to_string());
    match cache.load_step("depth") {
        LoadStep::Cached(s) => assert_eq!(s, "session"),
        _ => panic!("expected a cached session"),
    }
    assert!(matches!(cache.load_step("enhancer"), LoadStep::NotRegistered));
    cache.register("enhancer", "e.onnx");
    assert!(matches!(cache.load_step("enhancer"), LoadStep::Build(_)));
}

#[test]
fn sharpest_frame_is_the_last_of_equals() {
    assert_eq!(sharpest_frame(&[3, 9, 2, 9, 1]), 3);
    assert_eq!(sharpest_frame(&[5]), 0);
}

#[test]
fn three_sharpest_frames_in_burst_order() {
    assert_eq!(sharpest_frames(&[4, 8, 1, 8, 6, 2], 3), vec![1, 3, 4]);
    assert_eq!(sharpest_frames(&[5, 5, 5, 5], 3), vec![0, 1, 2]);
    assert_eq!(sharpest_frames(&[1, 2], 3), vec![0, 1]);
    assert_eq!(MotionClass::Medium.as_str(), "medium");
    assert_eq!(MotionClass::High.as_str(), "high");
    assert_eq!(MotionClass::Low.as_str(), "low");
}

#[test]
fn histogram_and_cumulative_counts() {
    let bins = vec![0usize, 3, 3, 300, 255, 7];
    let hist = luma_histogram(&bins);
    assert_eq!(hist.len(), 256);
    assert_eq!(hist[0], 1);
    assert_eq!(hist[3], 2);
    assert_eq!(hist[255], 2);
    assert_eq!(hist[7], 1);
    let cdf = cumulative_histogram(&hist);
    assert_eq!(cdf[0], 1);
    assert_eq!(cdf[2], 1);
    assert_eq!(cdf[3], 3);
    assert_eq!(cdf[255], 6);
    assert_eq!(first_positive(&cdf), 1);
    assert_eq!(first_positive(&[0, 0, 4, 5]), 4);
    assert_eq!(first_positive(&[0, 0]), 1);
}

#[test]
fn pyramid_levels_halve_until_small() {
    assert_eq!(pyramid_sizes(128, 128, 5), vec![(128, 128), (64, 64), (32, 32), (16, 16), (8, 8)]);
    assert_eq!(pyramid_sizes(20, 9, 5), vec![(20, 9), (10, 4)]);
    assert_eq!(pyramid_sizes(3, 3, 5), vec![(3, 3)]);
    assert_eq!(pyramid_sizes(64, 64, 1), vec![(64, 64)]);
}

#[test]
fn motion_classes_route_the_burst() {
    assert_eq!(motion_class(true, true), MotionClass::Low);
    assert_eq!(motion_class(false, true), MotionClass::Medium);
    assert_eq!(motion_class(false, false), MotionClass::High);
    let keys = [5u32, 9, 9, 1, 7];
    let flags = [true, false, true, false, true];
    assert!(matches!(choose_burst_frames(MotionClass::High, &keys, &flags), BurstChoice::Single(2)));
    match choose_burst_frames(MotionClass::Medium, &keys, &flags) {
        BurstChoice::Merge(v) => assert_eq!(v, vec![1, 2, 4]),
        BurstChoice::Single(_) => panic!("medium motion merges"),
    }
    match choose_burst_frames(MotionClass::Low, &keys, &flags) {
        BurstChoice::Merge(v) => assert_eq!(v, vec![0, 2, 4]),
        BurstChoice::Single(_) => panic!("little motion merges"),
    }
}
