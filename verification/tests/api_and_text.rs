use photonix_core::api::image_api::{
    benchmark_roundtrip, get_engine_version, process_image_bytes, roundtrip_result,
};
use photonix_core::error::EngineError;
use photonix_core::pipeline::codec::{decode_jpeg_rgb8, encode_rgb8_jpeg};
use photonix_core::text::{decimal_string, same_text};
use photonix_core::{configure_rayon, worker_thread_count, worker_thread_name};

#[test]
fn decimal_numerals() {
    assert_eq!(decimal_string(0), "0");
    assert_eq!(decimal_string(7), "7");
    assert_eq!(decimal_string(1024), "1024");
    assert_eq!(decimal_string(u64::MAX), u64::MAX.to_string());
    assert!(same_text("abc", "abc"));
    assert!(!same_text("abc", "abd"));
}

#[test]
fn roundtrip_report() {
    let r = roundtrip_result(4096, 12);
    assert_eq!(r.buffer_size_bytes, 4096);
    assert!(r.passed);
    assert_eq!(r.message, "PASS — 4KB in 12µs");
    let slow = roundtrip_result(1023, 5000);
    assert!(!slow.passed);
    assert_eq!(slow.message, "FAIL — 0KB in 5000µs");
    let measured = benchmark_roundtrip(vec![0u8; 3000]);
    assert_eq!(measured.buffer_size_bytes, 3000);
    assert_eq!(measured.passed, measured.rust_processing_us < 5000);
    assert!(measured.message.contains("2KB in "));
}

#[test]
fn version_line_and_identity() {
    assert_eq!(get_engine_version("1.2.3"), "Photonix Engine v1.2.3 (Rust 1.82+, frb 2.11)");
    assert_eq!(process_image_bytes(vec![1, 2, 3]), vec![1, 2, 3]);
}

#[test]
fn worker_threads() {
    assert_eq!(worker_thread_count(1), 2);
    assert_eq!(worker_thread_count(4), 2);
    assert_eq!(worker_thread_count(6), 3);
    assert_eq!(worker_thread_count(64), 4);
    assert_eq!(worker_thread_name(3), "photonix-worker-3");
    let (n, cores) = configure_rayon();
    assert!(cores >= 1);
    assert_eq!(n, worker_thread_count(cores));
    assert!((2..=4).contains(&n));
}

#[test]
fn jpeg_encode_then_decode() {
    let w = 16u32;
    let h = 8u32;
    let pixels: Vec<u8> = (0..(w * h * 3)).map(|i| (i % 251) as u8).collect();
    let jpeg = encode_rgb8_jpeg(pixels, w, h, 90).expect("encode failed");
    assert!(jpeg.len() > 100);
    assert_eq!(jpeg[0], 0xFF);
    assert_eq!(jpeg[1], 0xD8);
    let img = decode_jpeg_rgb8(&jpeg).expect("decode failed");
    assert_eq!(img.width, 16);
    assert_eq!(img.height, 8);
    assert_eq!(img.pixels.len(), 16 * 8 * 3);
}

#[test]
fn codec_refusals() {
    assert_eq!(encode_rgb8_jpeg(vec![0u8; 10], 4, 4, 90), Err(EngineError::BufferTooSmall));
    assert!(matches!(decode_jpeg_rgb8(&[1, 2, 3, 4]), Err(EngineError::Codec(_))));
    match decode_jpeg_rgb8(&[1, 2, 3, 4]) {
        Err(EngineError::Codec(message)) => assert!(!message.is_empty()),
        _ => panic!("the decoder should refuse these bytes"),
    }
}
