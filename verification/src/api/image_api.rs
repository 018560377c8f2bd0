//! The application-facing operations and their small rules.
use std::time::Instant;
use vstd::prelude::*;
use vstd::string::*;

use crate::pipeline::scene::{spec_from_hint, Scene};
use crate::text::{decimal, decimal_string};

verus! {

/// Returned by `benchmark_roundtrip`.
pub struct RoundtripResult {
    pub buffer_size_bytes: u64,
    pub rust_processing_us: u64,
    pub passed: bool,
    pub message: String,
}

/// A round trip passes when it took under five milliseconds.
pub open spec fn roundtrip_passes(elapsed_us: u64) -> bool {
    elapsed_us < 5000
}

/// "PASS — <KiB>KB in <µs>µs" (or FAIL).
pub open spec fn roundtrip_message(size: u64, elapsed_us: u64) -> Seq<char> {
    (if roundtrip_passes(elapsed_us) { "PASS"@ } else { "FAIL"@ }) + " — "@ + decimal((size / 1024) as nat)
        + "KB in "@ + decimal(elapsed_us as nat) + "µs"@
}

/// The report of a round trip of `size` bytes that took `elapsed_us` microseconds.
pub fn roundtrip_result(size: u64, elapsed_us: u64) -> (r: RoundtripResult)
    ensures
        r.buffer_size_bytes == size,
        r.rust_processing_us == elapsed_us,
        r.passed == roundtrip_passes(elapsed_us),
        r.message@ == roundtrip_message(size, elapsed_us),
{
    let passed = elapsed_us < 5000;
    let mut message = String::from_str(if passed { "PASS" } else { "FAIL" });
    message.append(" — ");
    let kib = decimal_string(size / 1024);
    message.append(kib.as_str());
    message.append("KB in ");
    let us = decimal_string(elapsed_us);
    message.append(us.as_str());
    message.append("µs");
    RoundtripResult { buffer_size_bytes: size, rust_processing_us: elapsed_us, passed, message }
}

/// The clock's `std::time::Instant`, carried through opaquely.
#[verifier::external_type_specification]
#[verifier::external_body]
pub struct ExInstant(std::time::Instant);

/// Calls `Instant::now`; nothing is claimed of the instant.
#[verifier::external_body]
fn instant_now() -> Instant {
    Instant::now()
}

/// Calls `Instant::elapsed` and reads the duration in whole microseconds, cut
/// to 64 bits; the value depends on the clock and nothing is claimed of it.
#[verifier::external_body]
fn micros_since(start: &Instant) -> u64 {
    start.elapsed().as_micros() as u64
}

/// Measures how long handing a buffer over takes. The time measured depends on
/// the clock; the report is built from the buffer's length and that time.
pub fn benchmark_roundtrip(bytes: Vec<u8>) -> (r: RoundtripResult)
    ensures
        r.buffer_size_bytes == bytes@.len(),
        r.passed == roundtrip_passes(r.rust_processing_us),
        r.message@ == roundtrip_message(r.buffer_size_bytes, r.rust_processing_us),
{
    let size = bytes.len() as u64;
    let start = instant_now();
    let elapsed = micros_since(&start);
    roundtrip_result(size, elapsed)
}

/// The engine's version line for the crate version `crate_version`.
pub fn get_engine_version(crate_version: &str) -> (v: String)
    ensures
        v@ == "Photonix Engine v"@ + crate_version@ + " (Rust 1.82+, frb 2.11)"@,
{
    let mut v = String::from_str("Photonix Engine v");
    v.append(crate_version);
    v.append(" (Rust 1.82+, frb 2.11)");
    v
}

/// Hands the bytes back unchanged.
pub fn process_image_bytes(bytes: Vec<u8>) -> (out: Vec<u8>)
    ensures
        out@ == bytes@,
{
    bytes
}

/// Where the scene of a capture comes from.
#[derive(Debug, Clone, Copy, PartialEq, Eq, Structural)]
pub enum SceneSource {
    /// The caller's hint names it.
    Hint(Scene),
    /// It is detected from the first frame.
    Detect,
    /// There is nothing to go on: the standard scene.
    Fallback,
}

/// A hint decides the scene; without one the first frame is examined, and
/// without frames the standard scene is used.
pub fn choose_scene_source(hint: Option<&str>, frame_count: usize) -> (src: SceneSource)
    ensures
        src == match hint {
            Some(h) => SceneSource::Hint(spec_from_hint(h@)),
            None => if frame_count > 0 {
                SceneSource::Detect
            } else {
                SceneSource::Fallback
            },
        },
{
    match hint {
        Some(h) => SceneSource::Hint(Scene::from_hint(h)),
        None => if frame_count > 0 {
            SceneSource::Detect
        } else {
            SceneSource::Fallback
        },
    }
}

} // verus!
