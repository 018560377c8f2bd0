//! Verified core of a camera image-processing engine: scene routing,
//! pipeline planning, tiling of pixel buffers, model-cache bookkeeping and
//! the small numeric and textual rules around them.
pub mod ai;
pub mod api;
pub mod compute;
pub mod error;
pub mod pipeline;
pub mod text;
pub mod utils;

use vstd::prelude::*;
use vstd::string::*;

use crate::text::{decimal, decimal_string};

verus! {

/// The worker-thread count for a device with `num_cores` cores: half of them,
/// but at least 2 and at most 4 (so that work stays on the fast cores).
pub open spec fn spec_worker_threads(num_cores: usize) -> usize {
    if num_cores / 2 < 2 {
        2
    } else if num_cores / 2 > 4 {
        4
    } else {
        num_cores / 2
    }
}

pub fn worker_thread_count(num_cores: usize) -> (n: usize)
    ensures
        n == spec_worker_threads(num_cores),
        2 <= n <= 4,
{
    let half = num_cores / 2;
    if half < 2 {
        2
    } else if half > 4 {
        4
    } else {
        half
    }
}

/// The name of worker thread `i`: "photonix-worker-" followed by `i` in decimal.
pub fn worker_thread_name(i: usize) -> (name: String)
    ensures
        name@ == "photonix-worker-"@ + decimal(i as nat),
{
    let mut name = String::from_str("photonix-worker-");
    let digits = decimal_string(i as u64);
    name.append(digits.as_str());
    name
}

/// Calls `num_cpus::get`: the number of logical CPUs available, which its
/// documentation says is always at least 1; the value depends on the machine.
#[verifier::external_body]
fn available_cores() -> (n: usize)
    ensures
        n >= 1,
{
    num_cpus::get()
}

/// Rayon's `ThreadPoolBuildError`, carried through opaquely.
#[verifier::external_type_specification]
#[verifier::external_body]
pub struct ExThreadPoolBuildError(rayon::ThreadPoolBuildError);

/// Calls `rayon::ThreadPoolBuilder::build_global` on a builder with `threads`
/// threads named by `worker_thread_name`. It fails when the global pool already
/// exists; nothing is claimed of which outcome occurs.
#[verifier::external_body]
fn build_global_pool(threads: usize) -> Result<(), rayon::ThreadPoolBuildError> {
    rayon::ThreadPoolBuilder::new()
        .num_threads(threads)
        .thread_name(|i| worker_thread_name(i))
        .build_global()
}

/// Configures the global worker pool for camera workloads: half the cores,
/// between 2 and 4 threads. A pool that already exists is left as it is.
/// Returns the thread count that was asked for and the device's core count.
pub fn configure_rayon() -> (r: (usize, usize))
    ensures
        r.1 >= 1,
        r.0 == spec_worker_threads(r.1),
        2 <= r.0 <= 4,
{
    let num_cores = available_cores();
    let thread_count = worker_thread_count(num_cores);
    let _ = build_global_pool(thread_count);
    (thread_count, num_cores)
}

} // verus!
