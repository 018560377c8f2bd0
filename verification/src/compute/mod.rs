pub mod color_science;
pub mod tone_map;
pub mod burst_stack;
pub mod exposure;
pub mod region;
pub mod hdr_merge;
