pub mod tile;
pub mod normalize;
