pub mod preprocess;
pub mod model_cache;
pub mod models;
pub mod session_pool;
