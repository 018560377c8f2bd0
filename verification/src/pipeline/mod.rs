pub mod scene;
pub mod orchestrator;
pub mod connectivity;
pub mod face;
pub mod codec;
pub mod bokeh;
