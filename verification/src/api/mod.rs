pub mod image_api;
