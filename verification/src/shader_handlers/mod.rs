pub mod camera;
pub mod math;
pub mod model_handler;
pub mod texture_handler;
pub mod compute_handler;
pub mod font;
pub mod gltf_loader;
