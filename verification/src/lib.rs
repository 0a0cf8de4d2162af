pub mod bytes;
pub mod number;
pub mod opengl;
mod pending;
pub mod ownage;
pub mod rawgl;
pub mod rawvk;
pub mod resource_manager;
pub mod search;
pub mod settings;
pub mod shader_handlers;
pub mod vkwrapper;
