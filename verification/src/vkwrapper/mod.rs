pub mod buffer;
pub mod vulkan;
