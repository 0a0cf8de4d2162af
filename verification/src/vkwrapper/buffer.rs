use vstd::prelude::*;

verus! {

/// The Vulkan buffer usage flag of a uniform buffer.
pub const BUFFER_USAGE_UNIFORM: u32 = 0x10;

/// The Vulkan buffer usage flag of a storage buffer.
pub const BUFFER_USAGE_STORAGE: u32 = 0x20;

/// The kind of descriptor through which a shader reads a buffer.
#[derive(PartialEq, Eq, Structural, Clone, Copy, Debug)]
pub enum DescriptorType {
    UniformBuffer,
    StorageBuffer,
}

/// The descriptor kind of a buffer made with the usage flags `usage`: a storage buffer is
/// read as a storage buffer and a uniform buffer as a uniform buffer. A buffer of any
/// other usage cannot be bound to a descriptor.
pub fn descriptor_usage(usage: u32) -> (r: DescriptorType)
    requires
        usage == BUFFER_USAGE_STORAGE || usage == BUFFER_USAGE_UNIFORM,
    ensures
        usage == BUFFER_USAGE_STORAGE ==> r == DescriptorType::StorageBuffer,
        usage == BUFFER_USAGE_UNIFORM ==> r == DescriptorType::UniformBuffer,
{
    if usage == BUFFER_USAGE_STORAGE {
        DescriptorType::StorageBuffer
    } else {
        DescriptorType::UniformBuffer
    }
}

} // verus!
