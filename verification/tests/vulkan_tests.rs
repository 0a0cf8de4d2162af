use maat_graphics::shader_handlers::compute_handler::{
    light_culling_dispatch, light_culling_push_constants, tile_counts, LightVisibility, TILE_SIZE,
};
use maat_graphics::vkwrapper::buffer::{
    descriptor_usage, DescriptorType, BUFFER_USAGE_STORAGE, BUFFER_USAGE_UNIFORM,
};
use maat_graphics::vkwrapper::vulkan::{
    find_memorytype_index, next_frame_index, push_constant_bytes, MemoryProperties, MemoryRequirements,
};

#[test]
fn memory_type_is_first_allowed_with_flags() {
    let mut flags = [0u32; 32];
    flags[0] = 0b001;
    flags[1] = 0b110;
    flags[2] = 0b111;
    flags[3] = 0b110;
    let props = MemoryProperties { memory_type_count: 4, property_flags: flags };
    let all = MemoryRequirements { memory_type_bits: 0b1111 };
    assert_eq!(find_memorytype_index(&all, &props, 0b110), Some(1));
    let not_one = MemoryRequirements { memory_type_bits: 0b1101 };
    assert_eq!(find_memorytype_index(&not_one, &props, 0b110), Some(2));
    assert_eq!(find_memorytype_index(&not_one, &props, 0b1000), None);
    let only_five = MemoryRequirements { memory_type_bits: 0b100000 };
    assert_eq!(find_memorytype_index(&only_five, &props, 0), None);
    assert_eq!(find_memorytype_index(&all, &props, 0), Some(0));
}

#[test]
fn frames_cycle() {
    assert_eq!(next_frame_index(0, 3), 1);
    assert_eq!(next_frame_index(2, 3), 0);
    assert_eq!(next_frame_index(5, 2), 0);
}

#[test]
fn push_constants_are_little_endian() {
    let mut values = [0i32; 16];
    values[0] = 0x01020304;
    values[1] = -1;
    values[15] = 256;
    let bytes = push_constant_bytes(&values);
    assert_eq!(bytes.len(), 64);
    assert_eq!(&bytes[0..4], &[4, 3, 2, 1]);
    assert_eq!(&bytes[4..8], &[255, 255, 255, 255]);
    assert_eq!(&bytes[60..64], &[0, 1, 0, 0]);
    let expected: Vec<u8> = values.iter().flat_map(|v| v.to_le_bytes()).collect();
    assert_eq!(bytes, expected);
}

#[test]
fn tiles_cover_the_viewport() {
    assert_eq!(TILE_SIZE, 16);
    assert_eq!(tile_counts(1280, 720), (80, 45));
    assert_eq!(tile_counts(1281, 721), (81, 46));
    assert_eq!(tile_counts(1, 16), (1, 1));
    assert_eq!(tile_counts(0, 17), (1, 2));
    assert_eq!(tile_counts(-20, 0), (0, 1));
}

#[test]
fn light_culling_values() {
    let pc = light_culling_push_constants(1920, 1080);
    assert_eq!(&pc[0..4], &[1920, 1080, 120, 68]);
    assert!(pc[4..].iter().all(|v| *v == 0));
    assert_eq!(light_culling_dispatch(1920, 1080), (120, 68, 1));
    let v = LightVisibility::initial();
    assert_eq!(v.count, 1);
    assert_eq!(v.lights, [0u32; 16]);
}

#[test]
fn tiles_are_the_fewest_that_cover() {
    for size in 1..200i32 {
        let (t, _) = tile_counts(size, 1);
        assert!(t * TILE_SIZE >= size);
        assert!((t - 1) * TILE_SIZE < size);
    }
}

#[test]
fn buffers_are_bound_by_their_usage() {
    assert_eq!(descriptor_usage(BUFFER_USAGE_STORAGE), DescriptorType::StorageBuffer);
    assert_eq!(descriptor_usage(BUFFER_USAGE_UNIFORM), DescriptorType::UniformBuffer);
    assert_eq!(descriptor_usage(0x20), DescriptorType::StorageBuffer);
    assert_eq!(descriptor_usage(0x10), DescriptorType::UniformBuffer);
}
