use maat_graphics::shader_handlers::texture_handler::{add_instance, set_camera_values, InstancedComboData, MAX_INSTANCES};

#[test]
fn instance_values_from_a_draw() {
    let data: Vec<f32> = (0..32).map(|v| v as f32).collect();
    let d = InstancedComboData::from_data(&data);
    assert_eq!(d.pos_scale, [0.0, 1.0, 2.0, 3.0]);
    assert_eq!(d.other_colour, [4.0, 6.0, 6.0, 7.0]);
    assert_eq!(d.is_textured_rotation_overlay_mix, [8.0, 9.0, 10.0, 11.0]);
    assert_eq!(d.sprite_sheet, [12.0, 13.0, 14.0, 15.0]);
    assert_eq!(d.flip_xy, [16.0, 17.0, 18.0, 19.0]);
    assert_eq!(d.overlay_colour, [20.0, 21.0, 22.0, 23.0]);
    assert_eq!(d.attrib6, [24.0, 25.0, 26.0, 27.0]);
    assert_eq!(d.camera_intensity_time, [28.0, 29.0, 30.0, 31.0]);
    let z = InstancedComboData::new(0.0f32);
    assert_eq!(z.camera_intensity_time, [0.0; 4]);
}

#[test]
fn camera_goes_in_the_last_four() {
    let mut data = vec![1.0f32, 2.0, 3.0, 4.0, 5.0, 6.0];
    set_camera_values(&mut data, -7.5, 8.5);
    assert_eq!(data, vec![1.0, 2.0, -7.5, 8.5, 5.0, 6.0]);
}

#[test]
fn instanced_buffers_stop_at_their_limit() {
    let mut buffer: Vec<u32> = Vec::new();
    add_instance(&mut buffer, 1);
    assert_eq!(buffer, vec![1]);
    let mut full: Vec<u32> = vec![0; MAX_INSTANCES];
    add_instance(&mut full, 9);
    assert_eq!(full.len(), MAX_INSTANCES);
    assert_eq!(MAX_INSTANCES, 8196);
}
