use maat_graphics::rawgl::{draw_plan_of, instanced_draw_count, DrawInfo, DrawStep};
use maat_graphics::rawvk::{
    grid_indices, msaa_samples, swapchain_dimensions, terrain_indices, TERRAIN_VERTEX_COUNT,
};
use maat_graphics::rawvk::{
    dynamic_load_step, vk_draw_action, DynamicLoad, LoadAction, LoadedNames, QuadGeometry, VkDrawAction,
    VkDrawCall,
};

fn gl_call(kind: &str, texture: &str, loaded: bool) -> DrawInfo {
    DrawInfo {
        is_3d_model: kind == "model",
        is_text: kind == "text",
        is_vao_update: kind == "update",
        is_instanced: kind == "instanced",
        texture: texture.to_string(),
        instance_vao_loaded: loaded,
    }
}

#[test]
fn instanced_calls_are_batched_by_texture() {
    let calls = vec![
        gl_call("square", "", false),
        gl_call("instanced", "tree", true),
        gl_call("instanced", "tree", true),
        gl_call("instanced", "rock", true),
        gl_call("text", "font", false),
        gl_call("model", "ship", false),
        gl_call("update", "", false),
    ];
    assert_eq!(instanced_draw_count(&calls, 1), 2);
    assert_eq!(instanced_draw_count(&calls, 3), 1);
    let plan = draw_plan_of(&calls);
    assert_eq!(
        plan,
        vec![
            DrawStep::Square(0),
            DrawStep::Instanced(1, 2),
            DrawStep::Instanced(3, 1),
            DrawStep::Text(4),
            DrawStep::Model3d(5),
            DrawStep::VaoUpdate(6),
        ]
    );
}

#[test]
fn unloaded_instanced_vao_draws_nothing() {
    let calls = vec![gl_call("instanced", "tree", false)];
    assert_eq!(instanced_draw_count(&calls, 0), 0);
}

#[test]
fn every_call_is_drawn_once() {
    let calls = vec![
        gl_call("instanced", "a", true),
        gl_call("instanced", "a", true),
        gl_call("instanced", "a", true),
        gl_call("square", "", false),
        gl_call("instanced", "b", true),
    ];
    let plan = draw_plan_of(&calls);
    let mut covered = Vec::new();
    for step in plan {
        match step {
            DrawStep::Instanced(start, count) => {
                for k in 0..count {
                    covered.push(start + k);
                }
            },
            DrawStep::Model3d(p) | DrawStep::Text(p) | DrawStep::VaoUpdate(p) | DrawStep::Square(p) => covered.push(p),
        }
    }
    assert_eq!(covered, vec![0, 1, 2, 3, 4]);
}

fn names(v: &[&str]) -> Vec<String> {
    v.iter().map(|s| s.to_string()).collect()
}

fn loaded() -> LoadedNames {
    LoadedNames {
        textures: names(&["Default", "oakfloor", "brick", "Arial"]),
        fonts: names(&["Arial"]),
        models: names(&["terrain", "ship", "crate"]),
        custom_vaos: names(&["panel"]),
        custom_dynamic_vaos: names(&["graph"]),
    }
}

fn vk_call(flags: (bool, bool, bool, bool), texture: &str, text: &str) -> VkDrawCall {
    VkDrawCall {
        is_3d_model: flags.0,
        is_vao_update: flags.1,
        is_text: flags.2,
        is_custom_vao: flags.3,
        texture: texture.to_string(),
        text: text.to_string(),
    }
}

fn model_texture(a: VkDrawAction) -> Option<String> {
    match a {
        VkDrawAction::Model { texture } => Some(texture),
        _ => None,
    }
}

fn quad(a: VkDrawAction) -> Option<(String, QuadGeometry)> {
    match a {
        VkDrawAction::Quad { texture, geometry } => Some((texture, geometry)),
        _ => None,
    }
}

#[test]
fn models_pick_their_texture() {
    let l = loaded();
    let d = "Default".to_string();
    let model = (true, false, false, false);
    assert_eq!(model_texture(vk_draw_action(&vk_call(model, "terrain", ""), &l, &d)), Some("oakfloor".to_string()));
    assert_eq!(model_texture(vk_draw_action(&vk_call(model, "ship", ""), &l, &d)), Some("Default".to_string()));
    let mut l2 = loaded();
    l2.textures.push("crate".to_string());
    assert_eq!(model_texture(vk_draw_action(&vk_call(model, "crate", ""), &l2, &d)), Some("crate".to_string()));
    let no_default = "Missing".to_string();
    assert!(matches!(vk_draw_action(&vk_call(model, "ship", ""), &l, &no_default), VkDrawAction::Skip));
}

#[test]
fn updates_and_text_need_what_they_name() {
    let l = loaded();
    let d = "Default".to_string();
    assert!(matches!(vk_draw_action(&vk_call((false, true, false, false), "", "graph"), &l, &d), VkDrawAction::UpdateDynamicVao));
    assert!(matches!(vk_draw_action(&vk_call((false, true, false, false), "", "panel"), &l, &d), VkDrawAction::Skip));
    assert!(matches!(vk_draw_action(&vk_call((false, false, true, false), "Arial", "hi"), &l, &d), VkDrawAction::Text));
    assert!(matches!(vk_draw_action(&vk_call((false, false, true, false), "Times", "hi"), &l, &d), VkDrawAction::Skip));
}

#[test]
fn quads_pick_texture_and_geometry() {
    let l = loaded();
    let d = "Default".to_string();
    let plain = (false, false, false, false);
    let custom = (false, false, false, true);
    assert_eq!(quad(vk_draw_action(&vk_call(plain, "", ""), &l, &d)), Some(("Default".to_string(), QuadGeometry::Main)));
    assert_eq!(quad(vk_draw_action(&vk_call(plain, "brick", ""), &l, &d)), Some(("brick".to_string(), QuadGeometry::Main)));
    assert_eq!(quad(vk_draw_action(&vk_call(plain, "stone", ""), &l, &d)), Some(("Default".to_string(), QuadGeometry::Main)));
    assert_eq!(quad(vk_draw_action(&vk_call(custom, "brick", "panel"), &l, &d)), Some(("brick".to_string(), QuadGeometry::CustomStatic)));
    assert_eq!(quad(vk_draw_action(&vk_call(custom, "", "graph"), &l, &d)), Some(("Default".to_string(), QuadGeometry::CustomDynamic)));
    assert!(matches!(vk_draw_action(&vk_call(custom, "", "none"), &l, &d), VkDrawAction::Skip));
}

#[test]
fn frame_loading_steps() {
    let s = DynamicLoad::start();
    let (s, a) = dynamic_load_step(s, true, true, false);
    assert_eq!(a, LoadAction::LoadTexture);
    let (s, a) = dynamic_load_step(s, false, true, false);
    assert_eq!(a, LoadAction::LoadModel);
    let (_, a) = dynamic_load_step(s, false, false, false);
    assert_eq!(a, LoadAction::Stop { mark_ready: false });
    let (_, a) = dynamic_load_step(DynamicLoad::start(), false, false, false);
    assert_eq!(a, LoadAction::Stop { mark_ready: true });
    let (s, _) = dynamic_load_step(DynamicLoad::start(), true, true, false);
    let (_, a) = dynamic_load_step(s, true, true, true);
    assert_eq!(a, LoadAction::Stop { mark_ready: false });
    let (_, a) = dynamic_load_step(DynamicLoad::start(), false, true, true);
    assert_eq!(a, LoadAction::Stop { mark_ready: false });
}

#[test]
fn msaa_is_at_least_one_and_at_most_supported() {
    assert_eq!(msaa_samples(0, 8), 1);
    assert_eq!(msaa_samples(4, 8), 4);
    assert_eq!(msaa_samples(16, 8), 8);
    assert_eq!(msaa_samples(2, 1), 1);
    assert_eq!(msaa_samples(0, 0), 0);
}

#[test]
fn grid_cells_are_two_triangles() {
    assert_eq!(grid_indices(1), Vec::<u16>::new());
    assert_eq!(grid_indices(2), vec![0, 2, 1, 1, 2, 3]);
    assert_eq!(
        grid_indices(3),
        vec![
            0, 3, 1, 1, 3, 4, //
            1, 4, 2, 2, 4, 5, //
            3, 6, 4, 4, 6, 7, //
            4, 7, 5, 5, 7, 8,
        ]
    );
    let big = grid_indices(256);
    assert_eq!(big.len(), 6 * 255 * 255);
    assert_eq!(*big.last().unwrap(), 65535);
}

#[test]
fn terrain_grid_has_128_vertices_a_side() {
    assert_eq!(TERRAIN_VERTEX_COUNT, 128);
    let t = terrain_indices();
    assert_eq!(t.len(), 6 * 127 * 127);
    assert_eq!(&t[0..6], &[0, 128, 1, 1, 128, 129]);
    assert_eq!(&t[t.len() - 6..], &[16254, 16382, 16255, 16255, 16382, 16383]);
}

#[test]
fn zero_sized_windows_use_the_smallest_size() {
    assert_eq!(swapchain_dimensions([0, 0], [800, 640]), [800, 640]);
    assert_eq!(swapchain_dimensions([1024, 0], [800, 640]), [1024, 640]);
    assert_eq!(swapchain_dimensions([0, 300], [800, 640]), [800, 300]);
    assert_eq!(swapchain_dimensions([1920, 1080], [800, 640]), [1920, 1080]);
}
