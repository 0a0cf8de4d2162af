use maat_graphics::opengl::resource_manager::{
    LoadableObject as GlObject, ObjectType as GlType, ResourceManager as GlResources,
};
use maat_graphics::resource_manager::{LoadableObject, ObjectType, ResourceManager};

type Resources = ResourceManager<Vec<u8>, u32, String, String>;

fn names(r: &Resources) -> Vec<String> {
    r.objects().iter().map(|o| o.reference.clone()).collect()
}

#[test]
fn inserted_texture_is_found() {
    let mut r: Resources = ResourceManager::new();
    assert!(r.check_object("grass".to_string()));
    r.insert_texture("grass".to_string(), 7);
    assert!(!r.check_object("grass".to_string()));
    assert_eq!(r.get_texture("grass".to_string()), Some(7));
    assert_eq!(r.get_texture("sand".to_string()), None);
}

#[test]
fn unloaded_texture_has_no_image_until_loaded() {
    let mut r: Resources = ResourceManager::new();
    r.insert_unloaded_texture("sky".to_string(), "./sky.png".to_string());
    assert_eq!(r.get_texture("sky".to_string()), None);
    let started = r.load_texture_from_reference("sky".to_string());
    assert_eq!(started, Some(("sky".to_string(), "./sky.png".to_string())));
    assert!(names(&r).is_empty());
    assert!(!r.should_clear_pending());
    r.receive_object(LoadableObject {
        loaded: true,
        location: "./sky.png".to_string(),
        reference: "sky".to_string(),
        object_type: ObjectType::Texture(Some(vec![1, 2]), Some(3)),
    });
    assert!(r.should_clear_pending());
    assert_eq!(r.get_texture("sky".to_string()), Some(3));
    assert_eq!(r.load_texture_from_reference("sky".to_string()), None);
}

#[test]
fn all_textures_lists_loaded_images() {
    let mut r: Resources = ResourceManager::new();
    r.insert_texture("a".to_string(), 1);
    r.insert_unloaded_texture("b".to_string(), "b.png".to_string());
    r.sync_load_texture("c".to_string(), "c.png".to_string(), 3);
    r.sync_load_font("f".to_string(), "f.ttf".to_string(), "font".to_string());
    let all = r.get_all_textures();
    assert_eq!(all, vec![("a".to_string(), 1), ("c".to_string(), 3)]);
    assert_eq!(r.get_font("f".to_string()), Some("font".to_string()));
    assert_eq!(r.get_font("a".to_string()), None);
}

#[test]
fn models_are_unloaded_by_name() {
    let mut r: Resources = ResourceManager::new();
    r.sync_load_model("m".to_string(), "m.glb".to_string(), "model".to_string());
    r.insert_unloaded_model("n".to_string(), "n.glb".to_string());
    r.insert_unloaded_model("m".to_string(), "other.glb".to_string());
    assert_eq!(names(&r), vec!["m".to_string(), "n".to_string()]);
    let got = r.get_model("m".to_string());
    assert_eq!(got, Some((Some("model".to_string()), Vec::new())));
    let marked = r.unload_model_from_reference("m".to_string());
    assert_eq!(marked, vec![0]);
    assert!(!r.objects()[0].loaded);
    assert_eq!(r.load_model_from_reference("m".to_string()), Some(("m".to_string(), "m.glb".to_string())));
    assert_eq!(names(&r), vec!["n".to_string()]);
}

#[test]
fn remove_last_and_unload_texture() {
    let mut r: Resources = ResourceManager::new();
    r.insert_texture("a".to_string(), 1);
    r.insert_texture("b".to_string(), 2);
    r._remove_object("b".to_string());
    assert_eq!(names(&r), vec!["a".to_string()]);
    r._remove_object("zzz".to_string());
    assert_eq!(names(&r), vec!["a".to_string()]);
    let removed = r._unload_texture_from_reference("a".to_string());
    assert_eq!(removed.map(|o| o.reference), Some("a".to_string()));
    assert!(names(&r).is_empty());
}

type Gl = GlResources<Vec<f32>, String>;

#[test]
fn gl_shapes_update_in_place_or_are_added() {
    let mut r: Gl = GlResources::new();
    r.insert_shape("quad".to_string(), vec![0.0, 1.0]);
    assert_eq!(r.get_shape("quad".to_string()), Some(vec![0.0, 1.0]));
    let i = r.shape_to_update(&"quad".to_string());
    assert_eq!(i, Some(0));
    let mut vao = r.take_shape(0);
    assert_eq!(r.get_shape("quad".to_string()), None);
    vao.push(2.0);
    r.put_shape(0, vao);
    assert_eq!(r.get_shape("quad".to_string()), Some(vec![0.0, 1.0, 2.0]));
    assert_eq!(r.shape_to_update(&"tri".to_string()), None);
}

#[test]
fn gl_latest_texture_wins() {
    let mut r: Gl = GlResources::new();
    r.insert_texture("t".to_string(), 4);
    r.sync_load_texture("t".to_string(), "t.png".to_string(), 9);
    assert_eq!(r.get_texture("t".to_string()), Some(9));
    assert_eq!(r.get_texture("u".to_string()), None);
}

#[test]
fn gl_fonts_and_pending_loads() {
    let mut r: Gl = GlResources::new();
    r.insert_font("f".to_string(), ("font".to_string(), 3));
    assert_eq!(r.get_font("f".to_string()), Some(("font".to_string(), 3)));
    r.sync_load_font("g".to_string(), "g.ttf".to_string(), "gfont".to_string(), 5);
    assert_eq!(r.get_font("g".to_string()), Some(("gfont".to_string(), 5)));
    assert_eq!(r.pending_loads(), 0);
    r.load_texture();
    r.load_shape("s".to_string());
    assert_eq!(r.pending_loads(), 2);
    r.receive_object(GlObject {
        loaded: true,
        location: String::new(),
        reference: "s".to_string(),
        object_type: GlType::Shape(Some(vec![5.0])),
    });
    assert_eq!(r.get_shape("s".to_string()), Some(vec![5.0]));
    assert_eq!(r.pending_loads(), 2);
    assert!(!r.check_object("s".to_string()));
    r.remove_object("s".to_string());
    assert!(r.check_object("s".to_string()));
}

#[test]
fn unloaded_model_is_not_given_until_received() {
    let mut r: Resources = ResourceManager::new();
    r.insert_unloaded_model("m".to_string(), "m.glb".to_string());
    assert_eq!(r.get_model("m".to_string()), None);
    assert_eq!(r.get_model("none".to_string()), None);
    r.sync_load_model("k".to_string(), "k.glb".to_string(), "kite".to_string());
    assert_eq!(r.get_model("k".to_string()), Some((Some("kite".to_string()), Vec::new())));
}

#[test]
fn loading_by_a_name_kept_elsewhere_is_refused() {
    let mut r: Resources = ResourceManager::new();
    assert!(r.can_take_unloaded(&"sky".to_string()));
    r.insert_unloaded_texture("sky".to_string(), "./sky.png".to_string());
    assert!(r.can_take_unloaded(&"sky".to_string()));
    assert_eq!(r.pending_loads(), 0);
    r.load_texture_from_reference("sky".to_string());
    assert_eq!(r.pending_loads(), 1);
    r.insert_unloaded_texture("sky".to_string(), "./sky2.png".to_string());
    r.receive_object(LoadableObject {
        loaded: true,
        location: "./sky.png".to_string(),
        reference: "sky".to_string(),
        object_type: ObjectType::Texture(Some(vec![1]), Some(4)),
    });
    assert_eq!(r.pending_loads(), 0);
    assert!(!r.can_take_unloaded(&"sky".to_string()));
    assert!(r.can_take_unloaded(&"moon".to_string()));
}
