use maat_graphics::shader_handlers::gltf_loader::{
    active_animation_index, animation_channels, assign_skins, descriptor_counts, keyframe_outputs,
    load_nodes, load_nodes_checked, mesh_images, node_ancestors, node_position, sampler_settings, skeleton_root,
    skin_joints, subtree_bounded, texture_of, AddressMode, AnimationChannel, Filter, MagFilter, MeshImage,
    MinFilter, Primitive, Property, SamplerSettings, SourceNode, SourcePrimitive, Texture,
    WrappingMode,
};

fn prim(vertex_count: usize, indices: Option<Vec<u32>>, material: Option<usize>) -> SourcePrimitive {
    SourcePrimitive { vertex_count, indices, material }
}

fn node(skin: Option<usize>, children: Vec<usize>, primitives: Vec<SourcePrimitive>) -> SourceNode {
    SourceNode { skin, children, primitives }
}

fn document() -> Vec<SourceNode> {
    vec![
        node(None, vec![1, 2], vec![prim(3, Some(vec![0, 1, 2]), Some(1))]),
        node(Some(0), vec![], vec![prim(2, Some(vec![0, 1]), None), prim(1, None, Some(2))]),
        node(None, vec![3], vec![]),
        node(None, vec![], vec![prim(4, Some(vec![3, 2, 1, 0]), None)]),
        node(None, vec![], vec![prim(9, None, None)]),
    ]
}

#[test]
fn nodes_are_loaded_depth_first() {
    let loaded = load_nodes(&document(), &vec![vec![0]]);
    let n = &loaded.nodes;
    assert_eq!(n.len(), 4);
    assert_eq!(n.iter().map(|x| x.idx).collect::<Vec<_>>(), vec![0, 1, 2, 3]);
    assert_eq!(n.iter().map(|x| x.parent).collect::<Vec<_>>(), vec![-1, 0, 0, 2]);
    assert_eq!(n.iter().map(|x| x.skin).collect::<Vec<_>>(), vec![-1, 0, -1, -1]);
    assert_eq!(n[0].children, vec![1, 2]);
    assert_eq!(n[2].children, vec![3]);
    assert!(n[1].children.is_empty() && n[3].children.is_empty());
    assert_eq!(loaded.index_buffer, vec![0, 1, 6, 5, 4, 3, 0, 1, 2]);
    assert_eq!(loaded.vertex_count, 10);
    assert_eq!(
        n[1].mesh.primitives,
        vec![
            Primitive { first_index: 0, index_count: 2, material_index: 0, first_vertex: 0, vertex_count: 2 },
            Primitive { first_index: 2, index_count: 2, material_index: 2, first_vertex: 2, vertex_count: 1 },
        ]
    );
    assert_eq!(
        n[3].mesh.primitives,
        vec![Primitive { first_index: 2, index_count: 4, material_index: 0, first_vertex: 3, vertex_count: 4 }]
    );
    assert_eq!(
        n[0].mesh.primitives,
        vec![Primitive { first_index: 0, index_count: 3, material_index: 1, first_vertex: 7, vertex_count: 3 }]
    );
    assert!(n[2].mesh.primitives.is_empty());
}

#[test]
fn loaded_nodes_form_a_forest() {
    let loaded = load_nodes(&document(), &vec![vec![0], vec![4, 2]]);
    let n = &loaded.nodes;
    assert_eq!(n.iter().map(|x| x.idx).collect::<Vec<_>>(), vec![0, 1, 2, 3, 4, 2, 3]);
    for (c, x) in n.iter().enumerate() {
        assert!(x.parent == -1 || (0 <= x.parent && (x.parent as usize) < c));
        for &ch in &x.children {
            assert_eq!(n[ch].parent as usize, c);
        }
        if x.parent >= 0 {
            assert!(n[x.parent as usize].children.contains(&c));
        }
    }
    assert_eq!(n[5].children, vec![6]);
    assert_eq!(loaded.index_buffer.len(), 9 + 4);
}

#[test]
fn lookups_by_document_node() {
    let loaded = load_nodes(&document(), &vec![vec![0]]);
    let n = &loaded.nodes;
    assert_eq!(node_position(n, 3), 3);
    assert_eq!(node_position(n, 4), -1);
    assert_eq!(skin_joints(n, &vec![3, 4, 1]), vec![3, 1]);
    assert_eq!(skeleton_root(n, Some(2)), 2);
    assert_eq!(skeleton_root(n, Some(9)), -1);
    assert_eq!(skeleton_root(n, None), -1);
    assert_eq!(node_ancestors(n, 3), vec![3, 2, 0]);
    assert_eq!(node_ancestors(n, 0), vec![0]);
    assert_eq!(
        animation_channels(n, &vec![(3, Property::Rotation), (9, Property::Scale)]),
        vec![
            AnimationChannel { property: Property::Rotation, node: 3, sampler_index: 0 },
            AnimationChannel { property: Property::Scale, node: -1, sampler_index: 1 },
        ]
    );
}

#[test]
fn skins_keep_their_indices() {
    let skins = vec![-1, 0, 2, 1, -5];
    assert_eq!(assign_skins(&skins, 3), skins);
    assert_eq!(assign_skins(&skins, 0), skins);
}

#[test]
fn samplers_follow_the_model() {
    assert_eq!(
        sampler_settings(Some(MinFilter::NearestMipmapLinear), None, WrappingMode::MirroredRepeat),
        SamplerSettings { min_filter: Filter::Linear, mag_filter: Filter::Linear, address_mode: AddressMode::MirroredRepeat }
    );
    assert_eq!(
        sampler_settings(Some(MinFilter::Nearest), Some(MagFilter::Nearest), WrappingMode::ClampToEdge),
        SamplerSettings { min_filter: Filter::Nearest, mag_filter: Filter::Nearest, address_mode: AddressMode::ClampToEdge }
    );
    let t = texture_of(2, None, Some(MagFilter::Linear), WrappingMode::Repeat);
    assert_eq!(t.image_index, 2);
    assert_eq!(t.sampler.address_mode, AddressMode::Repeat);
}

#[test]
fn images_use_the_last_texture_that_names_them() {
    let s = sampler_settings(None, None, WrappingMode::Repeat);
    let textures = vec![
        Texture { image_index: 1, sampler: s },
        Texture { image_index: 0, sampler: s },
        Texture { image_index: 1, sampler: s },
    ];
    assert_eq!(
        mesh_images(&textures, 3),
        vec![
            MeshImage { image_index: 0, texture: Some(1) },
            MeshImage { image_index: 1, texture: Some(2) },
            MeshImage { image_index: 2, texture: None },
        ]
    );
}

#[test]
fn pool_sizes_and_animation_steps() {
    assert_eq!(descriptor_counts(0, 3), (1, 3, 1));
    assert_eq!(descriptor_counts(5, 0), (5, 1, 5));
    assert_eq!(active_animation_index(0, 2), Some(0));
    assert_eq!(active_animation_index(-1, 2), None);
    assert_eq!(active_animation_index(2, 2), None);
    assert_eq!(keyframe_outputs(3, 4), (3, 0));
    assert_eq!(keyframe_outputs(1, 4), (1, 2));
}

#[test]
fn checked_loading_refuses_cycles_and_overflow() {
    let doc = document();
    assert!(subtree_bounded(&doc, 0, 3));
    assert!(!subtree_bounded(&doc, 0, 2));
    assert!(!subtree_bounded(&doc, 7, 5));
    let loaded = load_nodes_checked(&doc, &vec![vec![0]]).unwrap();
    assert_eq!(loaded.index_buffer, vec![0, 1, 6, 5, 4, 3, 0, 1, 2]);
    let cyclic = vec![node(None, vec![1], vec![]), node(None, vec![0], vec![])];
    assert!(load_nodes_checked(&cyclic, &vec![vec![0]]).is_none());
    let huge = vec![
        node(None, vec![1], vec![prim(usize::MAX, None, None)]),
        node(None, vec![], vec![prim(1, Some(vec![u32::MAX]), None)]),
    ];
    assert!(load_nodes_checked(&huge, &vec![vec![1]]).is_some());
    let overflowing = vec![
        node(None, vec![], vec![prim(5, None, None), prim(1, Some(vec![u32::MAX]), None)]),
    ];
    assert!(load_nodes_checked(&overflowing, &vec![vec![0]]).is_none());
}
