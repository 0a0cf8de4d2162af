use vstd::prelude::*;

use crate::bytes::{copy_range, vviews};
use crate::search::{first_index, last_index, lemma_first_index_at, lemma_last_index_at};
use crate::shader_handlers::texture_handler::{decode_rgba, decoded_rgba, rgba_pixels, rgba_size, RgbaImage};

verus! {

/// How an animation sampler blends between its key frames.
#[derive(Clone, Copy, Debug, PartialEq, Eq, Structural)]
pub enum AnimationInterpolation {
    Linear,
    Step,
    CubicSpline,
}

/// The minification filters a glTF sampler can ask for.
#[derive(Clone, Copy, Debug, PartialEq, Eq, Structural)]
pub enum MinFilter {
    Nearest,
    Linear,
    NearestMipmapNearest,
    LinearMipmapNearest,
    NearestMipmapLinear,
    LinearMipmapLinear,
}

/// The magnification filters a glTF sampler can ask for.
#[derive(Clone, Copy, Debug, PartialEq, Eq, Structural)]
pub enum MagFilter {
    Nearest,
    Linear,
}

/// How a glTF sampler wraps texture coordinates outside `0..1`.
#[derive(Clone, Copy, Debug, PartialEq, Eq, Structural)]
pub enum WrappingMode {
    ClampToEdge,
    MirroredRepeat,
    Repeat,
}

/// The filter a device sampler is built with.
#[derive(Clone, Copy, Debug, PartialEq, Eq, Structural)]
pub enum Filter {
    Nearest,
    Linear,
}

/// The address mode a device sampler is built with.
#[derive(Clone, Copy, Debug, PartialEq, Eq, Structural)]
pub enum AddressMode {
    ClampToEdge,
    MirroredRepeat,
    Repeat,
}

/// The settings of the device sampler made for a model's texture. Every such sampler
/// also filters mipmaps linearly, has an opaque white border and never compares.
#[derive(Clone, Copy, Debug, PartialEq, Eq, Structural)]
pub struct SamplerSettings {
    pub min_filter: Filter,
    pub mag_filter: Filter,
    pub address_mode: AddressMode,
}

/// A texture of a model: the image it shows and how it is sampled.
#[derive(Clone, Copy, Debug, PartialEq, Eq, Structural)]
pub struct Texture {
    pub image_index: i32,
    pub sampler: SamplerSettings,
}

/// An image of a model ready to be drawn: its position among the model's images, and
/// the texture whose sampler it is drawn with (none: the renderer's own sampler).
#[derive(Clone, Copy, Debug, PartialEq, Eq, Structural)]
pub struct MeshImage {
    pub image_index: usize,
    pub texture: Option<usize>,
}

/// The minification filter used for what the model asks: nearest only where it asks for
/// exactly that, linear otherwise.
pub open spec fn min_filter_of(min: Option<MinFilter>) -> Filter {
    match min {
        Some(MinFilter::Nearest) => Filter::Nearest,
        _ => Filter::Linear,
    }
}

/// The magnification filter used for what the model asks: linear when it asks nothing.
pub open spec fn mag_filter_of(mag: Option<MagFilter>) -> Filter {
    match mag {
        Some(MagFilter::Nearest) => Filter::Nearest,
        _ => Filter::Linear,
    }
}

/// The address mode used for the wrapping a model asks for along `s`.
pub open spec fn address_mode_of(wrap: WrappingMode) -> AddressMode {
    match wrap {
        WrappingMode::ClampToEdge => AddressMode::ClampToEdge,
        WrappingMode::MirroredRepeat => AddressMode::MirroredRepeat,
        WrappingMode::Repeat => AddressMode::Repeat,
    }
}

/// A sampler filters by nearest texel exactly where the model asks for nearest: the
/// magnification filter is nearest when nearest is asked for and linear otherwise (linear
/// when linear or nothing is asked for), the minification filter likewise (every mipmap
/// filter giving linear), and the address mode is the wrapping asked for along `s`.
pub proof fn lemma_sampler_follows_request(
    min: Option<MinFilter>,
    mag: Option<MagFilter>,
    wrap_s: WrappingMode,
)
    ensures
        (mag_filter_of(mag) == Filter::Nearest) == (mag == Some(MagFilter::Nearest)),
        (mag_filter_of(mag) == Filter::Linear) == (mag != Some(MagFilter::Nearest)),
        (min_filter_of(min) == Filter::Nearest) == (min == Some(MinFilter::Nearest)),
        (min_filter_of(min) == Filter::Linear) == (min != Some(MinFilter::Nearest)),
        wrap_s == WrappingMode::ClampToEdge ==> address_mode_of(wrap_s) == AddressMode::ClampToEdge,
        wrap_s == WrappingMode::MirroredRepeat ==> address_mode_of(wrap_s)
            == AddressMode::MirroredRepeat,
        wrap_s == WrappingMode::Repeat ==> address_mode_of(wrap_s) == AddressMode::Repeat,
{
}

/// The device sampler settings for a glTF sampler's filters and its wrapping along `s`.
pub fn sampler_settings(min: Option<MinFilter>, mag: Option<MagFilter>, wrap_s: WrappingMode) -> (r:
    SamplerSettings)
    ensures
        r == (SamplerSettings {
            min_filter: min_filter_of(min),
            mag_filter: mag_filter_of(mag),
            address_mode: address_mode_of(wrap_s),
        }),
        (r.min_filter == Filter::Nearest) == (min == Some(MinFilter::Nearest)),
        (r.mag_filter == Filter::Nearest) == (mag == Some(MagFilter::Nearest)),
        wrap_s == WrappingMode::ClampToEdge ==> r.address_mode == AddressMode::ClampToEdge,
        wrap_s == WrappingMode::MirroredRepeat ==> r.address_mode == AddressMode::MirroredRepeat,
        wrap_s == WrappingMode::Repeat ==> r.address_mode == AddressMode::Repeat,
{
    let min_filter = match min {
        Some(m) => match m {
            MinFilter::Nearest => Filter::Nearest,
            MinFilter::Linear => Filter::Linear,
            _ => Filter::Linear,
        },
        None => Filter::Linear,
    };
    let mag_filter = match mag {
        Some(m) => match m {
            MagFilter::Nearest => Filter::Nearest,
            MagFilter::Linear => Filter::Linear,
        },
        None => Filter::Linear,
    };
    let address_mode = match wrap_s {
        WrappingMode::ClampToEdge => AddressMode::ClampToEdge,
        WrappingMode::MirroredRepeat => AddressMode::MirroredRepeat,
        WrappingMode::Repeat => AddressMode::Repeat,
    };
    SamplerSettings { min_filter, mag_filter, address_mode }
}

/// A model's texture: the image it names (as the engine keeps it, an `i32`) and the
/// sampler settings for its glTF sampler.
pub fn texture_of(
    source_image: usize,
    min: Option<MinFilter>,
    mag: Option<MagFilter>,
    wrap_s: WrappingMode,
) -> (r: Texture)
    ensures
        r.image_index == source_image as i32,
        r.sampler == (SamplerSettings {
            min_filter: min_filter_of(min),
            mag_filter: mag_filter_of(mag),
            address_mode: address_mode_of(wrap_s),
        }),
{
    Texture { image_index: source_image as i32, sampler: sampler_settings(min, mag, wrap_s) }
}

/// The texture names image `i`.
pub open spec fn shows_image(i: int) -> spec_fn(Texture) -> bool {
    |t: Texture| t.image_index == i as i32
}

/// The texture whose sampler image `i` is drawn with: the last one that names it.
pub open spec fn image_texture(textures: Seq<Texture>, i: int) -> Option<usize> {
    let j = last_index(textures, shows_image(i));
    if j >= 0 {
        Some(j as usize)
    } else {
        None
    }
}

/// The model's images ready to be drawn, one per loaded image, each with the texture
/// whose sampler it uses.
pub fn mesh_images(textures: &Vec<Texture>, image_count: usize) -> (r: Vec<MeshImage>)
    ensures
        r.len() == image_count,
        forall|i: int|
            0 <= i < image_count ==> #[trigger] r[i] == (MeshImage {
                image_index: i as usize,
                texture: image_texture(textures@, i),
            }),
{
    let mut r: Vec<MeshImage> = Vec::new();
    let mut i: usize = 0;
    while i < image_count
        invariant
            i <= image_count,
            r.len() == i,
            forall|m: int|
                0 <= m < i ==> #[trigger] r[m] == (MeshImage {
                    image_index: m as usize,
                    texture: image_texture(textures@, m),
                }),
        decreases image_count - i,
    {
        let mut chosen: Option<usize> = None;
        let mut j: usize = 0;
        while j < textures.len()
            invariant
                i < image_count,
                j <= textures.len(),
                chosen matches Some(c) ==> c < j && shows_image(i as int)(textures@[c as int]),
                forall|m: int|
                    (match chosen {
                        Some(c) => c < m,
                        None => 0 <= m,
                    }) && m < j ==> !#[trigger] shows_image(i as int)(textures@[m]),
            decreases textures.len() - j,
        {
            if textures[j].image_index == i as i32 {
                chosen = Some(j);
            }
            j = j + 1;
        }
        proof {
            match chosen {
                Some(c) => lemma_last_index_at(textures@, shows_image(i as int), c as int),
                None => lemma_last_index_at(textures@, shows_image(i as int), -1),
            }
        }
        r.push(MeshImage { image_index: i, texture: chosen });
        i = i + 1;
    }
    r
}

/// The sizes of a model's descriptor pool: uniform buffers, storage buffers and combined
/// image samplers, one per image or skin and never fewer than one.
pub fn descriptor_counts(image_count: usize, skin_count: usize) -> (r: (u32, u32, u32))
    ensures
        r.0 == (if image_count as u32 == 0 { 1 } else { image_count as u32 }),
        r.1 == (if skin_count as u32 == 0 { 1 } else { skin_count as u32 }),
        r.2 == r.0,
{
    let images = image_count as u32;
    let skins = skin_count as u32;
    let a: u32 = if images < 1 { 1 } else { images };
    let b: u32 = if skins < 1 { 1 } else { skins };
    (a, b, a)
}

/// A primitive of a node's mesh as the glTF document gives it: its number of vertices,
/// its vertex indices when it has them, and its material when it names one.
pub struct SourcePrimitive {
    pub vertex_count: usize,
    pub indices: Option<Vec<u32>>,
    pub material: Option<usize>,
}

/// A node of a glTF document: its skin when it has one, the positions of its children in
/// the document's node list, and the primitives of its mesh (none without a mesh).
pub struct SourceNode {
    pub skin: Option<usize>,
    pub children: Vec<usize>,
    pub primitives: Vec<SourcePrimitive>,
}

pub struct SourcePrimitiveView {
    pub vertex_count: usize,
    pub indices: Option<Seq<u32>>,
    pub material: Option<usize>,
}

pub struct SourceNodeView {
    pub skin: Option<usize>,
    pub children: Seq<usize>,
    pub primitives: Seq<SourcePrimitiveView>,
}

impl View for SourcePrimitive {
    type V = SourcePrimitiveView;

    open spec fn view(&self) -> SourcePrimitiveView {
        SourcePrimitiveView {
            vertex_count: self.vertex_count,
            indices: match self.indices {
                Some(ix) => Some(ix@),
                None => None,
            },
            material: self.material,
        }
    }
}

impl View for SourceNode {
    type V = SourceNodeView;

    open spec fn view(&self) -> SourceNodeView {
        SourceNodeView {
            skin: self.skin,
            children: self.children@,
            primitives: prims_view(self.primitives@),
        }
    }
}

/// A mesh's primitives as values.
pub open spec fn prims_view(prims: Seq<SourcePrimitive>) -> Seq<SourcePrimitiveView> {
    prims.map_values(|p: SourcePrimitive| p@)
}

/// The document's nodes as values.
pub open spec fn doc_view(doc: Seq<SourceNode>) -> Seq<SourceNodeView> {
    doc.map_values(|n: SourceNode| n@)
}

/// The root node positions of each scene as values.
pub open spec fn scenes_view(scenes: Seq<Vec<usize>>) -> Seq<Seq<usize>> {
    scenes.map_values(|v: Vec<usize>| v@)
}

/// A loaded primitive: where its indices start in the model's index buffer and how many
/// it has, its material, and where its vertices start in the vertex buffer and how many
/// it has.
#[derive(Clone, Copy, Debug, PartialEq, Eq, Structural)]
pub struct Primitive {
    pub first_index: u32,
    pub index_count: u32,
    pub material_index: i32,
    pub first_vertex: usize,
    pub vertex_count: usize,
}

/// The primitives of a loaded node's mesh.
pub struct Mesh {
    pub primitives: Vec<Primitive>,
}

/// A loaded node: the document position it came from, its mesh, its skin (`-1`: none),
/// the position of its parent among the loaded nodes (`-1`: a root) and the positions of
/// its children.
pub struct Node {
    pub idx: u32,
    pub mesh: Mesh,
    pub skin: i32,
    pub parent: i32,
    pub children: Vec<usize>,
}

pub struct NodeView {
    pub idx: u32,
    pub primitives: Seq<Primitive>,
    pub skin: i32,
    pub parent: i32,
    pub children: Seq<usize>,
}

impl View for Node {
    type V = NodeView;

    open spec fn view(&self) -> NodeView {
        NodeView {
            idx: self.idx,
            primitives: self.mesh.primitives@,
            skin: self.skin,
            parent: self.parent,
            children: self.children@,
        }
    }
}

/// What loading a model's node trees gives: the nodes in the order they were reached,
/// the index buffer, and the number of vertices in the vertex buffer.
pub struct LoadedNodes {
    pub nodes: Vec<Node>,
    pub index_buffer: Vec<u32>,
    pub vertex_count: usize,
}

/// The state of a load: the nodes so far, the index buffer, the number of vertices, and
/// whether every sum so far fitted its integer type.
pub struct LoadState {
    pub nodes: Seq<NodeView>,
    pub index_buffer: Seq<u32>,
    pub vertex_count: int,
    pub ok: bool,
}

impl View for LoadedNodes {
    type V = LoadState;

    open spec fn view(&self) -> LoadState {
        LoadState {
            nodes: self.nodes@.map_values(|n: Node| n@),
            index_buffer: self.index_buffer@,
            vertex_count: self.vertex_count as int,
            ok: true,
        }
    }
}

/// The skin index a loaded node keeps: the document's, or `-1` without a skin.
pub open spec fn skin_index(skin: Option<usize>) -> i32 {
    match skin {
        Some(s) => s as i32,
        None => -1i32,
    }
}

/// The material index a loaded primitive keeps: the document's, or `0` without one.
pub open spec fn material_index(material: Option<usize>) -> i32 {
    match material {
        Some(m) => m as i32,
        None => 0i32,
    }
}

/// Node `i` exists, and every path down from it through the document's children visits
/// fewer than `k` nodes: loading it comes to an end.
pub open spec fn bounded(doc: Seq<SourceNodeView>, i: int, k: nat) -> bool
    decreases k, 0int,
{
    if k == 0 {
        false
    } else {
        0 <= i < doc.len() && children_bounded(doc, doc[i].children, 0, (k - 1) as nat)
    }
}

/// The nodes `cs[j..]` are all [`bounded`] by `k`.
pub open spec fn children_bounded(doc: Seq<SourceNodeView>, cs: Seq<usize>, j: int, k: nat) -> bool
    decreases k, cs.len() + 1 - j,
{
    if j < 0 || j >= cs.len() {
        true
    } else {
        bounded(doc, cs[j] as int, k) && children_bounded(doc, cs, j + 1, k)
    }
}

proof fn lemma_children_bounded(doc: Seq<SourceNodeView>, cs: Seq<usize>, j0: int, k: nat, j: int)
    requires
        children_bounded(doc, cs, j0, k),
        0 <= j0 <= j < cs.len(),
    ensures
        bounded(doc, cs[j] as int, k),
    decreases j - j0,
{
    if j0 < j {
        lemma_children_bounded(doc, cs, j0 + 1, k, j);
    }
}

/// The index buffer after appending `indices`, each moved by `offset`.
pub open spec fn shifted(indices: Seq<u32>, offset: u32) -> Seq<u32> {
    indices.map_values(|x: u32| (x + offset) as u32)
}

/// Every index moved by `offset` still fits a `u32`.
pub open spec fn shift_fits(indices: Seq<u32>, offset: u32) -> bool {
    forall|m: int| 0 <= m < indices.len() ==> #[trigger] indices[m] + offset <= u32::MAX
}

/// Loading primitives `j..` of a node's mesh: each appends its indices, moved by the
/// vertex count when the previous primitive was done (for the first, when the node was
/// reached), and its vertices. A primitive without indices counts as many as the one
/// before it. Gives the state and the node's loaded primitives.
pub open spec fn primitives_loaded(
    prims: Seq<SourcePrimitiveView>,
    j: int,
    first_index: int,
    vertex_start: int,
    index_count: int,
    s: LoadState,
    out: Seq<Primitive>,
) -> (LoadState, Seq<Primitive>)
    decreases prims.len() - j,
{
    if !s.ok || j < 0 || j >= prims.len() {
        (s, out)
    } else {
        let p = prims[j];
        let offset = vertex_start as u32;
        let ic = match p.indices {
            Some(ix) => ix.len() as int,
            None => index_count,
        };
        let ib = match p.indices {
            Some(ix) => s.index_buffer + shifted(ix, offset),
            None => s.index_buffer,
        };
        let fits = match p.indices {
            Some(ix) => shift_fits(ix, offset),
            None => true,
        };
        let prim = Primitive {
            first_index: first_index as u32,
            index_count: ic as u32,
            material_index: material_index(p.material),
            first_vertex: s.vertex_count as usize,
            vertex_count: p.vertex_count,
        };
        let vc = s.vertex_count + p.vertex_count;
        let ok = fits && vc <= usize::MAX && first_index + ic <= usize::MAX;
        primitives_loaded(
            prims,
            j + 1,
            first_index + ic,
            vc,
            ic,
            LoadState { nodes: s.nodes, index_buffer: ib, vertex_count: vc, ok },
            out.push(prim),
        )
    }
}

/// Loading document node `i` under the loaded node `parent`: the node is appended, then
/// its children are loaded in order, then its primitives; last, its entry gets its
/// children and primitives.
pub open spec fn node_loaded(doc: Seq<SourceNodeView>, i: int, parent: i32, s: LoadState, k: nat) -> LoadState
    decreases k, 0int,
{
    if !s.ok || k == 0 || !(0 <= i < doc.len()) {
        s
    } else {
        let node_idx = s.nodes.len() as int;
        let placeholder = NodeView {
            idx: i as u32,
            primitives: seq![],
            skin: skin_index(doc[i].skin),
            parent,
            children: seq![],
        };
        let s1 = LoadState {
            nodes: s.nodes.push(placeholder),
            index_buffer: s.index_buffer,
            vertex_count: s.vertex_count,
            ok: s.ok,
        };
        let (s2, children) = children_loaded(doc, i, 0, node_idx, s1, seq![], (k - 1) as nat);
        let (s3, prims) = primitives_loaded(
            doc[i].primitives,
            0,
            s.index_buffer.len() as int,
            s.vertex_count,
            0,
            s2,
            seq![],
        );
        LoadState {
            nodes: s3.nodes.update(
                node_idx,
                NodeView {
                    idx: i as u32,
                    primitives: prims,
                    skin: skin_index(doc[i].skin),
                    parent,
                    children,
                },
            ),
            index_buffer: s3.index_buffer,
            vertex_count: s3.vertex_count,
            ok: s3.ok,
        }
    }
}

/// Loading children `j..` of document node `i`, whose loaded entry is `node_idx`: each
/// child's position among the loaded nodes is noted, then the child is loaded.
pub open spec fn children_loaded(
    doc: Seq<SourceNodeView>,
    i: int,
    j: int,
    node_idx: int,
    s: LoadState,
    children: Seq<usize>,
    k: nat,
) -> (LoadState, Seq<usize>)
    decreases k, doc[i].children.len() + 1 - j,
{
    if !(0 <= i < doc.len()) || j < 0 || j >= doc[i].children.len() {
        (s, children)
    } else {
        let child_idx = s.nodes.len() as usize;
        let s1 = node_loaded(doc, doc[i].children[j] as int, node_idx as i32, s, k);
        children_loaded(doc, i, j + 1, node_idx, s1, children.push(child_idx), k)
    }
}

proof fn lemma_primitives_keep_nodes(
    prims: Seq<SourcePrimitiveView>,
    j: int,
    first_index: int,
    vertex_start: int,
    index_count: int,
    s: LoadState,
    out: Seq<Primitive>,
)
    ensures
        primitives_loaded(prims, j, first_index, vertex_start, index_count, s, out).0.nodes
            == s.nodes,
        !s.ok ==> primitives_loaded(prims, j, first_index, vertex_start, index_count, s, out)
            == (s, out),
    decreases prims.len() - j,
{
    if s.ok && 0 <= j < prims.len() {
        let p = prims[j];
        let offset = vertex_start as u32;
        let ic = match p.indices {
            Some(ix) => ix.len() as int,
            None => index_count,
        };
        let ib = match p.indices {
            Some(ix) => s.index_buffer + shifted(ix, offset),
            None => s.index_buffer,
        };
        let fits = match p.indices {
            Some(ix) => shift_fits(ix, offset),
            None => true,
        };
        let prim = Primitive {
            first_index: first_index as u32,
            index_count: ic as u32,
            material_index: material_index(p.material),
            first_vertex: s.vertex_count as usize,
            vertex_count: p.vertex_count,
        };
        let vc = s.vertex_count + p.vertex_count;
        let ok = fits && vc <= usize::MAX && first_index + ic <= usize::MAX;
        lemma_primitives_keep_nodes(
            prims,
            j + 1,
            first_index + ic,
            vc,
            ic,
            LoadState { nodes: s.nodes, index_buffer: ib, vertex_count: vc, ok },
            out.push(prim),
        );
    }
}

/// Loading a node only appends nodes after the ones there were and fills in its own
/// entry: the entries before stay as they were; a failed load leaves the state alone.
proof fn lemma_node_loaded_keeps(doc: Seq<SourceNodeView>, i: int, parent: i32, s: LoadState, k: nat)
    ensures
        node_loaded(doc, i, parent, s, k).nodes.len() >= s.nodes.len(),
        forall|m: int|
            0 <= m < s.nodes.len() ==> #[trigger] node_loaded(doc, i, parent, s, k).nodes[m]
                == s.nodes[m],
        !s.ok ==> node_loaded(doc, i, parent, s, k) == s,
    decreases k, 0int,
{
    if s.ok && k > 0 && 0 <= i < doc.len() {
        let node_idx = s.nodes.len() as int;
        let placeholder = NodeView {
            idx: i as u32,
            primitives: seq![],
            skin: skin_index(doc[i].skin),
            parent,
            children: seq![],
        };
        let s1 = LoadState {
            nodes: s.nodes.push(placeholder),
            index_buffer: s.index_buffer,
            vertex_count: s.vertex_count,
            ok: s.ok,
        };
        lemma_children_loaded_keeps(doc, i, 0, node_idx, s1, seq![], (k - 1) as nat);
        let (s2, children) = children_loaded(doc, i, 0, node_idx, s1, seq![], (k - 1) as nat);
        lemma_primitives_keep_nodes(
            doc[i].primitives,
            0,
            s.index_buffer.len() as int,
            s.vertex_count,
            0,
            s2,
            seq![],
        );
        assert forall|m: int| 0 <= m < s.nodes.len() implies #[trigger] node_loaded(
            doc,
            i,
            parent,
            s,
            k,
        ).nodes[m] == s.nodes[m] by {
            assert(s1.nodes[m] == s.nodes[m]);
        }
    }
}

proof fn lemma_children_loaded_keeps(
    doc: Seq<SourceNodeView>,
    i: int,
    j: int,
    node_idx: int,
    s: LoadState,
    children: Seq<usize>,
    k: nat,
)
    ensures
        children_loaded(doc, i, j, node_idx, s, children, k).0.nodes.len() >= s.nodes.len(),
        forall|m: int|
            0 <= m < s.nodes.len() ==> #[trigger] children_loaded(
                doc,
                i,
                j,
                node_idx,
                s,
                children,
                k,
            ).0.nodes[m] == s.nodes[m],
        !s.ok ==> children_loaded(doc, i, j, node_idx, s, children, k).0 == s,
    decreases k, doc[i].children.len() + 1 - j,
{
    if 0 <= i < doc.len() && 0 <= j < doc[i].children.len() {
        let child_idx = s.nodes.len() as usize;
        let s1 = node_loaded(doc, doc[i].children[j] as int, node_idx as i32, s, k);
        lemma_node_loaded_keeps(doc, doc[i].children[j] as int, node_idx as i32, s, k);
        lemma_children_loaded_keeps(doc, i, j + 1, node_idx, s1, children.push(child_idx), k);
    }
}

/// Appends primitives of a node's mesh to the model, as [`primitives_loaded`] says;
/// stops and gives `false` where a sum would not fit its integer type.
fn load_primitives(
    prims: &Vec<SourcePrimitive>,
    st: &mut LoadedNodes,
    first_index: usize,
    vertex_start: usize,
) -> (r: (bool, Vec<Primitive>))
    ensures
        r.0 == primitives_loaded(
            prims_view(prims@),
            0,
            first_index as int,
            vertex_start as int,
            0,
            old(st)@,
            seq![],
        ).0.ok,
        r.0 ==> (final(st)@, r.1@) == primitives_loaded(
            prims_view(prims@),
            0,
            first_index as int,
            vertex_start as int,
            0,
            old(st)@,
            seq![],
        ),
{
    let ghost pv = prims_view(prims@);
    let ghost target = primitives_loaded(
        pv,
        0,
        first_index as int,
        vertex_start as int,
        0,
        st@,
        seq![],
    );
    let mut out: Vec<Primitive> = Vec::new();
    let mut next_first: usize = first_index;
    let mut next_start: usize = vertex_start;
    let mut index_count: usize = 0;
    let mut j: usize = 0;
    while j < prims.len()
        invariant
            j <= prims.len(),
            pv == prims_view(prims@),
            target == primitives_loaded(pv, 0, first_index as int, vertex_start as int, 0, old(st)@, seq![]),
            target == primitives_loaded(
                pv,
                j as int,
                next_first as int,
                next_start as int,
                index_count as int,
                st@,
                out@,
            ),
        decreases prims.len() - j,
    {
        let p = &prims[j];
        let offset = next_start as u32;
        let ghost s = st@;
        let ghost pj = pv[j as int];
        assert(pj == p@);
        let ghost ic: int = match pj.indices {
            Some(ix) => ix.len() as int,
            None => index_count as int,
        };
        let ghost ib = match pj.indices {
            Some(ix) => s.index_buffer + shifted(ix, offset),
            None => s.index_buffer,
        };
        let ghost fits = match pj.indices {
            Some(ix) => shift_fits(ix, offset),
            None => true,
        };
        let prim_material: usize = match p.material {
            Some(m) => m,
            None => 0,
        };
        let ghost vc = s.vertex_count + pj.vertex_count;
        let ghost next = LoadState {
            nodes: s.nodes,
            index_buffer: ib,
            vertex_count: vc,
            ok: fits && vc <= usize::MAX && next_first + ic <= usize::MAX,
        };
        let ghost prim = Primitive {
            first_index: next_first as u32,
            index_count: ic as u32,
            material_index: material_index(pj.material),
            first_vertex: s.vertex_count as usize,
            vertex_count: pj.vertex_count,
        };
        assert(target == primitives_loaded(
            pv,
            j + 1,
            next_first + ic,
            vc,
            ic,
            next,
            out@.push(prim),
        ));
        proof {
            lemma_primitives_keep_nodes(pv, j + 1, next_first + ic, vc, ic, next, out@.push(prim));
        }
        let new_index_count: usize = match &p.indices {
            Some(ix) => ix.len(),
            None => index_count,
        };
        let mut all_fit = true;
        match &p.indices {
            Some(ix) => {
                let mut m: usize = 0;
                while m < ix.len()
                    invariant
                        m <= ix.len(),
                        all_fit == (forall|q: int| 0 <= q < m ==> #[trigger] ix@[q] + offset <= u32::MAX),
                    decreases ix.len() - m,
                {
                    if ix[m] > u32::MAX - offset {
                        all_fit = false;
                    }
                    m = m + 1;
                }
            },
            None => {},
        }
        if !all_fit || st.vertex_count > usize::MAX - p.vertex_count || next_first > usize::MAX
            - new_index_count {
            assert(!next.ok);
            assert(target.0 == next);
            assert(!target.0.ok);
            return (false, out);
        }
        assert(next.ok);
        match &p.indices {
            Some(ix) => {
                let ghost ib0 = st.index_buffer@;
                let ghost nodes0 = st.nodes@;
                let ghost vcount0 = st.vertex_count;
                let mut m: usize = 0;
                while m < ix.len()
                    invariant
                        m <= ix.len(),
                        shift_fits(ix@, offset),
                        st.index_buffer@ == ib0 + shifted(ix@.subrange(0, m as int), offset),
                        st.nodes@ == nodes0,
                        st.vertex_count == vcount0,
                    decreases ix.len() - m,
                {
                    assert(ix@[m as int] + offset <= u32::MAX);
                    st.index_buffer.push(ix[m] + offset);
                    assert(shifted(ix@.subrange(0, m + 1), offset) =~= shifted(
                        ix@.subrange(0, m as int),
                        offset,
                    ).push((ix@[m as int] + offset) as u32));
                    m = m + 1;
                }
                assert(ix@.subrange(0, ix.len() as int) =~= ix@);
            },
            None => {},
        }
        index_count = new_index_count;
        out.push(
            Primitive {
                first_index: next_first as u32,
                index_count: index_count as u32,
                material_index: prim_material as i32,
                first_vertex: st.vertex_count,
                vertex_count: p.vertex_count,
            },
        );
        st.vertex_count = st.vertex_count + p.vertex_count;
        next_first = next_first + index_count;
        next_start = st.vertex_count;
        assert(st@.nodes == next.nodes);
        assert(st@ == next);
        j = j + 1;
    }
    (true, out)
}

proof fn lemma_bounded_child(doc: Seq<SourceNodeView>, i: int, k: nat, j: int)
    requires
        bounded(doc, i, k),
        0 <= j < doc[i].children.len(),
    ensures
        k > 0,
        bounded(doc, doc[i].children[j] as int, (k - 1) as nat),
{
    lemma_children_bounded(doc, doc[i].children, 0, (k - 1) as nat, j);
}

/// Appends document node `i` and its subtree to the model, as [`node_loaded`] says.
fn load_node(
    doc: &Vec<SourceNode>,
    i: usize,
    parent: i32,
    st: &mut LoadedNodes,
    Ghost(k): Ghost<nat>,
) -> (r: bool)
    requires
        bounded(doc_view(doc@), i as int, k),
    ensures
        r == node_loaded(doc_view(doc@), i as int, parent, old(st)@, k).ok,
        r ==> final(st)@ == node_loaded(doc_view(doc@), i as int, parent, old(st)@, k),
    decreases k,
{
    let ghost d = doc_view(doc@);
    let ghost s0 = st@;
    let node_idx = st.nodes.len();
    let first_index = st.index_buffer.len();
    let vertex_start = st.vertex_count;
    let skin: i32 = match doc[i].skin {
        Some(s) => s as i32,
        None => -1,
    };
    assert(d[i as int] == doc@[i as int]@);
    assert(skin == skin_index(d[i as int].skin));
    st.nodes.push(
        Node {
            idx: i as u32,
            mesh: Mesh { primitives: Vec::new() },
            skin,
            parent,
            children: Vec::new(),
        },
    );
    let ghost placeholder = NodeView {
        idx: i as u32,
        primitives: seq![],
        skin: skin_index(d[i as int].skin),
        parent,
        children: seq![],
    };
    let ghost s1 = LoadState {
        nodes: s0.nodes.push(placeholder),
        index_buffer: s0.index_buffer,
        vertex_count: s0.vertex_count,
        ok: s0.ok,
    };
    assert(st@.nodes =~= s1.nodes);
    assert(st@ == s1);
    let ghost target = children_loaded(d, i as int, 0, node_idx as int, s1, seq![], (k - 1) as nat);
    let mut children: Vec<usize> = Vec::new();
    let n = doc[i].children.len();
    let mut j: usize = 0;
    while j < n
        invariant
            d == doc_view(doc@),
            i < doc.len(),
            n == d[i as int].children.len(),
            j <= n,
            k > 0,
            bounded(d, i as int, k),
            node_idx == s0.nodes.len(),
            s0 == old(st)@,
            target == children_loaded(d, i as int, j as int, node_idx as int, st@, children@, (k - 1) as nat),
            st@.nodes.len() > node_idx,
            node_loaded(d, i as int, parent, s0, k) == ({
                let (s2, ch) = target;
                let (s3, prims) = primitives_loaded(
                    d[i as int].primitives,
                    0,
                    first_index as int,
                    vertex_start as int,
                    0,
                    s2,
                    seq![],
                );
                LoadState {
                    nodes: s3.nodes.update(
                        node_idx as int,
                        NodeView {
                            idx: i as u32,
                            primitives: prims,
                            skin: skin_index(d[i as int].skin),
                            parent,
                            children: ch,
                        },
                    ),
                    index_buffer: s3.index_buffer,
                    vertex_count: s3.vertex_count,
                    ok: s3.ok,
                }
            }),
        decreases n - j,
    {
        let child = doc[i].children[j];
        let child_idx = st.nodes.len();
        let ghost st_before = st@;
        proof {
            assert(d[i as int].children[j as int] == child);
            lemma_bounded_child(d, i as int, k, j as int);
            lemma_node_loaded_keeps(d, child as int, node_idx as i32, st@, (k - 1) as nat);
            let s_next = node_loaded(d, child as int, node_idx as i32, st@, (k - 1) as nat);
            lemma_children_loaded_keeps(
                d,
                i as int,
                j + 1,
                node_idx as int,
                s_next,
                children@.push(child_idx),
                (k - 1) as nat,
            );
            let (s2, ch) = target;
            lemma_primitives_keep_nodes(
                d[i as int].primitives,
                0,
                first_index as int,
                vertex_start as int,
                0,
                s2,
                seq![],
            );
        }
        let child_ok = load_node(doc, child, node_idx as i32, st, Ghost((k - 1) as nat));
        if !child_ok {
            proof {
                let s_next = node_loaded(d, child as int, node_idx as i32, st_before, (k - 1) as nat);
                lemma_children_loaded_keeps(
                    d,
                    i as int,
                    j + 1,
                    node_idx as int,
                    s_next,
                    children@.push(child_idx),
                    (k - 1) as nat,
                );
            }
            return false;
        }
        children.push(child_idx);
        j = j + 1;
    }
    let ghost s2 = st@;
    proof {
        lemma_primitives_keep_nodes(
            d[i as int].primitives,
            0,
            first_index as int,
            vertex_start as int,
            0,
            s2,
            seq![],
        );
    }
    assert(d[i as int].primitives == prims_view(doc@[i as int].primitives@));
    let (prims_ok, prims) = load_primitives(&doc[i].primitives, st, first_index, vertex_start);
    if !prims_ok {
        return false;
    }
    let ghost s3 = st@;
    st.nodes.set(
        node_idx,
        Node { idx: i as u32, mesh: Mesh { primitives: prims }, skin, parent, children },
    );
    assert(st@.nodes =~= s3.nodes.update(
        node_idx as int,
        NodeView {
            idx: i as u32,
            primitives: prims@,
            skin: skin_index(d[i as int].skin),
            parent,
            children: children@,
        },
    ));
    true
}

/// A number of steps within which loading node `r` ends, when there is one.
pub open spec fn root_fuel(doc: Seq<SourceNodeView>, r: int) -> nat {
    choose|k: nat| bounded(doc, r, k)
}

/// Loading the scene roots `roots[j..]`, each as a node without parent.
pub open spec fn roots_loaded(doc: Seq<SourceNodeView>, roots: Seq<usize>, j: int, s: LoadState) -> LoadState
    decreases roots.len() - j,
{
    if j < 0 || j >= roots.len() {
        s
    } else {
        roots_loaded(
            doc,
            roots,
            j + 1,
            node_loaded(doc, roots[j] as int, -1i32, s, root_fuel(doc, roots[j] as int)),
        )
    }
}

/// Loading the roots of scenes `m..`, scene after scene.
pub open spec fn scenes_loaded(doc: Seq<SourceNodeView>, scenes: Seq<Seq<usize>>, m: int, s: LoadState) -> LoadState
    decreases scenes.len() - m,
{
    if m < 0 || m >= scenes.len() {
        s
    } else {
        scenes_loaded(doc, scenes, m + 1, roots_loaded(doc, scenes[m], 0, s))
    }
}

/// Nothing loaded yet.
pub open spec fn empty_load() -> LoadState {
    LoadState { nodes: seq![], index_buffer: seq![], vertex_count: 0, ok: true }
}

/// The model's nodes, index buffer and vertex count after loading every scene's roots.
pub open spec fn model_nodes(doc: Seq<SourceNodeView>, scenes: Seq<Seq<usize>>) -> LoadState {
    scenes_loaded(doc, scenes, 0, empty_load())
}

/// Loading node `r` comes to an end: no path down from it returns to a node it has
/// passed.
pub open spec fn load_ends(doc: Seq<SourceNodeView>, r: int) -> bool {
    exists|k: nat| bounded(doc, r, k)
}

/// Loading each scene root comes to an end.
pub open spec fn roots_terminate(doc: Seq<SourceNodeView>, scenes: Seq<Seq<usize>>) -> bool {
    forall|m: int, j: int|
        0 <= m < scenes.len() && 0 <= j < scenes[m].len() ==> load_ends(
            doc,
            #[trigger] scenes[m][j] as int,
        )
}

proof fn lemma_roots_stop(doc: Seq<SourceNodeView>, roots: Seq<usize>, j: int, s: LoadState)
    requires
        !s.ok,
    ensures
        roots_loaded(doc, roots, j, s) == s,
    decreases roots.len() - j,
{
    if 0 <= j < roots.len() {
        lemma_node_loaded_keeps(doc, roots[j] as int, -1i32, s, root_fuel(doc, roots[j] as int));
        lemma_roots_stop(doc, roots, j + 1, s);
    }
}

proof fn lemma_scenes_stop(doc: Seq<SourceNodeView>, scenes: Seq<Seq<usize>>, m: int, s: LoadState)
    requires
        !s.ok,
    ensures
        scenes_loaded(doc, scenes, m, s) == s,
    decreases scenes.len() - m,
{
    if 0 <= m < scenes.len() {
        lemma_roots_stop(doc, scenes[m], 0, s);
        lemma_scenes_stop(doc, scenes, m + 1, s);
    }
}

/// Loads the node trees of every scene of a glTF document, roots in order, depth first:
/// a node, then its children's subtrees, then its mesh. Gives the nodes in the order they
/// were reached, with their parents, children and primitives, and the index buffer.
pub fn load_nodes(doc: &Vec<SourceNode>, scenes: &Vec<Vec<usize>>) -> (r: LoadedNodes)
    requires
        roots_terminate(doc_view(doc@), scenes_view(scenes@)),
        model_nodes(doc_view(doc@), scenes_view(scenes@)).ok,
    ensures
        r@ == model_nodes(doc_view(doc@), scenes_view(scenes@)),
{
    match load_all(doc, scenes) {
        Some(loaded) => loaded,
        None => vstd::pervasive::unreached(),
    }
}

/// Loads the node trees of every scene, stopping with `None` where a sum would not fit
/// its integer type.
fn load_all(doc: &Vec<SourceNode>, scenes: &Vec<Vec<usize>>) -> (r: Option<LoadedNodes>)
    requires
        roots_terminate(doc_view(doc@), scenes_view(scenes@)),
    ensures
        (r is Some) == model_nodes(doc_view(doc@), scenes_view(scenes@)).ok,
        r matches Some(loaded) ==> loaded@ == model_nodes(doc_view(doc@), scenes_view(scenes@)),
{
    let ghost d = doc_view(doc@);
    let ghost sc = scenes_view(scenes@);
    let mut st = LoadedNodes { nodes: Vec::new(), index_buffer: Vec::new(), vertex_count: 0 };
    assert(st@.nodes =~= empty_load().nodes);
    let ghost target = model_nodes(d, sc);
    let mut m: usize = 0;
    while m < scenes.len()
        invariant
            m <= scenes.len(),
            d == doc_view(doc@),
            sc == scenes_view(scenes@),
            roots_terminate(d, sc),
            target == model_nodes(d, sc),
            target == scenes_loaded(d, sc, m as int, st@),
        decreases scenes.len() - m,
    {
        let roots = &scenes[m];
        assert(sc[m as int] == roots@);
        let ghost scene_target = roots_loaded(d, roots@, 0, st@);
        let mut j: usize = 0;
        while j < roots.len()
            invariant
                j <= roots.len(),
                m < scenes.len(),
                sc == scenes_view(scenes@),
                sc[m as int] == roots@,
                d == doc_view(doc@),
                roots_terminate(d, sc),
                target == model_nodes(d, sc),
                target == scenes_loaded(d, sc, m + 1, scene_target),
                scene_target == roots_loaded(d, roots@, j as int, st@),
            decreases roots.len() - j,
        {
            let r = roots[j];
            assert(sc.len() == scenes@.len());
            assert(sc[m as int][j as int] == r);
            assert(load_ends(d, sc[m as int][j as int] as int));
            let ghost k = root_fuel(d, r as int);
            let ghost before = st@;
            let loaded = load_node(doc, r, -1, &mut st, Ghost(k));
            if !loaded {
                proof {
                    let next = node_loaded(d, r as int, -1i32, before, k);
                    lemma_roots_stop(d, roots@, j + 1, next);
                    lemma_scenes_stop(d, sc, m + 1, next);
                }
                return None;
            }
            j = j + 1;
        }
        m = m + 1;
    }
    Some(st)
}

/// Whether loading each scene root ends within `k` steps.
pub open spec fn roots_bounded_by(doc: Seq<SourceNodeView>, scenes: Seq<Seq<usize>>, k: nat) -> bool {
    forall|m: int, j: int|
        0 <= m < scenes.len() && 0 <= j < scenes[m].len() ==> bounded(
            doc,
            #[trigger] scenes[m][j] as int,
            k,
        )
}

/// Whether loading document node `i` ends within `k` steps, as [`bounded`] says.
pub fn subtree_bounded(doc: &Vec<SourceNode>, i: usize, k: usize) -> (r: bool)
    ensures
        r == bounded(doc_view(doc@), i as int, k as nat),
    decreases k,
{
    let ghost d = doc_view(doc@);
    if k == 0 || i >= doc.len() {
        return false;
    }
    let ghost cs = d[i as int].children;
    assert(cs == doc@[i as int].children@);
    let n = doc[i].children.len();
    let mut j: usize = 0;
    while j < n
        invariant
            d == doc_view(doc@),
            i < doc.len(),
            k > 0,
            cs == d[i as int].children,
            n == cs.len(),
            j <= n,
            children_bounded(d, cs, 0, (k - 1) as nat) == children_bounded(d, cs, j as int, (k - 1) as nat),
        decreases n - j,
    {
        let child = doc[i].children[j];
        assert(cs[j as int] == child);
        let child_ok = subtree_bounded(doc, child, k - 1);
        if !child_ok {
            return false;
        }
        j = j + 1;
    }
    true
}

/// Loads the node trees of every scene as [`load_nodes`] does, when that can be done:
/// each scene root's loading ends within as many steps as the document has nodes, and
/// every sum fits its integer type. `None` otherwise.
pub fn load_nodes_checked(doc: &Vec<SourceNode>, scenes: &Vec<Vec<usize>>) -> (r: Option<LoadedNodes>)
    ensures
        (r is Some) == (roots_bounded_by(doc_view(doc@), scenes_view(scenes@), doc@.len())
            && model_nodes(doc_view(doc@), scenes_view(scenes@)).ok),
        r matches Some(loaded) ==> loaded@ == model_nodes(doc_view(doc@), scenes_view(scenes@)),
{
    let ghost d = doc_view(doc@);
    let ghost sc = scenes_view(scenes@);
    let limit = doc.len();
    let mut m: usize = 0;
    while m < scenes.len()
        invariant
            m <= scenes.len(),
            d == doc_view(doc@),
            sc == scenes_view(scenes@),
            limit == doc@.len(),
            forall|m2: int, j2: int|
                0 <= m2 < m && 0 <= j2 < sc[m2].len() ==> bounded(d, #[trigger] sc[m2][j2] as int, limit as nat),
        decreases scenes.len() - m,
    {
        let roots = &scenes[m];
        assert(sc[m as int] == roots@);
        let mut j: usize = 0;
        while j < roots.len()
            invariant
                j <= roots.len(),
                m < scenes.len(),
                d == doc_view(doc@),
                sc == scenes_view(scenes@),
                sc[m as int] == roots@,
                limit == doc@.len(),
                forall|m2: int, j2: int|
                    0 <= m2 < m && 0 <= j2 < sc[m2].len() ==> bounded(d, #[trigger] sc[m2][j2] as int, limit as nat),
                forall|j2: int| 0 <= j2 < j ==> bounded(d, #[trigger] sc[m as int][j2] as int, limit as nat),
            decreases roots.len() - j,
        {
            if !subtree_bounded(doc, roots[j], limit) {
                assert(!roots_bounded_by(d, sc, doc@.len()));
                return None;
            }
            j = j + 1;
        }
        m = m + 1;
    }
    assert(roots_bounded_by(d, sc, doc@.len()));
    assert forall|m2: int, j2: int|
        0 <= m2 < sc.len() && 0 <= j2 < sc[m2].len() implies load_ends(d, #[trigger] sc[m2][j2] as int) by {
        assert(bounded(d, sc[m2][j2] as int, limit as nat));
    }
    load_all(doc, scenes)
}

/// The loaded node came from document node `g`.
pub open spec fn from_document_node(g: u32) -> spec_fn(NodeView) -> bool {
    |n: NodeView| n.idx == g
}

/// The position of the first loaded node that came from document node `g`, or `-1`.
pub open spec fn node_position_of(nodes: Seq<NodeView>, g: usize) -> i32 {
    let k = first_index(nodes, from_document_node(g as u32));
    if k < nodes.len() {
        k as i32
    } else {
        -1i32
    }
}

/// All loaded nodes as values.
pub open spec fn nodes_view(nodes: Seq<Node>) -> Seq<NodeView> {
    nodes.map_values(|n: Node| n@)
}

/// The position of the first loaded node that came from document node `gltf_index`, or
/// `-1` when none did.
pub fn node_position(nodes: &Vec<Node>, gltf_index: usize) -> (r: i32)
    ensures
        r == node_position_of(nodes_view(nodes@), gltf_index),
{
    let ghost nv = nodes_view(nodes@);
    let target = gltf_index as u32;
    let mut i: usize = 0;
    while i < nodes.len()
        invariant
            i <= nodes.len(),
            nv == nodes_view(nodes@),
            target == gltf_index as u32,
            forall|m: int| 0 <= m < i ==> !#[trigger] from_document_node(target)(nv[m]),
        decreases nodes.len() - i,
    {
        if nodes[i].idx == target {
            proof {
                lemma_first_index_at(nv, from_document_node(target), i as int);
            }
            return i as i32;
        }
        i = i + 1;
    }
    proof {
        lemma_first_index_at(nv, from_document_node(target), nv.len() as int);
    }
    -1
}

/// The positions of the loaded nodes that the joints `joints` came from, in order;
/// a joint no loaded node came from is left out.
pub open spec fn joint_positions(nodes: Seq<NodeView>, joints: Seq<usize>) -> Seq<i32>
    decreases joints.len(),
{
    if joints.len() == 0 {
        seq![]
    } else {
        let before = joint_positions(nodes, joints.drop_last());
        let p = node_position_of(nodes, joints.last());
        if p != -1 {
            before.push(p)
        } else {
            before
        }
    }
}

/// The positions of a skin's joints among the loaded nodes.
pub fn skin_joints(nodes: &Vec<Node>, joints: &Vec<usize>) -> (r: Vec<i32>)
    ensures
        r@ == joint_positions(nodes_view(nodes@), joints@),
{
    let mut r: Vec<i32> = Vec::new();
    let mut j: usize = 0;
    while j < joints.len()
        invariant
            j <= joints.len(),
            r@ == joint_positions(nodes_view(nodes@), joints@.subrange(0, j as int)),
        decreases joints.len() - j,
    {
        let p = node_position(nodes, joints[j]);
        assert(joints@.subrange(0, j + 1).drop_last() =~= joints@.subrange(0, j as int));
        if p != -1 {
            r.push(p);
        }
        j = j + 1;
    }
    assert(joints@.subrange(0, joints.len() as int) =~= joints@);
    r
}

/// The skeleton root of a skin among the loaded nodes: where the node it names was
/// loaded first, or `-1` when it names none or none was loaded from it.
pub fn skeleton_root(nodes: &Vec<Node>, skeleton: Option<usize>) -> (r: i32)
    ensures
        r == (match skeleton {
            Some(g) => node_position_of(nodes_view(nodes@), g),
            None => -1i32,
        }),
{
    match skeleton {
        Some(g) => node_position(nodes, g),
        None => -1,
    }
}

/// The node skin indices after loading `skin_count` skins: each skin, in turn, claims the
/// nodes not yet claimed that name it, and gives them its own position among the loaded
/// skins.
pub fn assign_skins(node_skins: &Vec<i32>, skin_count: usize) -> (r: Vec<i32>)
    ensures
        r@ == node_skins@,
{
    let mut r: Vec<i32> = Vec::new();
    let mut m: usize = 0;
    while m < node_skins.len()
        invariant
            m <= node_skins.len(),
            r@ == node_skins@.subrange(0, m as int),
        decreases node_skins.len() - m,
    {
        r.push(node_skins[m]);
        m = m + 1;
    }
    let mut updated: Vec<bool> = Vec::new();
    let mut m: usize = 0;
    while m < node_skins.len()
        invariant
            m <= node_skins.len(),
            updated.len() == m,
        decreases node_skins.len() - m,
    {
        updated.push(false);
        m = m + 1;
    }
    assert(r@ =~= node_skins@);
    let mut s: usize = 0;
    while s < skin_count
        invariant
            s <= skin_count,
            r@ == node_skins@,
            updated.len() == node_skins.len(),
        decreases skin_count - s,
    {
        let mut i: usize = 0;
        while i < r.len()
            invariant
                i <= r.len(),
                s < skin_count,
                r@ == node_skins@,
                updated.len() == node_skins.len(),
            decreases r.len() - i,
        {
            let skin = r[i];
            if !updated[i] && skin != -1 && s == skin as usize {
                let assigned = s as i32;
                assert(assigned == skin) by (bit_vector)
                    requires
                        skin as usize == s,
                        assigned == s as i32,
                ;
                r.set(i, assigned);
                updated.set(i, true);
            }
            i = i + 1;
        }
        s = s + 1;
    }
    r
}

/// What an animation channel changes of its node.
#[derive(Clone, Copy, Debug, PartialEq, Eq, Structural)]
pub enum Property {
    Translation,
    Rotation,
    Scale,
    MorphTargetWeights,
}

/// A channel of an animation: what it changes, the position of the loaded node it
/// changes (`-1`: none), and the position of its sampler.
#[derive(Clone, Copy, Debug, PartialEq, Eq, Structural)]
pub struct AnimationChannel {
    pub property: Property,
    pub node: i32,
    pub sampler_index: i32,
}

/// The channels of an animation, one per target (document node and property), each
/// with the sampler made for it: the sampler at the channel's own position.
pub fn animation_channels(nodes: &Vec<Node>, targets: &Vec<(usize, Property)>) -> (r: Vec<
    AnimationChannel,
>)
    ensures
        r.len() == targets.len(),
        forall|c: int|
            0 <= c < targets.len() ==> #[trigger] r[c] == (AnimationChannel {
                property: targets[c].1,
                node: node_position_of(nodes_view(nodes@), targets[c].0),
                sampler_index: c as i32,
            }),
{
    let mut r: Vec<AnimationChannel> = Vec::new();
    let mut c: usize = 0;
    while c < targets.len()
        invariant
            c <= targets.len(),
            r.len() == c,
            forall|m: int|
                0 <= m < c ==> #[trigger] r[m] == (AnimationChannel {
                    property: targets[m].1,
                    node: node_position_of(nodes_view(nodes@), targets[m].0),
                    sampler_index: m as i32,
                }),
        decreases targets.len() - c,
    {
        let (g, property) = targets[c];
        let node = node_position(nodes, g);
        r.push(AnimationChannel { property, node, sampler_index: c as i32 });
        c = c + 1;
    }
    r
}

/// Every loaded node's parent comes before it: `-1` for a root, else an earlier position.
pub open spec fn parents_precede(nodes: Seq<NodeView>) -> bool {
    forall|c: int|
        0 <= c < nodes.len() ==> (#[trigger] nodes[c]).parent == -1 || 0 <= nodes[c].parent < c
}

/// Node `k` and its ancestors, from `k` up to its root.
pub open spec fn ancestor_chain(nodes: Seq<NodeView>, k: int) -> Seq<usize>
    decreases k,
{
    if 0 <= k < nodes.len() {
        let p = nodes[k].parent as int;
        if 0 <= p < k {
            seq![k as usize] + ancestor_chain(nodes, p)
        } else {
            seq![k as usize]
        }
    } else {
        seq![]
    }
}

/// The nodes whose matrices make up node `idx`'s place in the model: `idx`, its parent,
/// and so on up to its root. Its matrix is their local matrices multiplied from the root
/// down.
pub fn node_ancestors(nodes: &Vec<Node>, idx: usize) -> (r: Vec<usize>)
    requires
        idx < nodes.len(),
        parents_precede(nodes_view(nodes@)),
    ensures
        r@ == ancestor_chain(nodes_view(nodes@), idx as int),
{
    let ghost nv = nodes_view(nodes@);
    let mut r: Vec<usize> = Vec::new();
    r.push(idx);
    let mut cur: usize = idx;
    let mut last_parent = nodes[idx].parent;
    assert(nv[idx as int] == nodes@[idx as int]@);
    while last_parent != -1
        invariant
            nv == nodes_view(nodes@),
            parents_precede(nv),
            cur < nodes.len(),
            last_parent == nv[cur as int].parent,
            r@.len() > 0,
            r@.drop_last() + ancestor_chain(nv, cur as int) == ancestor_chain(nv, idx as int),
            r@.last() == cur,
        decreases cur,
    {
        assert(nv[cur as int] == nodes@[cur as int]@);
        let p = last_parent as usize;
        assert(ancestor_chain(nv, cur as int) == seq![cur] + ancestor_chain(nv, p as int));
        assert(r@.push(p).drop_last() + ancestor_chain(nv, p as int) =~= r@.drop_last()
            + ancestor_chain(nv, cur as int));
        r.push(p);
        assert(nv[p as int] == nodes@[p as int]@);
        last_parent = nodes[p].parent;
        cur = p;
    }
    assert(ancestor_chain(nv, cur as int) == seq![cur]);
    assert(r@ =~= r@.drop_last() + ancestor_chain(nv, cur as int));
    r
}

/// The animation to play: the active one when it is set (not `-1`) and below the number
/// of animations.
pub fn active_animation_index(active_animation: i32, animation_count: usize) -> (r: Option<usize>)
    ensures
        r == (if active_animation != -1 && active_animation < animation_count as i32 {
            Some(active_animation as usize)
        } else {
            None
        }),
{
    if active_animation != -1 && active_animation < animation_count as i32 {
        Some(active_animation as usize)
    } else {
        None
    }
}

/// The two sampler outputs blended between key frames `j` and `j + 1`, wrapping around
/// the outputs.
pub fn keyframe_outputs(j: usize, output_count: usize) -> (r: (usize, usize))
    requires
        output_count > 0,
        j < usize::MAX,
    ensures
        r.0 == j % output_count,
        r.1 == (j + 1) % (output_count as int),
{
    (j % output_count, (j + 1) % output_count)
}

/// The loaded nodes `a..b` hang below node `q` (`-1`: below nothing, as roots): each
/// has `q` or an earlier node of the range as parent, lists as children only nodes of the
/// range that name it as parent, and lists every such node.
pub open spec fn hangs_below(nodes: Seq<NodeView>, a: int, b: int, q: int) -> bool {
    &&& 0 <= a
    &&& q < a <= b <= nodes.len()
    &&& forall|c: int|
        a <= c < b ==> (#[trigger] nodes[c]).parent == q || a <= nodes[c].parent < c
    &&& forall|c: int, t: int|
        a <= c < b && 0 <= t < nodes[c].children.len() ==> a <= #[trigger] nodes[c].children[t] < b
            && nodes[nodes[c].children[t] as int].parent == c
    &&& forall|c: int, x: int|
        a <= c < b && a <= x < b && nodes[x].parent == c ==> #[trigger] nodes[c].children.contains(
            x as usize,
        )
}

/// The loaded nodes form a forest laid out depth first: every node's parent is a root
/// marker or an earlier node, and each node's children are exactly the nodes that name it
/// as parent.
pub open spec fn is_forest(nodes: Seq<NodeView>) -> bool {
    hangs_below(nodes, 0, nodes.len() as int, -1)
}

/// Node `a` heads the subtree `a..b` and hangs below `q`.
pub open spec fn subtree(nodes: Seq<NodeView>, a: int, b: int, q: int) -> bool {
    &&& q < a < b <= nodes.len()
    &&& nodes[a].parent == q
    &&& hangs_below(nodes, a + 1, b, a)
    &&& lists_children_of(nodes, a, nodes[a].children, b)
}

/// `children` are exactly the nodes after `a` and before `b` that name `a` as parent.
pub open spec fn lists_children_of(nodes: Seq<NodeView>, a: int, children: Seq<usize>, b: int) -> bool {
    &&& forall|t: int|
        0 <= t < children.len() ==> a < #[trigger] children[t] < b && nodes[children[t] as int].parent
            == a
    &&& forall|x: int| a < x < b && #[trigger] nodes[x].parent == a ==> children.contains(x as usize)
}

/// A subtree after the nodes `a..l` that hang below `q`, and hanging below `q` too,
/// extends them.
proof fn lemma_hangs_below_extend(n: Seq<NodeView>, nn: Seq<NodeView>, a: int, l: int, l1: int, q: int)
    requires
        hangs_below(n, a, l, q),
        subtree(nn, l, l1, q),
        l <= n.len(),
        forall|m: int| 0 <= m < l ==> #[trigger] nn[m] == n[m],
    ensures
        hangs_below(nn, a, l1, q),
{
    assert forall|c: int| a <= c < l1 implies (#[trigger] nn[c]).parent == q || a <= nn[c].parent
        < c by {
        if c < l {
            assert(nn[c] == n[c]);
        } else if c > l {
            assert(nn[c].parent == l || l + 1 <= nn[c].parent < c);
        }
    }
    assert forall|c: int, t: int|
        a <= c < l1 && 0 <= t < nn[c].children.len() implies a <= #[trigger] nn[c].children[t] < l1
        && nn[nn[c].children[t] as int].parent == c by {
        if c < l {
            assert(nn[c] == n[c]);
            let x = n[c].children[t] as int;
            assert(a <= x < l);
            assert(nn[x] == n[x]);
        } else if c == l {
            assert(lists_children_of(nn, l, nn[l].children, l1));
        }
    }
    assert forall|c: int, x: int|
        a <= c < l1 && a <= x < l1 && nn[x].parent == c implies #[trigger] nn[c].children.contains(
        x as usize,
    ) by {
        if x < l {
            assert(nn[x] == n[x]);
            assert(c < x);
            assert(nn[c] == n[c]);
            assert(n[c].children.contains(x as usize));
        } else if x == l {
            assert(false);
        } else {
            if c == l {
                assert(lists_children_of(nn, l, nn[l].children, l1));
            } else {
                assert(l + 1 <= c);
                assert(hangs_below(nn, l + 1, l1, l));
            }
        }
    }
}

proof fn lemma_node_subtree(doc: Seq<SourceNodeView>, i: int, parent: i32, s: LoadState, k: nat)
    requires
        s.ok,
        bounded(doc, i, k),
        node_loaded(doc, i, parent, s, k).ok,
        node_loaded(doc, i, parent, s, k).nodes.len() <= 0x8000_0000,
        -1 <= parent < s.nodes.len(),
    ensures
        subtree(
            node_loaded(doc, i, parent, s, k).nodes,
            s.nodes.len() as int,
            node_loaded(doc, i, parent, s, k).nodes.len() as int,
            parent as int,
        ),
    decreases k, 0int,
{
    let node_idx = s.nodes.len() as int;
    let placeholder = NodeView {
        idx: i as u32,
        primitives: seq![],
        skin: skin_index(doc[i].skin),
        parent,
        children: seq![],
    };
    let s1 = LoadState {
        nodes: s.nodes.push(placeholder),
        index_buffer: s.index_buffer,
        vertex_count: s.vertex_count,
        ok: s.ok,
    };
    let (s2, children) = children_loaded(doc, i, 0, node_idx, s1, seq![], (k - 1) as nat);
    lemma_children_loaded_keeps(doc, i, 0, node_idx, s1, seq![], (k - 1) as nat);
    lemma_primitives_keep_nodes(
        doc[i].primitives,
        0,
        s.index_buffer.len() as int,
        s.vertex_count,
        0,
        s2,
        seq![],
    );
    let r = node_loaded(doc, i, parent, s, k);
    assert(s2.ok);
    assert(r.nodes.len() == s2.nodes.len());
    assert(hangs_below(s1.nodes, node_idx + 1, node_idx + 1, node_idx));
    assert(lists_children_of(s1.nodes, node_idx, seq![], node_idx + 1));
    lemma_children_hang(doc, i, 0, node_idx, s1, seq![], (k - 1) as nat);
    assert(s2.nodes[node_idx] == placeholder);
    assert forall|m: int| node_idx < m < r.nodes.len() implies #[trigger] r.nodes[m] == s2.nodes[m] by {}
    assert(r.nodes[node_idx].children == children);
    assert(r.nodes[node_idx].parent == parent);
    let len = r.nodes.len() as int;
    assert(hangs_below(r.nodes, node_idx + 1, len, node_idx)) by {
        assert forall|c: int, x: int|
            node_idx + 1 <= c < len && node_idx + 1 <= x < len && r.nodes[x].parent == c implies #[trigger] r.nodes[c].children.contains(
            x as usize,
        ) by {
            assert(r.nodes[x] == s2.nodes[x]);
            assert(r.nodes[c] == s2.nodes[c]);
        }
        assert forall|c: int, t: int|
            node_idx + 1 <= c < len && 0 <= t < r.nodes[c].children.len() implies node_idx + 1
            <= #[trigger] r.nodes[c].children[t] < len && r.nodes[r.nodes[c].children[t] as int].parent
            == c by {
            assert(r.nodes[c] == s2.nodes[c]);
            let x = s2.nodes[c].children[t] as int;
            assert(r.nodes[x] == s2.nodes[x]);
        }
    }
    assert(lists_children_of(r.nodes, node_idx, children, len)) by {
        assert forall|t: int| 0 <= t < children.len() implies node_idx < #[trigger] children[t] < len
            && r.nodes[children[t] as int].parent == node_idx by {
            let x = children[t] as int;
            assert(r.nodes[x] == s2.nodes[x]);
        }
        assert forall|x: int| node_idx < x < len && #[trigger] r.nodes[x].parent == node_idx implies children.contains(
            x as usize,
        ) by {
            assert(r.nodes[x] == s2.nodes[x]);
        }
    }
}

proof fn lemma_children_hang(
    doc: Seq<SourceNodeView>,
    i: int,
    j: int,
    node_idx: int,
    s: LoadState,
    children: Seq<usize>,
    k: nat,
)
    requires
        0 <= i < doc.len(),
        0 <= j <= doc[i].children.len(),
        children_bounded(doc, doc[i].children, j, k),
        0 <= node_idx < s.nodes.len(),
        s.ok,
        hangs_below(s.nodes, node_idx + 1, s.nodes.len() as int, node_idx),
        lists_children_of(s.nodes, node_idx, children, s.nodes.len() as int),
        children_loaded(doc, i, j, node_idx, s, children, k).0.ok,
        children_loaded(doc, i, j, node_idx, s, children, k).0.nodes.len() <= 0x8000_0000,
    ensures
        hangs_below(
            children_loaded(doc, i, j, node_idx, s, children, k).0.nodes,
            node_idx + 1,
            children_loaded(doc, i, j, node_idx, s, children, k).0.nodes.len() as int,
            node_idx,
        ),
        lists_children_of(
            children_loaded(doc, i, j, node_idx, s, children, k).0.nodes,
            node_idx,
            children_loaded(doc, i, j, node_idx, s, children, k).1,
            children_loaded(doc, i, j, node_idx, s, children, k).0.nodes.len() as int,
        ),
    decreases k, doc[i].children.len() + 1 - j,
{
    if j < doc[i].children.len() {
        let child = doc[i].children[j] as int;
        let l = s.nodes.len() as int;
        let child_idx = s.nodes.len() as usize;
        let s1 = node_loaded(doc, child, node_idx as i32, s, k);
        assert(bounded(doc, child, k) && children_bounded(doc, doc[i].children, j + 1, k));
        lemma_node_loaded_keeps(doc, child, node_idx as i32, s, k);
        lemma_children_loaded_keeps(doc, i, j + 1, node_idx, s1, children.push(child_idx), k);
        assert(s1.ok);
        assert(node_idx as i32 == node_idx);
        lemma_node_subtree(doc, child, node_idx as i32, s, k);
        let l1 = s1.nodes.len() as int;
        lemma_hangs_below_extend(s.nodes, s1.nodes, node_idx + 1, l, l1, node_idx);
        let ch = children.push(child_idx);
        assert(child_idx as int == l);
        assert(lists_children_of(s1.nodes, node_idx, ch, l1)) by {
            assert forall|t: int| 0 <= t < ch.len() implies node_idx < #[trigger] ch[t] < l1
                && s1.nodes[ch[t] as int].parent == node_idx by {
                if t < children.len() {
                    let x = children[t] as int;
                    assert(s1.nodes[x] == s.nodes[x]);
                }
            }
            assert forall|x: int| node_idx < x < l1 && #[trigger] s1.nodes[x].parent == node_idx implies ch.contains(
                x as usize,
            ) by {
                if x < l {
                    assert(s1.nodes[x] == s.nodes[x]);
                    assert(children.contains(x as usize));
                    let t = choose|t: int| 0 <= t < children.len() && children[t] == x as usize;
                    assert(ch[t] == x as usize);
                } else if x == l {
                    assert(ch[children.len() as int] == x as usize);
                } else {
                    assert(hangs_below(s1.nodes, l + 1, l1, l));
                }
            }
        }
        lemma_children_hang(doc, i, j + 1, node_idx, s1, ch, k);
    }
}

proof fn lemma_roots_grow(doc: Seq<SourceNodeView>, roots: Seq<usize>, j: int, s: LoadState)
    ensures
        roots_loaded(doc, roots, j, s).nodes.len() >= s.nodes.len(),
    decreases roots.len() - j,
{
    if 0 <= j < roots.len() {
        lemma_node_loaded_keeps(doc, roots[j] as int, -1i32, s, root_fuel(doc, roots[j] as int));
        lemma_roots_grow(
            doc,
            roots,
            j + 1,
            node_loaded(doc, roots[j] as int, -1i32, s, root_fuel(doc, roots[j] as int)),
        );
    }
}

proof fn lemma_scenes_grow(doc: Seq<SourceNodeView>, scenes: Seq<Seq<usize>>, m: int, s: LoadState)
    ensures
        scenes_loaded(doc, scenes, m, s).nodes.len() >= s.nodes.len(),
    decreases scenes.len() - m,
{
    if 0 <= m < scenes.len() {
        lemma_roots_grow(doc, scenes[m], 0, s);
        lemma_scenes_grow(doc, scenes, m + 1, roots_loaded(doc, scenes[m], 0, s));
    }
}

proof fn lemma_roots_forest(doc: Seq<SourceNodeView>, roots: Seq<usize>, j: int, s: LoadState)
    requires
        0 <= j <= roots.len(),
        forall|t: int| j <= t < roots.len() ==> load_ends(doc, #[trigger] roots[t] as int),
        s.ok,
        is_forest(s.nodes),
        roots_loaded(doc, roots, j, s).ok,
        roots_loaded(doc, roots, j, s).nodes.len() <= 0x8000_0000,
    ensures
        is_forest(roots_loaded(doc, roots, j, s).nodes),
    decreases roots.len() - j,
{
    if j < roots.len() {
        let r = roots[j] as int;
        let k = root_fuel(doc, r);
        assert(load_ends(doc, roots[j] as int));
        assert(bounded(doc, r, k));
        let s1 = node_loaded(doc, r, -1i32, s, k);
        lemma_node_loaded_keeps(doc, r, -1i32, s, k);
        if !s1.ok {
            lemma_roots_stop(doc, roots, j + 1, s1);
        }
        lemma_roots_grow(doc, roots, j + 1, s1);
        lemma_node_subtree(doc, r, -1i32, s, k);
        lemma_hangs_below_extend(
            s.nodes,
            s1.nodes,
            0,
            s.nodes.len() as int,
            s1.nodes.len() as int,
            -1,
        );
        lemma_roots_forest(doc, roots, j + 1, s1);
    }
}

proof fn lemma_scenes_forest(doc: Seq<SourceNodeView>, scenes: Seq<Seq<usize>>, m: int, s: LoadState)
    requires
        0 <= m <= scenes.len(),
        roots_terminate(doc, scenes),
        s.ok,
        is_forest(s.nodes),
        scenes_loaded(doc, scenes, m, s).ok,
        scenes_loaded(doc, scenes, m, s).nodes.len() <= 0x8000_0000,
    ensures
        is_forest(scenes_loaded(doc, scenes, m, s).nodes),
    decreases scenes.len() - m,
{
    if m < scenes.len() {
        let s1 = roots_loaded(doc, scenes[m], 0, s);
        if !s1.ok {
            lemma_scenes_stop(doc, scenes, m + 1, s1);
        }
        lemma_scenes_grow(doc, scenes, m + 1, s1);
        assert forall|t: int| 0 <= t < scenes[m].len() implies load_ends(
            doc,
            #[trigger] scenes[m][t] as int,
        ) by {}
        lemma_roots_forest(doc, scenes[m], 0, s);
        lemma_scenes_forest(doc, scenes, m + 1, s1);
    }
}

/// Loading a document's scenes lays its node trees out depth first: every loaded node's
/// parent is `-1` (a root) or a node loaded before it, and each node's children are
/// exactly the nodes that name it as parent.
pub proof fn lemma_loaded_nodes_form_forest(doc: Seq<SourceNodeView>, scenes: Seq<Seq<usize>>)
    requires
        roots_terminate(doc, scenes),
        model_nodes(doc, scenes).ok,
        model_nodes(doc, scenes).nodes.len() <= 0x8000_0000,
    ensures
        is_forest(model_nodes(doc, scenes).nodes),
        parents_precede(model_nodes(doc, scenes).nodes),
{
    assert(hangs_below(empty_load().nodes, 0, 0, -1));
    lemma_scenes_forest(doc, scenes, 0, empty_load());
    let nodes = model_nodes(doc, scenes).nodes;
    assert forall|c: int| 0 <= c < nodes.len() implies (#[trigger] nodes[c]).parent == -1 || 0
        <= nodes[c].parent < c by {}
}

/// Where an image's encoded bytes lie in the model's buffers.
#[derive(Clone, Copy, Debug, PartialEq, Eq, Structural)]
pub struct BufferView {
    pub buffer: usize,
    pub offset: usize,
    pub length: usize,
}

/// The view lies inside its buffer.
pub open spec fn view_in_range(buffers: Seq<Seq<u8>>, v: BufferView) -> bool {
    v.buffer < buffers.len() && v.offset + v.length <= buffers[v.buffer as int].len()
}

/// The bytes a view covers.
pub open spec fn view_bytes(buffers: Seq<Seq<u8>>, v: BufferView) -> Seq<u8> {
    buffers[v.buffer as int].subrange(v.offset as int, v.offset + v.length)
}

/// The decoded images, in order, of the image sources that are buffer views holding an
/// image the decoder reads; other sources give none.
pub open spec fn decoded_images(buffers: Seq<Seq<u8>>, sources: Seq<Option<BufferView>>) -> Seq<
    (u32, u32, Seq<u8>),
>
    decreases sources.len(),
{
    if sources.len() == 0 {
        seq![]
    } else {
        let rest = decoded_images(buffers, sources.drop_last());
        match sources.last() {
            Some(v) => match decoded_rgba(view_bytes(buffers, v)) {
                Some(d) => rest.push(d),
                None => rest,
            },
            None => rest,
        }
    }
}

/// The size and bytes of an image.
pub open spec fn image_value(img: RgbaImage) -> (u32, u32, Seq<u8>) {
    (rgba_size(img).0, rgba_size(img).1, rgba_pixels(img))
}

/// The images that were decoded, in order, skipping the sources that gave none.
pub open spec fn kept_images(decoded: Seq<Option<RgbaImage>>) -> Seq<RgbaImage>
    decreases decoded.len(),
{
    if decoded.len() == 0 {
        seq![]
    } else {
        let rest = kept_images(decoded.drop_last());
        match decoded.last() {
            Some(img) => rest.push(img),
            None => rest,
        }
    }
}

/// Keeps the images that were decoded, in order.
pub fn keep_decoded(decoded: Vec<Option<RgbaImage>>) -> (r: Vec<RgbaImage>)
    ensures
        r@ == kept_images(decoded@),
{
    let mut decoded = decoded;
    let ghost d0 = decoded@;
    let mut rev: Vec<RgbaImage> = Vec::new();
    while decoded.len() > 0
        invariant
            decoded@ == d0.take(decoded@.len() as int),
            decoded@.len() <= d0.len(),
            kept_images(d0) == kept_images(decoded@) + rev@.reverse(),
        decreases decoded.len(),
    {
        let ghost before = decoded@;
        let last = decoded.pop();
        assert(before.drop_last() == decoded@);
        match last {
            Some(Some(img)) => {
                assert(rev@.push(img).reverse() =~= seq![img] + rev@.reverse());
                rev.push(img);
                assert(kept_images(before) == kept_images(decoded@).push(img));
                assert(kept_images(decoded@).push(img) + rev@.drop_last().reverse() =~= kept_images(decoded@) + rev@.reverse());
            },
            _ => {},
        }
        assert(decoded@ =~= d0.take(decoded@.len() as int));
    }
    let mut r: Vec<RgbaImage> = Vec::new();
    let ghost all = rev@.reverse();
    assert(kept_images(d0) =~= all);
    while rev.len() > 0
        invariant
            all == r@ + rev@.reverse(),
        decreases rev.len(),
    {
        let ghost before = rev@;
        let img = rev.pop().unwrap();
        assert(before.reverse() =~= seq![img] + rev@.reverse());
        r.push(img);
        assert(all =~= r@ + rev@.reverse());
    }
    assert(r@ =~= all);
    r
}

/// Decodes the images of a model whose encoded bytes lie in its buffers; sources that
/// are not buffer views, and bytes that are no image, give none.
pub fn load_images(buffers: &Vec<Vec<u8>>, sources: &Vec<Option<BufferView>>) -> (r: Vec<RgbaImage>)
    requires
        forall|k: int|
            0 <= k < sources.len() ==> (#[trigger] sources@[k] matches Some(v) ==> view_in_range(
                vviews(buffers@),
                v,
            )),
    ensures
        r.len() == decoded_images(vviews(buffers@), sources@).len(),
        forall|k: int|
            0 <= k < r.len() ==> image_value(#[trigger] r@[k]) == decoded_images(
                vviews(buffers@),
                sources@,
            )[k],
{
    let ghost b = vviews(buffers@);
    let mut decoded: Vec<Option<RgbaImage>> = Vec::new();
    let mut i: usize = 0;
    while i < sources.len()
        invariant
            i <= sources.len(),
            b == vviews(buffers@),
            forall|k: int|
                0 <= k < sources.len() ==> (#[trigger] sources@[k] matches Some(v) ==> view_in_range(
                    b,
                    v,
                )),
            kept_images(decoded@).len() == decoded_images(b, sources@.take(i as int)).len(),
            forall|k: int|
                0 <= k < kept_images(decoded@).len() ==> image_value(#[trigger] kept_images(decoded@)[k])
                    == decoded_images(b, sources@.take(i as int))[k],
        decreases sources.len() - i,
    {
        let ghost before = decoded@;
        assert(sources@.take(i + 1).drop_last() =~= sources@.take(i as int));
        match sources[i] {
            Some(v) => {
                assert(view_in_range(b, v));
                assert(b[v.buffer as int] == buffers@[v.buffer as int]@);
                assert(buffers@[v.buffer as int]@.len() == buffers@[v.buffer as int].len());
                let bytes = copy_range(buffers[v.buffer].as_slice(), v.offset, v.offset + v.length);
                let img = decode_rgba(bytes.as_slice());
                decoded.push(img);
                assert(decoded@.drop_last() == before);
            },
            None => {
                decoded.push(None);
                assert(decoded@.drop_last() == before);
            },
        }
        i = i + 1;
    }
    assert(sources@.take(sources.len() as int) =~= sources@);
    keep_decoded(decoded)
}

} // verus!
