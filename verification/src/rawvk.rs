use vstd::prelude::*;

verus! {

broadcast use vstd::string::group_string_axioms;

/// What the Vulkan renderer reads of a draw call to decide how to draw it: its kind,
/// its texture's name, and its text (for a vertex array, the array's name).
pub struct VkDrawCall {
    pub is_3d_model: bool,
    pub is_vao_update: bool,
    pub is_text: bool,
    pub is_custom_vao: bool,
    pub texture: String,
    pub text: String,
}

/// The names of what the renderer has loaded: textures, fonts, models, and its static
/// and dynamic custom vertex arrays.
pub struct LoadedNames {
    pub textures: Vec<String>,
    pub fonts: Vec<String>,
    pub models: Vec<String>,
    pub custom_vaos: Vec<String>,
    pub custom_dynamic_vaos: Vec<String>,
}

/// The vertex arrays a textured quad is drawn with.
#[derive(Clone, Copy, Debug, PartialEq, Eq, Structural)]
pub enum QuadGeometry {
    Main,
    CustomStatic,
    CustomDynamic,
}

/// What the renderer does with a draw call.
pub enum VkDrawAction {
    /// Nothing: something the call needs is not loaded.
    Skip,
    /// Draws the call's model with this texture.
    Model { texture: String },
    /// Replaces the dynamic vertex array the call names.
    UpdateDynamicVao,
    /// Draws the call's text.
    Text,
    /// Draws a quad with this texture and these vertex arrays.
    Quad { texture: String, geometry: QuadGeometry },
}

/// Some name in `names` is `n`.
pub open spec fn has(names: Seq<String>, n: Seq<char>) -> bool {
    exists|k: int| 0 <= k < names.len() && (#[trigger] names[k])@ == n
}

/// The texture a model is drawn with: `oakfloor` for `terrain`, else its own when it is
/// loaded, else the default texture.
pub open spec fn model_texture(t: Seq<char>, textures: Seq<String>, default_texture: Seq<char>) -> Seq<char> {
    if t == "terrain"@ {
        "oakfloor"@
    } else if has(textures, t) {
        t
    } else {
        default_texture
    }
}

/// The texture a quad is drawn with: its own when it names one that is loaded, else the
/// default texture.
pub open spec fn quad_texture(t: Seq<char>, textures: Seq<String>, default_texture: Seq<char>) -> Seq<char> {
    if t != Seq::<char>::empty() && has(textures, t) {
        t
    } else {
        default_texture
    }
}

/// The renderer can handle the call without stopping: a model that is drawn is loaded,
/// and a quad's texture is loaded.
pub open spec fn draw_call_handled(call: VkDrawCall, loaded: LoadedNames, default_texture: Seq<char>) -> bool {
    let t = call.texture@;
    if call.is_3d_model {
        has(loaded.textures@, model_texture(t, loaded.textures@, default_texture)) ==> has(
            loaded.models@,
            t,
        )
    } else if call.is_vao_update || call.is_text {
        true
    } else {
        has(loaded.textures@, quad_texture(t, loaded.textures@, default_texture))
    }
}

/// Whether some name in `names` is `n`.
fn contains_name(names: &Vec<String>, n: &String) -> (r: bool)
    ensures
        r == has(names@, n@),
{
    let mut k: usize = 0;
    while k < names.len()
        invariant
            k <= names.len(),
            forall|m: int| 0 <= m < k ==> (#[trigger] names@[m])@ != n@,
        decreases names.len() - k,
    {
        if names[k] == *n {
            return true;
        }
        k = k + 1;
    }
    false
}

/// What the renderer does with one draw call, given what it has loaded.
pub fn vk_draw_action(call: &VkDrawCall, loaded: &LoadedNames, default_texture: &String) -> (r:
    VkDrawAction)
    requires
        draw_call_handled(*call, *loaded, default_texture@),
    ensures
        ({
            let t = call.texture@;
            let textures = loaded.textures@;
            if call.is_3d_model {
                let chosen = model_texture(t, textures, default_texture@);
                if has(textures, chosen) {
                    r matches VkDrawAction::Model { texture } && texture@ == chosen
                } else {
                    r is Skip
                }
            } else if call.is_vao_update {
                if has(loaded.custom_dynamic_vaos@, call.text@) {
                    r is UpdateDynamicVao
                } else {
                    r is Skip
                }
            } else if call.is_text {
                if has(loaded.fonts@, t) && has(textures, t) {
                    r is Text
                } else {
                    r is Skip
                }
            } else {
                let chosen = quad_texture(t, textures, default_texture@);
                if !call.is_custom_vao {
                    r matches VkDrawAction::Quad { texture, geometry } && texture@ == chosen
                        && geometry == QuadGeometry::Main
                } else if has(loaded.custom_vaos@, call.text@) {
                    r matches VkDrawAction::Quad { texture, geometry } && texture@ == chosen
                        && geometry == QuadGeometry::CustomStatic
                } else if has(loaded.custom_dynamic_vaos@, call.text@) {
                    r matches VkDrawAction::Quad { texture, geometry } && texture@ == chosen
                        && geometry == QuadGeometry::CustomDynamic
                } else {
                    r is Skip
                }
            }
        }),
{
    if call.is_3d_model {
        let mut texture = default_texture.clone();
        if contains_name(&loaded.textures, &call.texture) {
            texture = call.texture.clone();
        }
        let terrain = "terrain".to_string();
        if call.texture == terrain {
            texture = "oakfloor".to_string();
        }
        if !contains_name(&loaded.textures, &texture) {
            return VkDrawAction::Skip;
        }
        VkDrawAction::Model { texture }
    } else if call.is_vao_update {
        if contains_name(&loaded.custom_dynamic_vaos, &call.text) {
            VkDrawAction::UpdateDynamicVao
        } else {
            VkDrawAction::Skip
        }
    } else if call.is_text {
        if !contains_name(&loaded.fonts, &call.texture) || !contains_name(
            &loaded.textures,
            &call.texture,
        ) {
            return VkDrawAction::Skip;
        }
        VkDrawAction::Text
    } else {
        let no_texture = String::new();
        let texture = if call.texture == no_texture {
            default_texture.clone()
        } else if contains_name(&loaded.textures, &call.texture) {
            call.texture.clone()
        } else {
            default_texture.clone()
        };
        if call.is_custom_vao {
            if contains_name(&loaded.custom_vaos, &call.text) {
                VkDrawAction::Quad { texture, geometry: QuadGeometry::CustomStatic }
            } else if contains_name(&loaded.custom_dynamic_vaos, &call.text) {
                VkDrawAction::Quad { texture, geometry: QuadGeometry::CustomDynamic }
            } else {
                VkDrawAction::Skip
            }
        } else {
            VkDrawAction::Quad { texture, geometry: QuadGeometry::Main }
        }
    }
}

/// Where a frame's background loading stands: the step it is at, and whether it has
/// loaded anything this frame.
#[derive(Clone, Copy, Debug, PartialEq, Eq, Structural)]
pub enum LoadStep {
    /// About to load the next waiting texture.
    Textures,
    /// Has just loaded a texture.
    AfterTexture,
    /// Done with the textures, about to look at the clock.
    BetweenKinds,
    /// About to load the next waiting model.
    Models,
    /// Has just loaded a model.
    AfterModel,
}

/// The loading a renderer does in a frame, step by step.
#[derive(Clone, Copy, Debug, PartialEq, Eq, Structural)]
pub struct DynamicLoad {
    pub step: LoadStep,
    pub still_loading: bool,
}

/// What the renderer does next while loading.
#[derive(Clone, Copy, Debug, PartialEq, Eq, Structural)]
pub enum LoadAction {
    /// Load one waiting texture and forget it as waiting.
    LoadTexture,
    /// Load one waiting model and forget it as waiting.
    LoadModel,
    /// Stop for this frame; `mark_ready`: the renderer is to be marked ready.
    Stop { mark_ready: bool },
}

impl DynamicLoad {
    /// The start of a frame's loading.
    pub fn start() -> (r: DynamicLoad)
        ensures
            r.step == LoadStep::Textures,
            !r.still_loading,
    {
        DynamicLoad { step: LoadStep::Textures, still_loading: false }
    }
}

/// The next state and action of a frame's loading, from whether textures and models still
/// wait and whether the frame's time for loading has run out. Textures are loaded first,
/// one at a time, until none waits or time runs out; then, if time is left, the models in
/// the same way. The renderer is ready once a frame finds nothing to load.
pub fn dynamic_load_step(state: DynamicLoad, textures_waiting: bool, models_waiting: bool, out_of_time: bool) -> (r: (DynamicLoad, LoadAction))
    ensures
        match state.step {
            LoadStep::Textures => if textures_waiting {
                r == (DynamicLoad { step: LoadStep::AfterTexture, still_loading: true }, LoadAction::LoadTexture)
            } else if out_of_time {
                r.1 == LoadAction::Stop { mark_ready: false } && r.0 == state
            } else if models_waiting {
                r == (DynamicLoad { step: LoadStep::AfterModel, still_loading: true }, LoadAction::LoadModel)
            } else {
                r.1 == LoadAction::Stop { mark_ready: !state.still_loading } && r.0 == state
            },
            LoadStep::AfterTexture | LoadStep::BetweenKinds => if out_of_time {
                r.1 == LoadAction::Stop { mark_ready: false } && r.0 == state
            } else if state.step == LoadStep::AfterTexture && textures_waiting {
                r == (DynamicLoad { step: LoadStep::AfterTexture, still_loading: true }, LoadAction::LoadTexture)
            } else if models_waiting {
                r == (DynamicLoad { step: LoadStep::AfterModel, still_loading: true }, LoadAction::LoadModel)
            } else {
                r.1 == LoadAction::Stop { mark_ready: !state.still_loading } && r.0 == state
            },
            LoadStep::Models | LoadStep::AfterModel => if state.step == LoadStep::AfterModel && out_of_time {
                r.1 == LoadAction::Stop { mark_ready: !state.still_loading } && r.0 == state
            } else if models_waiting {
                r == (DynamicLoad { step: LoadStep::AfterModel, still_loading: true }, LoadAction::LoadModel)
            } else {
                r.1 == LoadAction::Stop { mark_ready: !state.still_loading } && r.0 == state
            },
        },
        r.1 == (LoadAction::Stop { mark_ready: true }) ==> !state.still_loading,
        r.1 is LoadTexture || r.1 is LoadModel ==> r.0.still_loading,
{
    let mut step = state.step;
    if step == LoadStep::Textures {
        if textures_waiting {
            return (DynamicLoad { step: LoadStep::AfterTexture, still_loading: true }, LoadAction::LoadTexture);
        }
        step = LoadStep::BetweenKinds;
    }
    if step == LoadStep::AfterTexture || step == LoadStep::BetweenKinds {
        if out_of_time {
            return (state, LoadAction::Stop { mark_ready: false });
        }
        if step == LoadStep::AfterTexture && textures_waiting {
            return (DynamicLoad { step: LoadStep::AfterTexture, still_loading: true }, LoadAction::LoadTexture);
        }
        step = LoadStep::Models;
    }
    if step == LoadStep::AfterModel && out_of_time {
        return (state, LoadAction::Stop { mark_ready: !state.still_loading });
    }
    if models_waiting {
        return (DynamicLoad { step: LoadStep::AfterModel, still_loading: true }, LoadAction::LoadModel);
    }
    (state, LoadAction::Stop { mark_ready: !state.still_loading })
}


/// The number of samples the renderer's multisampled images use: the number the settings
/// ask for, at least one, and no more than the device supports.
pub fn msaa_samples(requested: u32, max_supported: u32) -> (r: u32)
    ensures
        r == if requested == 0 {
            if max_supported < 1 { max_supported } else { 1 }
        } else if max_supported < requested {
            max_supported
        } else {
            requested
        },
{
    let wanted = if requested == 0 { 1 } else { requested };
    if max_supported < wanted {
        max_supported
    } else {
        wanted
    }
}

/// The size a recreated swapchain is made with: the window's, with a side of zero replaced
/// by that side of the smallest size.
pub fn swapchain_dimensions(window: [u32; 2], minimum: [u32; 2]) -> (r: [u32; 2])
    ensures
        r[0] == if window[0] == 0 { minimum[0] } else { window[0] },
        r[1] == if window[1] == 0 { minimum[1] } else { window[1] },
{
    let mut dimensions = window;
    if dimensions[0] == 0 {
        dimensions[0] = minimum[0];
    }
    if dimensions[1] == 0 {
        dimensions[1] = minimum[1];
    }
    dimensions
}

/// The number of vertices along each side of the terrain grid.
pub const TERRAIN_VERTEX_COUNT: usize = 128;

/// The six vertex indices of the grid cell in row `gz` and column `gx` of a square grid
/// `n` vertices on a side, whose vertices are numbered row after row: two triangles,
/// top-left, bottom-left, top-right and top-right, bottom-left, bottom-right.
pub open spec fn cell_indices(n: int, gz: int, gx: int) -> Seq<u16> {
    let top_left = gz * n + gx;
    let bottom_left = (gz + 1) * n + gx;
    seq![
        top_left as u16,
        bottom_left as u16,
        (top_left + 1) as u16,
        (top_left + 1) as u16,
        bottom_left as u16,
        (bottom_left + 1) as u16,
    ]
}

/// The index list of a square grid of `vertex_count` vertices on a side: the indices of
/// each of its cells in turn, row after row.
pub fn grid_indices(vertex_count: usize) -> (r: Vec<u16>)
    requires
        1 <= vertex_count,
        vertex_count * vertex_count <= 65536,
    ensures
        r@.len() == 6 * (vertex_count - 1) * (vertex_count - 1),
        forall|gz: int, gx: int, k: int|
            0 <= gz < vertex_count - 1 && 0 <= gx < vertex_count - 1 && 0 <= k < 6 ==> r@[6 * (gz
                * (vertex_count - 1) + gx) + k] == #[trigger] cell_indices(
                vertex_count as int,
                gz,
                gx,
            )[k],
{
    let n = vertex_count;
    let side = n - 1;
    assert(side * side <= 65536) by (nonlinear_arith)
        requires
            side + 1 == n,
            n * n <= 65536,
    ;
    let cells = side * side;
    let mut r: Vec<u16> = Vec::new();
    let mut c: usize = 0;
    while c < cells
        invariant
            n == vertex_count,
            side == n - 1,
            1 <= n,
            n * n <= 65536,
            cells == side * side,
            cells <= 65536,
            c <= cells,
            r@.len() == 6 * c,
            forall|d: int, k: int|
                0 <= d < c && 0 <= k < 6 ==> r@[6 * d + k] == #[trigger] cell_indices(
                    n as int,
                    d / (side as int),
                    d % (side as int),
                )[k],
        decreases cells - c,
    {
        assert(side > 0) by (nonlinear_arith)
            requires
                c < cells,
                cells == side * side,
        ;
        let gz = c / side;
        let gx = c % side;
        assert(gz < side && gx < side && gz * side + gx == c) by (nonlinear_arith)
            requires
                gz == c / side,
                gx == c % side,
                side > 0,
                c < side * side,
        ;
        assert((gz + 1) * n + gx + 1 <= n * n - 1 && gz * n + gx + 1 <= (gz + 1) * n + gx && 0
            <= gz * n) by (nonlinear_arith)
            requires
                gz + 1 <= side,
                gx + 1 <= side,
                side + 1 == n,
        ;
        let top_left: usize = gz * n + gx;
        let bottom_left: usize = (gz + 1) * n + gx;
        let ghost before = r@;
        r.push(top_left as u16);
        r.push(bottom_left as u16);
        r.push((top_left + 1) as u16);
        r.push((top_left + 1) as u16);
        r.push(bottom_left as u16);
        r.push((bottom_left + 1) as u16);
        proof {
            let cell = cell_indices(n as int, gz as int, gx as int);
            assert forall|d: int, k: int|
                0 <= d < c + 1 && 0 <= k < 6 implies r@[6 * d + k] == #[trigger] cell_indices(
                n as int,
                d / (side as int),
                d % (side as int),
            )[k] by {
                if d < c {
                    assert(r@[6 * d + k] == before[6 * d + k]);
                } else {
                    assert(d / (side as int) == gz && d % (side as int) == gx);
                }
            }
        }
        c = c + 1;
    }
    assert(6 * c == 6 * side * side) by (nonlinear_arith)
        requires
            c == side * side,
    ;
    assert forall|gz: int, gx: int, k: int|
        0 <= gz < side && 0 <= gx < side && 0 <= k < 6 implies r@[6 * (gz * side + gx) + k]
        == #[trigger] cell_indices(n as int, gz, gx)[k] by {
        let d = gz * side + gx;
        assert(0 <= d < side * side && d / (side as int) == gz && d % (side as int) == gx)
            by (nonlinear_arith)
            requires
                d == gz * side + gx,
                0 <= gz < side,
                0 <= gx < side,
        ;
        assert(r@[6 * d + k] == cell_indices(n as int, d / (side as int), d % (side as int))[k]);
    }
    r
}

/// The index list of the renderer's terrain grid.
pub fn terrain_indices() -> (r: Vec<u16>)
    ensures
        r@.len() == 6 * 127 * 127,
        forall|gz: int, gx: int, k: int|
            0 <= gz < 127 && 0 <= gx < 127 && 0 <= k < 6 ==> r@[6 * (gz * 127 + gx) + k]
                == #[trigger] cell_indices(128, gz, gx)[k],
{
    grid_indices(TERRAIN_VERTEX_COUNT)
}

} // verus!
