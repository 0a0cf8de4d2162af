use vstd::prelude::*;

verus! {

/// What the OpenGL renderer reads of a draw call to decide how to draw it.
pub struct DrawInfo {
    pub is_3d_model: bool,
    pub is_text: bool,
    pub is_vao_update: bool,
    pub is_instanced: bool,
    pub texture: String,
    /// Whether the instanced vertex array the call names has been loaded.
    pub instance_vao_loaded: bool,
}

/// One step of drawing a frame's draw calls: the position of the call, and for an
/// instanced batch the number of calls it draws at once.
#[derive(PartialEq, Eq, Structural, Clone, Copy, Debug)]
pub enum DrawStep {
    Model3d(usize),
    Text(usize),
    VaoUpdate(usize),
    Instanced(usize, usize),
    Square(usize),
}

/// The call at `k` joins the instanced batch that starts at `start`.
pub open spec fn joins_batch(calls: Seq<DrawInfo>, start: int, k: int) -> bool {
    calls[k].is_instanced && calls[k].texture@ == calls[start].texture@
}

/// The number of calls from `k` on that join the batch starting at `start`.
pub open spec fn batch_length(calls: Seq<DrawInfo>, start: int, k: int) -> nat
    decreases calls.len() - k,
{
    if 0 <= k < calls.len() && joins_batch(calls, start, k) {
        1 + batch_length(calls, start, k + 1)
    } else {
        0
    }
}

/// The number of instances drawn for the instanced call at `offset`: none when its
/// vertex array is not loaded, else the calls from it on that are instanced and use its
/// texture.
pub open spec fn instanced_count(calls: Seq<DrawInfo>, offset: int) -> nat {
    if !calls[offset].instance_vao_loaded {
        0
    } else {
        batch_length(calls, offset, offset)
    }
}

/// The steps that draw the calls from position `p` on: a 3D model, text, a vertex array
/// update, an instanced batch or a square, in that order of precedence.
pub open spec fn draw_plan(calls: Seq<DrawInfo>, p: int) -> Seq<DrawStep>
    decreases calls.len() - p,
{
    if p < 0 || p >= calls.len() {
        seq![]
    } else {
        let c = calls[p];
        if c.is_3d_model {
            seq![DrawStep::Model3d(p as usize)] + draw_plan(calls, p + 1)
        } else if c.is_text {
            seq![DrawStep::Text(p as usize)] + draw_plan(calls, p + 1)
        } else if c.is_vao_update {
            seq![DrawStep::VaoUpdate(p as usize)] + draw_plan(calls, p + 1)
        } else if c.is_instanced {
            let n = instanced_count(calls, p);
            seq![DrawStep::Instanced(p as usize, n as usize)] + draw_plan(
                calls,
                p + if 1 <= n && p + n <= calls.len() {
                    n as int
                } else {
                    1
                },
            )
        } else {
            seq![DrawStep::Square(p as usize)] + draw_plan(calls, p + 1)
        }
    }
}

/// Every instanced batch that drawing from `p` on starts has its vertex array loaded;
/// the renderer cannot go on past a batch that draws nothing.
pub open spec fn plan_drawable(calls: Seq<DrawInfo>, p: int) -> bool
    decreases calls.len() - p,
{
    if p < 0 || p >= calls.len() {
        true
    } else {
        let c = calls[p];
        if c.is_3d_model || c.is_text || c.is_vao_update || !c.is_instanced {
            plan_drawable(calls, p + 1)
        } else {
            let n = instanced_count(calls, p);
            c.instance_vao_loaded && plan_drawable(
                calls,
                p + if 1 <= n && p + n <= calls.len() {
                    n as int
                } else {
                    1
                },
            )
        }
    }
}

proof fn lemma_batch_length_bound(calls: Seq<DrawInfo>, start: int, k: int)
    requires
        0 <= k,
    ensures
        k + batch_length(calls, start, k) <= calls.len() || batch_length(calls, start, k) == 0,
    decreases calls.len() - k,
{
    if 0 <= k < calls.len() && joins_batch(calls, start, k) {
        lemma_batch_length_bound(calls, start, k + 1);
    }
}

/// The calls that a batch starting at `start` counts from `k` on are the instanced calls
/// with the batch's texture that follow one another from `k`.
proof fn lemma_batch_calls(calls: Seq<DrawInfo>, start: int, k: int)
    requires
        0 <= k,
    ensures
        k + batch_length(calls, start, k) <= calls.len() || batch_length(calls, start, k) == 0,
        forall|i: int|
            #![trigger calls[i]]
            k <= i < k + batch_length(calls, start, k) ==> calls[i].is_instanced
                && calls[i].texture@ == calls[start].texture@,
        k + batch_length(calls, start, k) < calls.len() ==> !(calls[k + batch_length(
            calls,
            start,
            k,
        )].is_instanced && calls[k + batch_length(calls, start, k)].texture@
            == calls[start].texture@),
    decreases calls.len() - k,
{
    lemma_batch_length_bound(calls, start, k);
    if 0 <= k < calls.len() && joins_batch(calls, start, k) {
        lemma_batch_calls(calls, start, k + 1);
        assert(batch_length(calls, start, k) == 1 + batch_length(calls, start, k + 1));
    }
}

/// The number of instances drawn for the instanced call at `offset`.
pub fn instanced_draw_count(calls: &Vec<DrawInfo>, offset: usize) -> (n: usize)
    requires
        offset < calls@.len(),
    ensures
        n == instanced_count(calls@, offset as int),
        offset + n <= calls@.len(),
        forall|k: int|
            offset <= k < offset + n ==> #[trigger] calls@[k].is_instanced && calls@[k].texture@
                == calls@[offset as int].texture@,
        (n == 0) == (!calls@[offset as int].instance_vao_loaded
            || !calls@[offset as int].is_instanced),
        n > 0 && offset + n < calls@.len() ==> !(calls@[offset + n].is_instanced && calls@[offset
            + n].texture@ == calls@[offset as int].texture@),
{
    proof {
        lemma_batch_calls(calls@, offset as int, offset as int);
        if calls@[offset as int].is_instanced {
            assert(joins_batch(calls@, offset as int, offset as int));
            assert(batch_length(calls@, offset as int, offset as int) >= 1);
        }
    }
    if !calls[offset].instance_vao_loaded {
        return 0;
    }
    let len = calls.len();
    let mut k = offset;
    while k < len && calls[k].is_instanced && calls[k].texture == calls[offset].texture
        invariant
            offset <= k <= len,
            len == calls@.len(),
            batch_length(calls@, offset as int, offset as int) == (k - offset) + batch_length(
                calls@,
                offset as int,
                k as int,
            ),
        decreases len - k,
    {
        k = k + 1;
    }
    proof {
        lemma_batch_length_bound(calls@, offset as int, offset as int);
    }
    k - offset
}

/// The steps that draw a frame's calls, in order.
pub fn draw_plan_of(calls: &Vec<DrawInfo>) -> (r: Vec<DrawStep>)
    requires
        plan_drawable(calls@, 0),
    ensures
        r@ == draw_plan(calls@, 0),
        forall|j: int| 0 <= j < r@.len() ==> step_draws_its_calls(calls@, 0, #[trigger] r@[j]),
{
    let len = calls.len();
    proof {
        lemma_draw_steps_match_calls(calls@, 0);
    }
    let mut steps: Vec<DrawStep> = Vec::new();
    let mut p: usize = 0;
    assert(steps@ + draw_plan(calls@, 0) =~= draw_plan(calls@, 0));
    while p < len
        invariant
            p <= len,
            len == calls@.len(),
            plan_drawable(calls@, p as int),
            steps@ + draw_plan(calls@, p as int) == draw_plan(calls@, 0),
        decreases len - p,
    {
        let ghost before = steps@;
        let next: usize;
        if calls[p].is_3d_model {
            steps.push(DrawStep::Model3d(p));
            next = p + 1;
        } else if calls[p].is_text {
            steps.push(DrawStep::Text(p));
            next = p + 1;
        } else if calls[p].is_vao_update {
            steps.push(DrawStep::VaoUpdate(p));
            next = p + 1;
        } else if calls[p].is_instanced {
            let n = instanced_draw_count(calls, p);
            steps.push(DrawStep::Instanced(p, n));
            next = if n >= 1 {
                p + n
            } else {
                p + 1
            };
        } else {
            steps.push(DrawStep::Square(p));
            next = p + 1;
        }
        assert(steps@ + draw_plan(calls@, next as int) =~= before + draw_plan(calls@, p as int));
        p = next;
    }
    assert(draw_plan(calls@, p as int) =~= Seq::<DrawStep>::empty());
    assert(steps@ =~= steps@ + draw_plan(calls@, p as int));
    steps
}

/// The positions of the calls that a step draws.
pub open spec fn step_positions(step: DrawStep) -> Seq<int> {
    match step {
        DrawStep::Instanced(start, count) => Seq::new(count as nat, |i: int| start + i),
        DrawStep::Model3d(p) => seq![p as int],
        DrawStep::Text(p) => seq![p as int],
        DrawStep::VaoUpdate(p) => seq![p as int],
        DrawStep::Square(p) => seq![p as int],
    }
}

/// The positions of the calls that the steps draw, in order.
pub open spec fn plan_positions(steps: Seq<DrawStep>) -> Seq<int>
    decreases steps.len(),
{
    if steps.len() == 0 {
        seq![]
    } else {
        step_positions(steps[0]) + plan_positions(steps.drop_first())
    }
}

/// Drawing a frame draws every call once, in order: the steps cover the positions from
/// `p` to the last call, one after the other.
pub proof fn lemma_draw_plan_covers_each_call_once(calls: Seq<DrawInfo>, p: int)
    requires
        0 <= p <= calls.len(),
        calls.len() <= usize::MAX,
        plan_drawable(calls, p),
    ensures
        plan_positions(draw_plan(calls, p)) == Seq::new((calls.len() - p) as nat, |i: int| p + i),
    decreases calls.len() - p,
{
    if p == calls.len() {
        assert(plan_positions(draw_plan(calls, p)) =~= Seq::new(
            (calls.len() - p) as nat,
            |i: int| p + i,
        ));
    } else {
        let c = calls[p];
        let plan = draw_plan(calls, p);
        let step_len: int = if c.is_3d_model || c.is_text || c.is_vao_update || !c.is_instanced {
            1
        } else {
            lemma_batch_length_bound(calls, p, p);
            assert(joins_batch(calls, p, p));
            instanced_count(calls, p) as int
        };
        assert(plan.drop_first() =~= draw_plan(calls, p + step_len));
        lemma_draw_plan_covers_each_call_once(calls, p + step_len);
        assert(step_positions(plan[0]) =~= Seq::new(step_len as nat, |i: int| p + i));
        assert(plan_positions(plan) =~= Seq::new((calls.len() - p) as nat, |i: int| p + i));
    }
}


/// The step draws calls at or after `p` as what they are: a 3D model, text or a vertex
/// array update as such; a square only for a call that is none of these and not
/// instanced; an instanced batch starting at an instanced call, every call it counts being
/// an instanced call with the batch's texture.
pub open spec fn step_draws_its_calls(calls: Seq<DrawInfo>, p: int, step: DrawStep) -> bool {
    match step {
        DrawStep::Model3d(q) => p <= q < calls.len() && calls[q as int].is_3d_model,
        DrawStep::Text(q) => p <= q < calls.len() && !calls[q as int].is_3d_model
            && calls[q as int].is_text,
        DrawStep::VaoUpdate(q) => p <= q < calls.len() && !calls[q as int].is_3d_model
            && !calls[q as int].is_text && calls[q as int].is_vao_update,
        DrawStep::Square(q) => p <= q < calls.len() && !calls[q as int].is_3d_model
            && !calls[q as int].is_text && !calls[q as int].is_vao_update
            && !calls[q as int].is_instanced,
        DrawStep::Instanced(s, n) => {
            &&& p <= s < calls.len()
            &&& s + n <= calls.len()
            &&& !calls[s as int].is_3d_model && !calls[s as int].is_text
                && !calls[s as int].is_vao_update && calls[s as int].is_instanced
            &&& forall|k: int|
                #![trigger calls[k]]
                s <= k < s + n ==> calls[k].is_instanced && calls[k].texture@
                    == calls[s as int].texture@
        },
    }
}

/// Each step of drawing a frame draws its calls as what they are, so a call that is not
/// instanced is never drawn inside an instanced batch, and every call a batch counts is
/// an instanced call with the batch's texture.
pub proof fn lemma_draw_steps_match_calls(calls: Seq<DrawInfo>, p: int)
    requires
        0 <= p <= calls.len(),
        calls.len() <= usize::MAX,
    ensures
        forall|j: int|
            0 <= j < draw_plan(calls, p).len() ==> step_draws_its_calls(
                calls,
                p,
                #[trigger] draw_plan(calls, p)[j],
            ),
    decreases calls.len() - p,
{
    if p < calls.len() {
        let c = calls[p];
        let plan = draw_plan(calls, p);
        let next: int = if c.is_3d_model || c.is_text || c.is_vao_update || !c.is_instanced {
            p + 1
        } else {
            let n = instanced_count(calls, p);
            if 1 <= n && p + n <= calls.len() {
                p + n
            } else {
                p + 1
            }
        };
        assert(plan.drop_first() =~= draw_plan(calls, next));
        lemma_draw_steps_match_calls(calls, next);
        assert(step_draws_its_calls(calls, p, plan[0])) by {
            if !(c.is_3d_model || c.is_text || c.is_vao_update || !c.is_instanced) {
                let n = instanced_count(calls, p);
                lemma_batch_calls(calls, p, p);
                assert(n == 0 || p + n <= calls.len());
                assert(plan[0] == DrawStep::Instanced(p as usize, n as usize));
            }
        }
        assert forall|j: int| 0 <= j < plan.len() implies step_draws_its_calls(
            calls,
            p,
            #[trigger] plan[j],
        ) by {
            if j > 0 {
                assert(plan[j] == draw_plan(calls, next)[j - 1]);
                assert(step_draws_its_calls(calls, next, draw_plan(calls, next)[j - 1]));
            }
        }
    }
}

} // verus!
