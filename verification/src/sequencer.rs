//! The per-frame pipeline sequencer.
//!
//! Stages execute in declaration order, and declaration order alone: the
//! library infers no dependency graph. Each iteration of each stage binds
//! its inputs to the read-safe half of every input field and its outputs to
//! the write-safe half of every output field, sets its uniforms, dispatches,
//! issues a barrier, and then flips every output field's parity; an
//! iterative stage repeats this a fixed number of times with an explicit
//! parity uniform toggling each round. The terminal render pass binds the
//! particle buffer and the current halves it shades from, and draws.
//!
//! The sequencer does not touch the GPU: it emits the frame's exact command
//! plan as a value, against the cache's current programs and the pool's
//! current parities, and advances the pool. The plan an execution layer
//! replays is the very sequence the contracts below pin down.

use vstd::prelude::*;
use crate::fields::{parity_after, pool_wf, FieldBuffer, SwapPool};
use crate::frame::{FrameState, MAX_PENS};
use crate::frame::{effective_dt, spec_effective_dt};
use crate::hotloader::ShaderHotloader;

verus! {

/// One per-frame uniform input a stage declares.
#[derive(Clone, Copy, Debug, PartialEq, Eq, Structural)]
pub enum UniformKind {
    /// The frame's time step (or the paused sentinel).
    TimeStep,
    /// Elapsed wall time since process start.
    Elapsed,
    /// The screen size in pixels.
    ScreenSize,
    /// The padded pen array, one slot at a time.
    Pens,
    /// The iteration parity of an iterative stage.
    Parity,
}

/// One GPU compute dispatch: its program handle, the fields it reads and
/// writes, the uniforms it takes, its work-group shape, and how many times
/// it runs per frame (an iterative relaxation stage runs a fixed even
/// count; an ordinary stage runs once).
#[derive(Clone, Debug)]
pub struct PipelineStage {
    /// Handle into the program cache.
    pub program: usize,
    /// Field indices read, bound to read units in declaration order.
    pub inputs: Vec<usize>,
    /// Field indices written, each listed once, bound after the inputs.
    pub outputs: Vec<usize>,
    /// Uniforms bound every iteration.
    pub uniforms: Vec<UniformKind>,
    /// Work groups dispatched along x.
    pub groups_x: u32,
    /// Work groups dispatched along y.
    pub groups_y: u32,
    /// Work groups dispatched along z.
    pub groups_z: u32,
    /// How many times the stage runs per frame; at least one.
    pub iterations: u32,
}

/// The particle storage: one fixed resource mutated in place each frame,
/// never swapped - written once and read once per frame, strictly ordered
/// by a barrier, so no aliasing hazard arises.
#[derive(Clone, Copy, Debug, PartialEq, Eq, Structural)]
pub struct ParticleBuffer {
    /// The GPU buffer holding the particles.
    pub resource: u32,
    /// The fixed element count, set at creation.
    pub count: u32,
}

/// The terminal render pass: the program shading the particles, the fields
/// it samples at their current parity, its uniforms, and whether the screen
/// is cleared each frame or trails accumulate.
#[derive(Clone, Debug)]
pub struct RenderPass {
    /// Handle into the program cache.
    pub program: usize,
    /// Field indices sampled, bound to read units in declaration order.
    pub inputs: Vec<usize>,
    /// Uniforms bound for the draw.
    pub uniforms: Vec<UniformKind>,
    /// The particle buffer drawn.
    pub particles: ParticleBuffer,
    /// Clear the screen before drawing, or accumulate over the last frame.
    pub clear_each_frame: bool,
}

/// One step of the frame's command plan, replayed in order by an execution
/// layer outside the library.
#[derive(Clone, Copy, Debug, PartialEq, Eq, Structural)]
pub enum Command {
    /// Make this program object current.
    UseProgram { object: u32 },
    /// Set the iteration-parity uniform.
    SetParity { value: u32 },
    /// Set the time-step uniform (a float bit pattern).
    SetTimeStep { bits: u32 },
    /// Set the elapsed-time uniform (a float bit pattern).
    SetElapsed { bits: u32 },
    /// Set the screen-size uniform (two float bit patterns).
    SetScreenSize { width_bits: u32, height_bits: u32 },
    /// Set one slot of the padded pen uniform array.
    SetPenSlot { slot: u32, x: u32, y: u32, vx: u32, vy: u32 },
    /// Bind a resource for reading at a unit.
    BindRead { unit: u32, resource: u32 },
    /// Bind a resource for writing at a unit.
    BindWrite { unit: u32, resource: u32 },
    /// Bind the particle storage for the draw.
    BindParticles { resource: u32 },
    /// Dispatch the current program over this work-group shape.
    Dispatch { x: u32, y: u32, z: u32 },
    /// Make all writes of the previous dispatch visible before any later
    /// read of the same resources.
    Barrier,
    /// Clear the screen.
    Clear,
    /// Draw the particles as points.
    DrawPoints { count: u32 },
}

/// `fields` with the parity of field `i` flipped.
pub open spec fn flip_at(fields: Seq<FieldBuffer>, i: int) -> Seq<FieldBuffer> {
    fields.update(i, fields[i].flipped())
}

/// `fields` after the first `j` entries of `outputs` have each been swapped
/// once, in order.
pub open spec fn swap_prefix(fields: Seq<FieldBuffer>, outputs: Seq<usize>, j: int) -> Seq<
    FieldBuffer,
>
    decreases j,
{
    if j <= 0 {
        fields
    } else {
        flip_at(swap_prefix(fields, outputs, j - 1), outputs[j - 1] as int)
    }
}

/// `fields` after `t` completed iterations of `st`, each swapping every
/// output once.
pub open spec fn stage_fields_after(fields: Seq<FieldBuffer>, st: PipelineStage, t: int) -> Seq<
    FieldBuffer,
>
    decreases t,
{
    if t <= 0 {
        fields
    } else {
        swap_prefix(
            stage_fields_after(fields, st, t - 1),
            st.outputs@,
            st.outputs@.len() as int,
        )
    }
}

/// `fields` after the first `s` stages have fully run.
pub open spec fn frame_fields_after(
    fields: Seq<FieldBuffer>,
    stages: Seq<PipelineStage>,
    s: int,
) -> Seq<FieldBuffer>
    decreases s,
{
    if s <= 0 {
        fields
    } else {
        stage_fields_after(
            frame_fields_after(fields, stages, s - 1),
            stages[s - 1],
            stages[s - 1].iterations as int,
        )
    }
}

/// Whether stage `st` declares field `f` among its outputs.
pub open spec fn writes_field(st: PipelineStage, f: int) -> bool {
    exists|k: int| 0 <= k < st.outputs@.len() && st.outputs@[k] == f
}

/// How many write stages hit field `f` across the first `s` stages: each
/// stage writing `f` contributes one swap per iteration.
pub open spec fn writes_to(stages: Seq<PipelineStage>, f: int, s: int) -> nat
    decreases s,
{
    if s <= 0 {
        0
    } else {
        writes_to(stages, f, s - 1) + if writes_field(stages[s - 1], f) {
            stages[s - 1].iterations as nat
        } else {
            0
        }
    }
}

/// A stage's indices are meaningful for this cache and pool: the program
/// handle is registered, every field index is allocated, each output is
/// declared once, it runs at least once, and its bind units fit.
pub open spec fn stage_valid(st: PipelineStage, nprograms: nat, nfields: nat) -> bool {
    &&& st.program < nprograms
    &&& forall|k: int| 0 <= k < st.inputs@.len() ==> (#[trigger] st.inputs@[k]) < nfields
    &&& forall|k: int| 0 <= k < st.outputs@.len() ==> (#[trigger] st.outputs@[k]) < nfields
    &&& forall|a: int, b: int|
        0 <= a < b < st.outputs@.len() ==> (#[trigger] st.outputs@[a]) != (
        #[trigger] st.outputs@[b])
    &&& st.iterations >= 1
    &&& st.inputs@.len() + st.outputs@.len() <= u32::MAX
}

/// The render pass's indices are meaningful for this cache and pool.
pub open spec fn render_valid(r: RenderPass, nprograms: nat, nfields: nat) -> bool {
    &&& r.program < nprograms
    &&& forall|k: int| 0 <= k < r.inputs@.len() ==> (#[trigger] r.inputs@[k]) < nfields
    &&& r.inputs@.len() <= u32::MAX
}

/// Swapping prefixes of outputs only flips parities: no resource moves, no
/// field appears or disappears, and with each output declared once, a
/// field's parity flips exactly when it is among the outputs seen so far.
proof fn lemma_swap_prefix(fields: Seq<FieldBuffer>, outputs: Seq<usize>, j: int)
    requires
        0 <= j <= outputs.len(),
        forall|k: int| 0 <= k < outputs.len() ==> (#[trigger] outputs[k]) < fields.len(),
        forall|a: int, b: int|
            0 <= a < b < outputs.len() ==> (#[trigger] outputs[a]) != (#[trigger] outputs[b]),
    ensures
        swap_prefix(fields, outputs, j).len() == fields.len(),
        forall|f: int|
            0 <= f < fields.len() ==> (#[trigger] swap_prefix(fields, outputs, j)[f]).front
                == fields[f].front && swap_prefix(fields, outputs, j)[f].back == fields[f].back,
        forall|f: int|
            0 <= f < fields.len() ==> (#[trigger] swap_prefix(fields, outputs, j)[f]).parity == (
            if exists|k: int| 0 <= k < j && outputs[k] == f {
                !fields[f].parity
            } else {
                fields[f].parity
            }),
    decreases j,
{
    if j > 0 {
        lemma_swap_prefix(fields, outputs, j - 1);
        let prev = swap_prefix(fields, outputs, j - 1);
        let now = swap_prefix(fields, outputs, j);
        let o = outputs[j - 1] as int;
        assert forall|f: int| 0 <= f < fields.len() implies (#[trigger] now[f]).parity == (
        if exists|k: int| 0 <= k < j && outputs[k] == f {
            !fields[f].parity
        } else {
            fields[f].parity
        }) by {
            if f == o {
                // `f` was not among the earlier outputs, since each output
                // is declared once; this swap is its first and only flip.
                assert(!(exists|k: int| 0 <= k < j - 1 && outputs[k] == f));
                assert(exists|k: int| 0 <= k < j && outputs[k] == f) by {
                    assert(0 <= j - 1 < j && outputs[j - 1] as int == f);
                }
            } else {
                assert(now[f] == prev[f]);
                assert((exists|k: int| 0 <= k < j && outputs[k] == f) <==> (exists|k: int|
                    0 <= k < j - 1 && outputs[k] == f)) by {
                    if exists|k: int| 0 <= k < j && outputs[k] == f {
                        let k = choose|k: int| 0 <= k < j && outputs[k] == f;
                        assert(k != j - 1);
                    }
                }
            }
        }
    }
}

/// A full pass over a stage's outputs flips exactly the output fields'
/// parities and preserves pool well-formedness.
proof fn lemma_swap_outputs(fields: Seq<FieldBuffer>, st: PipelineStage, nprograms: nat)
    requires
        stage_valid(st, nprograms, fields.len() as nat),
        pool_wf(fields),
    ensures
        ({
            let after = swap_prefix(fields, st.outputs@, st.outputs@.len() as int);
            &&& after.len() == fields.len()
            &&& pool_wf(after)
            &&& forall|f: int|
                0 <= f < fields.len() ==> (#[trigger] after[f]).front == fields[f].front
                    && after[f].back == fields[f].back
            &&& forall|f: int|
                0 <= f < fields.len() ==> (#[trigger] after[f]).parity == (
                if writes_field(st, f) {
                    !fields[f].parity
                } else {
                    fields[f].parity
                })
        }),
{
    lemma_swap_prefix(fields, st.outputs@, st.outputs@.len() as int);
    let after = swap_prefix(fields, st.outputs@, st.outputs@.len() as int);
    assert(pool_wf(after));
}

/// Parity composition: advancing by `a` then `b` write stages is advancing
/// by `a + b`.
proof fn lemma_parity_after_add(p: bool, a: nat, b: nat)
    ensures
        parity_after(parity_after(p, a), b) == parity_after(p, a + b),
{
    assert((a + b) % 2 == (a % 2 + b % 2) % 2) by {
        assert(a % 2 == a - 2 * (a / 2)) by (nonlinear_arith);
        assert(b % 2 == b - 2 * (b / 2)) by (nonlinear_arith);
        assert((a + b) % 2 == (a % 2 + b % 2) % 2) by (nonlinear_arith);
    }
}

/// One stage's `t` iterations flip each output field's parity `t` times and
/// leave everything else - and pool well-formedness - intact.
proof fn lemma_stage_fields(fields: Seq<FieldBuffer>, st: PipelineStage, t: int, nprograms: nat)
    requires
        0 <= t,
        stage_valid(st, nprograms, fields.len() as nat),
        pool_wf(fields),
    ensures
        ({
            let after = stage_fields_after(fields, st, t);
            &&& after.len() == fields.len()
            &&& pool_wf(after)
            &&& forall|f: int|
                0 <= f < fields.len() ==> (#[trigger] after[f]).front == fields[f].front
                    && after[f].back == fields[f].back
            &&& forall|f: int|
                0 <= f < fields.len() ==> (#[trigger] after[f]).parity == (
                if writes_field(st, f) {
                    parity_after(fields[f].parity, t as nat)
                } else {
                    fields[f].parity
                })
        }),
    decreases t,
{
    if t > 0 {
        lemma_stage_fields(fields, st, t - 1, nprograms);
        let prev = stage_fields_after(fields, st, t - 1);
        lemma_swap_outputs(prev, st, nprograms);
        let after = stage_fields_after(fields, st, t);
        assert forall|f: int| 0 <= f < fields.len() implies (#[trigger] after[f]).parity == (
        if writes_field(st, f) {
            parity_after(fields[f].parity, t as nat)
        } else {
            fields[f].parity
        }) by {
            if writes_field(st, f) {
                lemma_parity_after_add(fields[f].parity, (t - 1) as nat, 1);
            }
        }
    }
}

/// Parity correctness over a whole frame: every field keeps its two
/// resources, the pool stays well formed, and each field's parity advances
/// by exactly the number of write stages that hit it - so it ends flipped
/// precisely when that count is odd.
pub proof fn lemma_frame_fields(
    fields: Seq<FieldBuffer>,
    stages: Seq<PipelineStage>,
    s: int,
    nprograms: nat,
)
    requires
        0 <= s <= stages.len(),
        forall|i: int|
            0 <= i < stages.len() ==> stage_valid(
                #[trigger] stages[i],
                nprograms,
                fields.len() as nat,
            ),
        pool_wf(fields),
    ensures
        ({
            let after = frame_fields_after(fields, stages, s);
            &&& after.len() == fields.len()
            &&& pool_wf(after)
            &&& forall|f: int|
                0 <= f < fields.len() ==> (#[trigger] after[f]).front == fields[f].front
                    && after[f].back == fields[f].back
            &&& forall|f: int|
                0 <= f < fields.len() ==> (#[trigger] after[f]).parity == parity_after(
                    fields[f].parity,
                    writes_to(stages, f, s),
                )
        }),
    decreases s,
{
    if s > 0 {
        lemma_frame_fields(fields, stages, s - 1, nprograms);
        let prev = frame_fields_after(fields, stages, s - 1);
        let st = stages[s - 1];
        assert(stage_valid(st, nprograms, prev.len() as nat));
        lemma_stage_fields(prev, st, st.iterations as int, nprograms);
        let after = frame_fields_after(fields, stages, s);
        assert forall|f: int| 0 <= f < fields.len() implies (#[trigger] after[f]).parity
            == parity_after(fields[f].parity, writes_to(stages, f, s)) by {
            if writes_field(st, f) {
                lemma_parity_after_add(
                    fields[f].parity,
                    writes_to(stages, f, s - 1),
                    st.iterations as nat,
                );
            }
        }
    }
}

/// The commands filling the first `k` slots of the padded pen uniform
/// array: the active pens in id order, zero beyond the active count.
pub open spec fn pen_commands(frame: FrameState, k: int) -> Seq<Command>
    decreases k,
{
    if k <= 0 {
        Seq::empty()
    } else {
        pen_commands(frame, k - 1).push(
            Command::SetPenSlot {
                slot: (k - 1) as u32,
                x: frame.pen_slot(k - 1, 0),
                y: frame.pen_slot(k - 1, 1),
                vx: frame.pen_slot(k - 1, 2),
                vy: frame.pen_slot(k - 1, 3),
            },
        )
    }
}

/// The commands binding one declared uniform for iteration `t`.
pub open spec fn uniform_commands(u: UniformKind, frame: FrameState, t: int) -> Seq<Command> {
    match u {
        UniformKind::TimeStep => seq![
            Command::SetTimeStep { bits: spec_effective_dt(frame.time_step) },
        ],
        UniformKind::Elapsed => seq![Command::SetElapsed { bits: frame.elapsed_bits }],
        UniformKind::ScreenSize => seq![
            Command::SetScreenSize {
                width_bits: frame.screen_w_bits,
                height_bits: frame.screen_h_bits,
            },
        ],
        UniformKind::Pens => pen_commands(frame, MAX_PENS as int),
        UniformKind::Parity => seq![Command::SetParity { value: (t % 2) as u32 }],
    }
}

/// The commands binding the first `j` declared uniforms for iteration `t`.
pub open spec fn uniforms_prefix(us: Seq<UniformKind>, frame: FrameState, t: int, j: int) -> Seq<
    Command,
>
    decreases j,
{
    if j <= 0 {
        Seq::empty()
    } else {
        uniforms_prefix(us, frame, t, j - 1) + uniform_commands(us[j - 1], frame, t)
    }
}

/// The commands binding the first `j` input fields for reading, each at its
/// current (read-safe) half, at consecutive units from zero.
pub open spec fn read_binds_prefix(fields: Seq<FieldBuffer>, inputs: Seq<usize>, j: int) -> Seq<
    Command,
>
    decreases j,
{
    if j <= 0 {
        Seq::empty()
    } else {
        read_binds_prefix(fields, inputs, j - 1).push(
            Command::BindRead {
                unit: (j - 1) as u32,
                resource: fields[inputs[j - 1] as int].current_id(),
            },
        )
    }
}

/// The commands binding the first `j` output fields for writing, each at
/// its next (write-safe) half, at consecutive units from `base`.
pub open spec fn write_binds_prefix(
    fields: Seq<FieldBuffer>,
    outputs: Seq<usize>,
    base: int,
    j: int,
) -> Seq<Command>
    decreases j,
{
    if j <= 0 {
        Seq::empty()
    } else {
        write_binds_prefix(fields, outputs, base, j - 1).push(
            Command::BindWrite {
                unit: (base + j - 1) as u32,
                resource: fields[outputs[j - 1] as int].next_id(),
            },
        )
    }
}

/// One iteration of one stage, against the pool state `fields` it starts
/// from: uniforms, input binds, output binds, dispatch, barrier.
pub open spec fn iter_commands(
    fields: Seq<FieldBuffer>,
    st: PipelineStage,
    frame: FrameState,
    t: int,
) -> Seq<Command> {
    uniforms_prefix(st.uniforms@, frame, t, st.uniforms@.len() as int) + read_binds_prefix(
        fields,
        st.inputs@,
        st.inputs@.len() as int,
    ) + write_binds_prefix(fields, st.outputs@, st.inputs@.len() as int, st.outputs@.len() as int)
        + seq![
        Command::Dispatch { x: st.groups_x, y: st.groups_y, z: st.groups_z },
        Command::Barrier,
    ]
}

/// The first `t` iterations of one stage, each against the pool state its
/// predecessors left behind.
pub open spec fn stage_iters_commands(
    fields: Seq<FieldBuffer>,
    st: PipelineStage,
    frame: FrameState,
    t: int,
) -> Seq<Command>
    decreases t,
{
    if t <= 0 {
        Seq::empty()
    } else {
        stage_iters_commands(fields, st, frame, t - 1) + iter_commands(
            stage_fields_after(fields, st, t - 1),
            st,
            frame,
            t - 1,
        )
    }
}

/// One whole stage: resolve its program once, then run every iteration.
pub open spec fn stage_commands(
    object: u32,
    fields: Seq<FieldBuffer>,
    st: PipelineStage,
    frame: FrameState,
) -> Seq<Command> {
    seq![Command::UseProgram { object }] + stage_iters_commands(
        fields,
        st,
        frame,
        st.iterations as int,
    )
}

/// The first `s` stages of the frame, in declaration order, each against
/// the cache's current programs and the pool state its predecessors left.
pub open spec fn frame_commands(
    cache: ShaderHotloader,
    fields: Seq<FieldBuffer>,
    stages: Seq<PipelineStage>,
    frame: FrameState,
    s: int,
) -> Seq<Command>
    decreases s,
{
    if s <= 0 {
        Seq::empty()
    } else {
        frame_commands(cache, fields, stages, frame, s - 1) + stage_commands(
            cache.program_at(stages[s - 1].program as int),
            frame_fields_after(fields, stages, s - 1),
            stages[s - 1],
            frame,
        )
    }
}

/// The terminal render pass: optional clear, the shading program, its
/// uniforms, the fields it samples at their final parity, the particle
/// buffer, the draw.
pub open spec fn render_commands(
    cache: ShaderHotloader,
    fields: Seq<FieldBuffer>,
    render: RenderPass,
    frame: FrameState,
) -> Seq<Command> {
    (if render.clear_each_frame {
        seq![Command::Clear]
    } else {
        Seq::empty()
    }) + seq![Command::UseProgram { object: cache.program_at(render.program as int) }]
        + uniforms_prefix(render.uniforms@, frame, 0, render.uniforms@.len() as int)
        + read_binds_prefix(fields, render.inputs@, render.inputs@.len() as int) + seq![
        Command::BindParticles { resource: render.particles.resource },
        Command::DrawPoints { count: render.particles.count },
    ]
}

/// Append the commands binding every declared uniform for iteration `t`.
fn emit_uniforms(plan: &mut Vec<Command>, us: &Vec<UniformKind>, frame: &FrameState, t: u32)
    ensures
        final(plan)@ == old(plan)@ + uniforms_prefix(us@, *frame, t as int, us@.len() as int),
{
    let n = us.len();
    let mut j: usize = 0;
    while j < n
        invariant
            n == us@.len(),
            0 <= j <= n,
            plan@ == old(plan)@ + uniforms_prefix(us@, *frame, t as int, j as int),
        decreases n - j,
    {
        let ghost base = plan@;
        match us[j] {
            UniformKind::TimeStep => {
                plan.push(Command::SetTimeStep { bits: effective_dt(frame.time_step) });
            },
            UniformKind::Elapsed => {
                plan.push(Command::SetElapsed { bits: frame.elapsed_bits });
            },
            UniformKind::ScreenSize => {
                plan.push(
                    Command::SetScreenSize {
                        width_bits: frame.screen_w_bits,
                        height_bits: frame.screen_h_bits,
                    },
                );
            },
            UniformKind::Pens => {
                let arr = frame.pen_array();
                let mut k: usize = 0;
                while k < MAX_PENS
                    invariant
                        arr@.len() == 4 * MAX_PENS,
                        forall|kk: int, c: int|
                            0 <= kk < MAX_PENS && 0 <= c < 4 ==> arr@[4 * kk + c]
                                == frame.pen_slot(kk, c),
                        0 <= k <= MAX_PENS,
                        plan@ == base + pen_commands(*frame, k as int),
                    decreases MAX_PENS - k,
                {
                    plan.push(
                        Command::SetPenSlot {
                            slot: k as u32,
                            x: arr[4 * k],
                            y: arr[4 * k + 1],
                            vx: arr[4 * k + 2],
                            vy: arr[4 * k + 3],
                        },
                    );
                    k += 1;
                }
            },
            UniformKind::Parity => {
                plan.push(Command::SetParity { value: t % 2 });
            },
        }
        proof {
            assert(plan@ =~= old(plan)@ + uniforms_prefix(us@, *frame, t as int, j + 1));
        }
        j += 1;
    }
}

/// Append the commands binding every input field for reading at its
/// current half.
fn emit_read_binds(plan: &mut Vec<Command>, pool: &SwapPool, inputs: &Vec<usize>)
    requires
        forall|k: int| 0 <= k < inputs@.len() ==> (#[trigger] inputs@[k]) < pool.fields@.len(),
        inputs@.len() <= u32::MAX,
    ensures
        final(plan)@ == old(plan)@ + read_binds_prefix(
            pool.fields@,
            inputs@,
            inputs@.len() as int,
        ),
{
    let n = inputs.len();
    let mut j: usize = 0;
    while j < n
        invariant
            n == inputs@.len(),
            0 <= j <= n,
            n <= u32::MAX,
            forall|k: int| 0 <= k < inputs@.len() ==> (#[trigger] inputs@[k]) < pool.fields@.len(),
            plan@ == old(plan)@ + read_binds_prefix(pool.fields@, inputs@, j as int),
        decreases n - j,
    {
        let r = pool.current(inputs[j]);
        plan.push(Command::BindRead { unit: j as u32, resource: r });
        proof {
            assert(plan@ =~= old(plan)@ + read_binds_prefix(pool.fields@, inputs@, j + 1));
        }
        j += 1;
    }
}

/// Append the commands binding every output field for writing at its next
/// half, at units following the inputs.
fn emit_write_binds(plan: &mut Vec<Command>, pool: &SwapPool, outputs: &Vec<usize>, base: usize)
    requires
        forall|k: int| 0 <= k < outputs@.len() ==> (#[trigger] outputs@[k]) < pool.fields@.len(),
        base + outputs@.len() <= u32::MAX,
    ensures
        final(plan)@ == old(plan)@ + write_binds_prefix(
            pool.fields@,
            outputs@,
            base as int,
            outputs@.len() as int,
        ),
{
    let n = outputs.len();
    let mut j: usize = 0;
    while j < n
        invariant
            n == outputs@.len(),
            0 <= j <= n,
            base + n <= u32::MAX,
            forall|k: int| 0 <= k < outputs@.len() ==> (#[trigger] outputs@[k])
                < pool.fields@.len(),
            plan@ == old(plan)@ + write_binds_prefix(pool.fields@, outputs@, base as int, j as int),
        decreases n - j,
    {
        let r = pool.next(outputs[j]);
        plan.push(Command::BindWrite { unit: (base + j) as u32, resource: r });
        proof {
            assert(plan@ =~= old(plan)@ + write_binds_prefix(
                pool.fields@,
                outputs@,
                base as int,
                j + 1,
            ));
        }
        j += 1;
    }
}

/// Flip every output field's parity once, in declaration order.
fn swap_outputs(pool: &mut SwapPool, outputs: &Vec<usize>)
    requires
        old(pool).wf(),
        forall|k: int| 0 <= k < outputs@.len() ==> (#[trigger] outputs@[k])
            < old(pool).fields@.len(),
    ensures
        final(pool).wf(),
        final(pool).fields@ == swap_prefix(old(pool).fields@, outputs@, outputs@.len() as int),
        final(pool).fields@.len() == old(pool).fields@.len(),
{
    let n = outputs.len();
    let mut j: usize = 0;
    while j < n
        invariant
            n == outputs@.len(),
            0 <= j <= n,
            pool.wf(),
            pool.fields@.len() == old(pool).fields@.len(),
            forall|k: int| 0 <= k < outputs@.len() ==> (#[trigger] outputs@[k])
                < old(pool).fields@.len(),
            pool.fields@ == swap_prefix(old(pool).fields@, outputs@, j as int),
        decreases n - j,
    {
        pool.swap(outputs[j]);
        j += 1;
    }
}

/// Sequence one whole frame.
///
/// Runs every stage in declaration order against the cache's current
/// programs and the pool's current parities, then the terminal render pass,
/// and returns the frame's exact command plan; the pool's parities advance
/// by one flip per completed write of each output field. The plan is equal,
/// command for command, to the declarative frame layout (`frame_commands`
/// followed by `render_commands`), so everything proved of that layout -
/// alias-free binding within each dispatch, the parity accounting of
/// `frame_fields_after` - holds of what the caller replays.
pub fn run_frame(
    cache: &ShaderHotloader,
    pool: &mut SwapPool,
    stages: &Vec<PipelineStage>,
    render: &RenderPass,
    frame: &FrameState,
) -> (plan: Vec<Command>)
    requires
        old(pool).wf(),
        forall|i: int|
            0 <= i < stages@.len() ==> stage_valid(
                #[trigger] stages@[i],
                cache.num_programs(),
                old(pool).fields@.len() as nat,
            ),
        render_valid(*render, cache.num_programs(), old(pool).fields@.len() as nat),
    ensures
        final(pool).wf(),
        final(pool).fields@ == frame_fields_after(
            old(pool).fields@,
            stages@,
            stages@.len() as int,
        ),
        plan@ == frame_commands(*cache, old(pool).fields@, stages@, *frame, stages@.len() as int)
            + render_commands(*cache, final(pool).fields@, *render, *frame),
{
    let ghost fields0 = pool.fields@;
    let mut plan: Vec<Command> = Vec::new();
    proof {
        assert(plan@ =~= frame_commands(*cache, fields0, stages@, *frame, 0));
    }
    let nstages = stages.len();
    let mut s: usize = 0;
    while s < nstages
        invariant
            nstages == stages@.len(),
            0 <= s <= nstages,
            pool.wf(),
            pool.fields@.len() == fields0.len(),
            fields0 == old(pool).fields@,
            forall|i: int|
                0 <= i < stages@.len() ==> stage_valid(
                    #[trigger] stages@[i],
                    cache.num_programs(),
                    fields0.len() as nat,
                ),
            pool.fields@ == frame_fields_after(fields0, stages@, s as int),
            plan@ == frame_commands(*cache, fields0, stages@, *frame, s as int),
        decreases nstages - s,
    {
        let st = &stages[s];
        let ghost fields_s = pool.fields@;
        let ghost plan_s = plan@;
        let object = cache.get_program(st.program);
        plan.push(Command::UseProgram { object });
        let iterations = st.iterations;
        let mut t: u32 = 0;
        while t < iterations
            invariant
                iterations == st.iterations,
                *st == stages@[s as int],
                0 <= s < stages@.len(),
                stage_valid(*st, cache.num_programs(), fields_s.len() as nat),
                0 <= t <= iterations,
                pool.wf(),
                pool.fields@.len() == fields_s.len(),
                pool.fields@ == stage_fields_after(fields_s, *st, t as int),
                plan@ == plan_s + seq![Command::UseProgram { object }]
                    + stage_iters_commands(fields_s, *st, *frame, t as int),
            decreases iterations - t,
        {
            let ghost fields_t = pool.fields@;
            let ghost plan_t = plan@;
            emit_uniforms(&mut plan, &st.uniforms, frame, t);
            emit_read_binds(&mut plan, pool, &st.inputs);
            emit_write_binds(&mut plan, pool, &st.outputs, st.inputs.len());
            plan.push(
                Command::Dispatch { x: st.groups_x, y: st.groups_y, z: st.groups_z },
            );
            plan.push(Command::Barrier);
            proof {
                assert(plan@ =~= plan_t + iter_commands(fields_t, *st, *frame, t as int));
                assert(plan@ =~= plan_s + seq![Command::UseProgram { object }]
                    + stage_iters_commands(fields_s, *st, *frame, t + 1));
            }
            swap_outputs(pool, &st.outputs);
            t += 1;
        }
        proof {
            assert(plan@ =~= frame_commands(*cache, fields0, stages@, *frame, s + 1));
        }
        s += 1;
    }
    let ghost fields_end = pool.fields@;
    let ghost plan_frame = plan@;
    if render.clear_each_frame {
        plan.push(Command::Clear);
    }
    let object = cache.get_program(render.program);
    plan.push(Command::UseProgram { object });
    emit_uniforms(&mut plan, &render.uniforms, frame, 0);
    emit_read_binds(&mut plan, pool, &render.inputs);
    plan.push(Command::BindParticles { resource: render.particles.resource });
    plan.push(Command::DrawPoints { count: render.particles.count });
    proof {
        assert(plan@ =~= plan_frame + render_commands(*cache, fields_end, *render, *frame));
    }
    plan
}

/// Parity correctness, stated at the frame boundary: for a field that
/// undergoes exactly `writes_to(stages, f, s)` write stages in a frame, the
/// post-frame `current` equals the pre-frame `next` exactly when that count
/// is odd, and equals the pre-frame `current` exactly when it is even.
pub proof fn lemma_frame_parity_correctness(
    fields: Seq<FieldBuffer>,
    stages: Seq<PipelineStage>,
    s: int,
    nprograms: nat,
    f: int,
)
    requires
        0 <= s <= stages.len(),
        0 <= f < fields.len(),
        forall|i: int|
            0 <= i < stages.len() ==> stage_valid(
                #[trigger] stages[i],
                nprograms,
                fields.len() as nat,
            ),
        pool_wf(fields),
    ensures
        ({
            let n = writes_to(stages, f, s);
            let after = frame_fields_after(fields, stages, s);
            &&& (after[f].current_id() == fields[f].next_id()) <==> n % 2 == 1
            &&& (after[f].current_id() == fields[f].current_id()) <==> n % 2 == 0
        }),
{
    lemma_frame_fields(fields, stages, s, nprograms);
    let after = frame_fields_after(fields, stages, s);
    crate::fields::lemma_parity_correctness(fields[f], after[f], writes_to(stages, f, s));
}

/// No read binding and write binding in `cmds` name the same physical
/// resource: what one dispatch group reads and what it writes never alias.
pub open spec fn alias_free(cmds: Seq<Command>) -> bool {
    forall|i: int, j: int|
        0 <= i < cmds.len() && 0 <= j < cmds.len() && (#[trigger] cmds[i]) is BindRead && (
        #[trigger] cmds[j]) is BindWrite ==> cmds[i]->BindRead_resource
            != cmds[j]->BindWrite_resource
}

/// Pen-slot commands bind nothing.
proof fn lemma_pen_commands_no_binds(frame: FrameState, k: int)
    ensures
        forall|i: int|
            0 <= i < pen_commands(frame, k).len() ==> !((#[trigger] pen_commands(frame, k)[i])
                is BindRead) && !(pen_commands(frame, k)[i] is BindWrite),
    decreases k,
{
    if k > 0 {
        lemma_pen_commands_no_binds(frame, k - 1);
    }
}

/// Uniform commands bind nothing.
proof fn lemma_uniforms_no_binds(us: Seq<UniformKind>, frame: FrameState, t: int, j: int)
    ensures
        forall|i: int|
            0 <= i < uniforms_prefix(us, frame, t, j).len() ==> !((
            #[trigger] uniforms_prefix(us, frame, t, j)[i]) is BindRead) && !(uniforms_prefix(
                us,
                frame,
                t,
                j,
            )[i] is BindWrite),
    decreases j,
{
    if j > 0 {
        lemma_uniforms_no_binds(us, frame, t, j - 1);
        if us[j - 1] is Pens {
            lemma_pen_commands_no_binds(frame, MAX_PENS as int);
        }
    }
}

/// What the read-bind commands are, element by element: the `i`-th binds
/// the current half of the `i`-th input field at unit `i`.
proof fn lemma_read_binds_elems(fields: Seq<FieldBuffer>, inputs: Seq<usize>, j: int)
    requires
        0 <= j <= inputs.len(),
    ensures
        read_binds_prefix(fields, inputs, j).len() == j,
        forall|i: int|
            0 <= i < j ==> (#[trigger] read_binds_prefix(fields, inputs, j)[i])
                == (Command::BindRead {
                unit: i as u32,
                resource: fields[inputs[i] as int].current_id(),
            }),
    decreases j,
{
    if j > 0 {
        lemma_read_binds_elems(fields, inputs, j - 1);
    }
}

/// What the write-bind commands are, element by element: the `i`-th binds
/// the next half of the `i`-th output field at unit `base + i`.
proof fn lemma_write_binds_elems(fields: Seq<FieldBuffer>, outputs: Seq<usize>, base: int, j: int)
    requires
        0 <= j <= outputs.len(),
    ensures
        write_binds_prefix(fields, outputs, base, j).len() == j,
        forall|i: int|
            0 <= i < j ==> (#[trigger] write_binds_prefix(fields, outputs, base, j)[i])
                == (Command::BindWrite {
                unit: (base + i) as u32,
                resource: fields[outputs[i] as int].next_id(),
            }),
    decreases j,
{
    if j > 0 {
        lemma_write_binds_elems(fields, outputs, base, j - 1);
    }
}

/// No aliasing within one dispatch: in the command group of any single
/// iteration of a valid stage over a well-formed pool, no resource bound
/// for reading is also bound for writing. Reads come from the current half
/// of input fields and writes from the next half of output fields: for one
/// and the same field the two halves differ, and across two fields the pool
/// keeps all four halves pairwise distinct.
pub proof fn lemma_dispatch_no_aliasing(
    fields: Seq<FieldBuffer>,
    st: PipelineStage,
    frame: FrameState,
    t: int,
    nprograms: nat,
)
    requires
        pool_wf(fields),
        stage_valid(st, nprograms, fields.len() as nat),
    ensures
        alias_free(iter_commands(fields, st, frame, t)),
{
    let cmds = iter_commands(fields, st, frame, t);
    let us = uniforms_prefix(st.uniforms@, frame, t, st.uniforms@.len() as int);
    let rb = read_binds_prefix(fields, st.inputs@, st.inputs@.len() as int);
    let wb = write_binds_prefix(
        fields,
        st.outputs@,
        st.inputs@.len() as int,
        st.outputs@.len() as int,
    );
    lemma_uniforms_no_binds(st.uniforms@, frame, t, st.uniforms@.len() as int);
    lemma_read_binds_elems(fields, st.inputs@, st.inputs@.len() as int);
    lemma_write_binds_elems(
        fields,
        st.outputs@,
        st.inputs@.len() as int,
        st.outputs@.len() as int,
    );
    assert forall|i: int, j: int|
        0 <= i < cmds.len() && 0 <= j < cmds.len() && (#[trigger] cmds[i]) is BindRead && (
        #[trigger] cmds[j]) is BindWrite implies cmds[i]->BindRead_resource
        != cmds[j]->BindWrite_resource by {
        // A read bind can only come from the read segment, a write bind
        // only from the write segment.
        let ri = i - us.len() as int;
        let wj = j - us.len() - rb.len();
        assert(cmds[i] == rb[ri]);
        assert(cmds[j] == wb[wj]);
        let fi = st.inputs@[ri] as int;
        let fo = st.outputs@[wj] as int;
        if fi == fo {
            assert(fields[fi].wf());
        } else {
            assert(fields[fi].front != fields[fo].front && fields[fi].front != fields[fo].back
                && fields[fi].back != fields[fo].front && fields[fi].back != fields[fo].back);
        }
    }
}

/// No aliasing anywhere in a frame: every dispatch of every iteration of
/// every stage that `run_frame` sequences is alias-free, since the pool is
/// well formed at every intermediate state a dispatch binds against.
pub proof fn lemma_frame_no_aliasing(
    fields: Seq<FieldBuffer>,
    stages: Seq<PipelineStage>,
    frame: FrameState,
    nprograms: nat,
)
    requires
        pool_wf(fields),
        forall|i: int|
            0 <= i < stages.len() ==> stage_valid(
                #[trigger] stages[i],
                nprograms,
                fields.len() as nat,
            ),
    ensures
        forall|s: int, t: int|
            0 <= s < stages.len() && 0 <= t ==> alias_free(
                iter_commands(
                    stage_fields_after(frame_fields_after(fields, stages, s), stages[s], t),
                    stages[s],
                    frame,
                    t,
                ),
            ),
{
    assert forall|s: int, t: int| 0 <= s < stages.len() && 0 <= t implies alias_free(
        iter_commands(
            stage_fields_after(frame_fields_after(fields, stages, s), stages[s], t),
            stages[s],
            frame,
            t,
        ),
    ) by {
        lemma_frame_fields(fields, stages, s, nprograms);
        let mid = frame_fields_after(fields, stages, s);
        lemma_stage_fields(mid, stages[s], t, nprograms);
        let at = stage_fields_after(mid, stages[s], t);
        lemma_dispatch_no_aliasing(at, stages[s], frame, t, nprograms);
    }
}

} // verus!
