use hotload_pipeline::fields::{FieldBuffer, SwapPool};
use hotload_pipeline::frame::FrameState;
use hotload_pipeline::hotloader::ShaderHotloader;
use hotload_pipeline::sequencer::{
    run_frame, Command, ParticleBuffer, PipelineStage, RenderPass, UniformKind,
};
use hotload_pipeline::compiler::{SourceUnit, StageKind};

fn compute_cache(objects: &[u32]) -> ShaderHotloader {
    let mut cache = ShaderHotloader::new();
    for (i, &obj) in objects.iter().enumerate() {
        let spec = vec![SourceUnit {
            stage: StageKind::Compute,
            path: format!("src/kernels/stage{}.comp", i),
        }];
        cache.add_program(spec, Ok(obj)).unwrap();
    }
    cache
}

fn stage(program: usize, inputs: &[usize], outputs: &[usize], iterations: u32) -> PipelineStage {
    PipelineStage {
        program,
        inputs: inputs.to_vec(),
        outputs: outputs.to_vec(),
        uniforms: vec![],
        groups_x: 13,
        groups_y: 8,
        groups_z: 1,
        iterations,
    }
}

fn plain_render(program: usize) -> RenderPass {
    RenderPass {
        program,
        inputs: vec![],
        uniforms: vec![],
        particles: ParticleBuffer { resource: 100, count: 300_000 },
        clear_each_frame: true,
    }
}

#[test]
fn field_current_and_next_never_alias() {
    let mut f = FieldBuffer::new(1, 2);
    for _ in 0..7 {
        assert_ne!(f.current(), f.next());
        f.swap();
    }
}

#[test]
fn swap_exchanges_roles_without_moving_resources() {
    let mut f = FieldBuffer::new(1, 2);
    assert_eq!(f.current(), 1);
    assert_eq!(f.next(), 2);
    f.swap();
    assert_eq!(f.current(), 2);
    assert_eq!(f.next(), 1);
    f.swap();
    assert_eq!(f.current(), 1);
    assert_eq!(f.next(), 2);
}

#[test]
fn parity_after_n_swaps_depends_on_parity_of_n() {
    // After an even number of write stages the readable half is the
    // pre-frame one; after an odd number it is the pre-frame writable half.
    for n in 0..10 {
        let mut f = FieldBuffer::new(1, 2);
        let before_current = f.current();
        let before_next = f.next();
        for _ in 0..n {
            f.swap();
        }
        if n % 2 == 0 {
            assert_eq!(f.current(), before_current);
        } else {
            assert_eq!(f.current(), before_next);
        }
    }
}

#[test]
fn pool_hands_out_distinct_pairs() {
    let mut pool = SwapPool::new();
    let u = pool.allocate(1, 2);
    let v = pool.allocate(3, 4);
    assert_eq!(pool.len(), 2);
    assert_eq!(pool.current(u), 1);
    assert_eq!(pool.next(u), 2);
    assert_eq!(pool.current(v), 3);
    pool.swap(u);
    assert_eq!(pool.current(u), 2);
    assert_eq!(pool.current(v), 3);
}

#[test]
fn iterative_stage_with_even_count_preserves_parity() {
    // A relaxation stage configured for 40 iterations over a field leaves
    // the field's parity exactly as it was before the frame.
    let cache = compute_cache(&[10, 11]);
    let mut pool = SwapPool::new();
    let f = pool.allocate(1, 2);
    let before_current = pool.current(f);

    let stages = vec![stage(0, &[], &[f], 40)];
    let render = plain_render(1);
    let frame = FrameState::new();
    run_frame(&cache, &mut pool, &stages, &render, &frame);
    assert_eq!(pool.current(f), before_current);
}

#[test]
fn odd_write_count_flips_parity() {
    let cache = compute_cache(&[10, 11]);
    let mut pool = SwapPool::new();
    let f = pool.allocate(1, 2);
    let before_next = pool.next(f);

    let stages = vec![stage(0, &[f], &[f], 3)];
    let render = plain_render(1);
    let frame = FrameState::new();
    run_frame(&cache, &mut pool, &stages, &render, &frame);
    assert_eq!(pool.current(f), before_next);
}

#[test]
fn write_counts_accumulate_across_stages() {
    // Three iterations in one stage and two in another make five writes:
    // an odd total, so the frame ends with the field flipped.
    let cache = compute_cache(&[10, 11, 12]);
    let mut pool = SwapPool::new();
    let f = pool.allocate(1, 2);
    let before_current = pool.current(f);
    let before_next = pool.next(f);

    let stages = vec![stage(0, &[], &[f], 3), stage(1, &[f], &[f], 2)];
    let render = plain_render(2);
    let frame = FrameState::new();
    run_frame(&cache, &mut pool, &stages, &render, &frame);
    assert_eq!(pool.current(f), before_next);
    assert_eq!(pool.next(f), before_current);
}

#[test]
fn single_stage_plan_layout() {
    let cache = compute_cache(&[10, 11]);
    let mut pool = SwapPool::new();
    let f = pool.allocate(1, 2);
    let g = pool.allocate(3, 4);

    let mut st = stage(0, &[f], &[g], 1);
    st.uniforms = vec![UniformKind::TimeStep];
    let stages = vec![st];
    let render = plain_render(1);
    let frame = FrameState::new();
    let plan = run_frame(&cache, &mut pool, &stages, &render, &frame);

    let expected_prefix = vec![
        Command::UseProgram { object: 10 },
        Command::SetTimeStep { bits: 0x3DCCCCCD },
        Command::BindRead { unit: 0, resource: 1 },
        Command::BindWrite { unit: 1, resource: 4 },
        Command::Dispatch { x: 13, y: 8, z: 1 },
        Command::Barrier,
        // The terminal render pass.
        Command::Clear,
        Command::UseProgram { object: 11 },
        Command::BindParticles { resource: 100 },
        Command::DrawPoints { count: 300_000 },
    ];
    assert_eq!(plan, expected_prefix);
    // The written field swapped once; the read-only field did not.
    assert_eq!(pool.current(g), 4);
    assert_eq!(pool.current(f), 1);
}

#[test]
fn parity_uniform_toggles_each_iteration() {
    let cache = compute_cache(&[10, 11]);
    let mut pool = SwapPool::new();
    let f = pool.allocate(1, 2);

    let mut st = stage(0, &[], &[f], 4);
    st.uniforms = vec![UniformKind::Parity];
    let stages = vec![st];
    let render = plain_render(1);
    let frame = FrameState::new();
    let plan = run_frame(&cache, &mut pool, &stages, &render, &frame);

    let parities: Vec<u32> = plan
        .iter()
        .filter_map(|c| match c {
            Command::SetParity { value } => Some(*value),
            _ => None,
        })
        .collect();
    assert_eq!(parities, vec![0, 1, 0, 1]);
}

#[test]
fn reads_and_writes_never_alias_within_a_dispatch() {
    // Scan every dispatch group of a frame that reads and writes the same
    // fields repeatedly: no resource bound for reading is bound for writing.
    let cache = compute_cache(&[10, 11, 12]);
    let mut pool = SwapPool::new();
    let u = pool.allocate(1, 2);
    let v = pool.allocate(3, 4);

    let stages = vec![
        stage(0, &[u, v], &[u, v], 40),
        stage(1, &[u, v], &[u, v], 1),
        stage(2, &[u], &[v], 1),
    ];
    let render = plain_render(2);
    let frame = FrameState::new();
    let plan = run_frame(&cache, &mut pool, &stages, &render, &frame);

    let mut reads: Vec<u32> = vec![];
    let mut writes: Vec<u32> = vec![];
    for c in &plan {
        match c {
            Command::BindRead { resource, .. } => reads.push(*resource),
            Command::BindWrite { resource, .. } => writes.push(*resource),
            Command::Dispatch { .. } => {
                for r in &reads {
                    assert!(!writes.contains(r));
                }
                reads.clear();
                writes.clear();
            }
            _ => {}
        }
    }
}

#[test]
fn swapped_in_program_is_used_next_frame() {
    // Register a valid program, dispatch one frame, break and fail a
    // reload, and the next frame still dispatches with the prior object;
    // after a successful reload the fresh object appears under the same
    // handle.
    let mut cache = ShaderHotloader::new();
    let spec = vec![SourceUnit {
        stage: StageKind::Compute,
        path: "src/kernels/jacobi.comp".to_string(),
    }];
    let h = cache.add_program(spec, Ok(10)).unwrap();
    let render_spec = vec![SourceUnit {
        stage: StageKind::Vertex,
        path: "src/shaders/particles.vert".to_string(),
    }];
    let rh = cache.add_program(render_spec, Ok(11)).unwrap();

    let mut pool = SwapPool::new();
    let f = pool.allocate(1, 2);
    let stages = vec![stage(h, &[], &[f], 2)];
    let render = plain_render(rh);
    let frame = FrameState::new();

    let plan = run_frame(&cache, &mut pool, &stages, &render, &frame);
    assert!(plan.contains(&Command::UseProgram { object: 10 }));

    // The failed reload leaves the dispatched object unchanged.
    let stale = cache.update(&vec!["src/kernels/jacobi.comp".to_string()]);
    assert_eq!(stale, vec![h]);
    assert!(cache
        .apply_reload(
            h,
            Err(hotload_pipeline::compiler::BuildError::Compile {
                unit: "src/kernels/jacobi.comp".to_string(),
                message: "0:2: syntax error".to_string(),
            }),
        )
        .is_err());
    let plan = run_frame(&cache, &mut pool, &stages, &render, &frame);
    assert!(plan.contains(&Command::UseProgram { object: 10 }));

    // A successful reload swaps the object under the same handle.
    cache.apply_reload(h, Ok(77)).unwrap();
    let plan = run_frame(&cache, &mut pool, &stages, &render, &frame);
    assert!(plan.contains(&Command::UseProgram { object: 77 }));
    assert!(!plan.contains(&Command::UseProgram { object: 10 }));
}

#[test]
fn render_inputs_bind_current_halves() {
    let cache = compute_cache(&[10, 11]);
    let mut pool = SwapPool::new();
    let u = pool.allocate(1, 2);

    // One write pass flips u, so the render pass samples the fresh half.
    let stages = vec![stage(0, &[], &[u], 1)];
    let mut render = plain_render(1);
    render.inputs = vec![u];
    render.clear_each_frame = false;
    let frame = FrameState::new();
    let plan = run_frame(&cache, &mut pool, &stages, &render, &frame);

    assert!(!plan.contains(&Command::Clear));
    let tail: Vec<&Command> = plan
        .iter()
        .skip_while(|c| !matches!(c, Command::UseProgram { object: 11 }))
        .collect();
    assert_eq!(tail[1], &Command::BindRead { unit: 0, resource: 2 });
    assert_eq!(tail[2], &Command::BindParticles { resource: 100 });
    assert_eq!(tail[3], &Command::DrawPoints { count: 300_000 });
}
