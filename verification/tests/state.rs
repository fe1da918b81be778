use hotload_pipeline::debounce::Debouncer;
use hotload_pipeline::frame::{
    effective_dt, FrameState, Pen, TimeStep, INITIAL_DT_BITS, MAX_PENS, PAUSED_DT_BITS,
};

#[test]
fn debouncer_coalesces_duplicate_notifications() {
    let mut d = Debouncer::new();
    d.note("src/kernels/jacobi.comp".to_string());
    d.note("src/kernels/jacobi.comp".to_string());
    d.note("src/kernels/advect.comp".to_string());
    d.note("src/kernels/jacobi.comp".to_string());
    let drained = d.drain();
    assert_eq!(
        drained,
        vec!["src/kernels/jacobi.comp".to_string(), "src/kernels/advect.comp".to_string()]
    );
}

#[test]
fn debouncer_drains_to_empty_without_blocking() {
    let mut d = Debouncer::new();
    assert!(d.drain().is_empty());
    d.note("src/kernels/draw.comp".to_string());
    assert_eq!(d.drain().len(), 1);
    assert!(d.drain().is_empty());
}

#[test]
fn empty_pen_map_yields_uniform_zero_array() {
    // Zero active pens: the padded array has the fixed maximum length and
    // holds only zeros.
    let state = FrameState::new();
    let arr = state.pen_array();
    assert_eq!(arr.len(), 4 * MAX_PENS);
    assert!(arr.iter().all(|&v| v == 0));
}

#[test]
fn pen_array_pads_beyond_active_count() {
    let mut state = FrameState::new();
    state.set_pen(Pen { id: 9, x: 5, y: 6, vx: 7, vy: 8 });
    state.set_pen(Pen { id: 2, x: 1, y: 2, vx: 3, vy: 4 });
    let arr = state.pen_array();
    assert_eq!(arr.len(), 4 * MAX_PENS);
    // Pens are slotted in id order: id 2 first, id 9 second.
    assert_eq!(&arr[0..4], &[1, 2, 3, 4]);
    assert_eq!(&arr[4..8], &[5, 6, 7, 8]);
    assert!(arr[8..].iter().all(|&v| v == 0));
}

#[test]
fn pen_array_keeps_lowest_ids_when_overfull() {
    // With more contacts than slots, the fixed-size array carries the pens
    // with the lowest ids; the rest wait their turn.
    let mut state = FrameState::new();
    for id in 0..(MAX_PENS as u64 + 2) {
        state.set_pen(Pen { id, x: 100 + id as u32, y: 0, vx: 0, vy: 0 });
    }
    let arr = state.pen_array();
    assert_eq!(arr.len(), 4 * MAX_PENS);
    for k in 0..MAX_PENS {
        assert_eq!(arr[4 * k], 100 + k as u32);
    }
}

#[test]
fn set_pen_overwrites_same_id() {
    let mut state = FrameState::new();
    state.set_pen(Pen { id: 0, x: 1, y: 1, vx: 0, vy: 0 });
    state.set_pen(Pen { id: 0, x: 2, y: 3, vx: 1, vy: 2 });
    assert_eq!(state.pen_count(), 1);
    let p = state.get_pen(0).unwrap();
    assert_eq!((p.x, p.y, p.vx, p.vy), (2, 3, 1, 2));
}

#[test]
fn remove_pen_forgets_only_that_contact() {
    let mut state = FrameState::new();
    state.set_pen(Pen { id: 0, x: 1, y: 1, vx: 0, vy: 0 });
    state.set_pen(Pen { id: 4, x: 9, y: 9, vx: 0, vy: 0 });
    state.remove_pen(0);
    assert!(state.get_pen(0).is_none());
    assert_eq!(state.get_pen(4).unwrap().x, 9);
    assert_eq!(state.pen_count(), 1);
    // Removing an absent contact is a no-op.
    state.remove_pen(17);
    assert_eq!(state.pen_count(), 1);
}

#[test]
fn paused_time_step_substitutes_sentinel() {
    assert_eq!(effective_dt(TimeStep::Paused), PAUSED_DT_BITS);
    assert_eq!(effective_dt(TimeStep::Running(0x3DCCCCCD)), 0x3DCCCCCD);
    // The sentinel is the bit pattern of a very large float.
    assert_eq!(f32::from_bits(PAUSED_DT_BITS), 9999.0);
    assert_eq!(f32::from_bits(INITIAL_DT_BITS), 0.1);
}

#[test]
fn one_shot_pause_resumes_after_frame() {
    let mut state = FrameState::new();
    state.time_step = TimeStep::Paused;
    state.end_frame();
    assert_eq!(state.time_step, TimeStep::Running(INITIAL_DT_BITS));
    // A running time step passes through end_frame unchanged.
    state.time_step = TimeStep::Running(42);
    state.end_frame();
    assert_eq!(state.time_step, TimeStep::Running(42));
}

#[test]
fn persistent_pause_outlasts_frames() {
    let mut state = FrameState::new();
    state.persistent_pause = true;
    state.time_step = TimeStep::Paused;
    state.end_frame();
    state.end_frame();
    assert_eq!(state.time_step, TimeStep::Paused);
}
