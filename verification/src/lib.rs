//! Orchestration runtime for a hot-reloading, multi-stage GPU compute
//! pipeline: a program cache with stable handles, a change-event debouncer,
//! a double-buffered resource swap pool, and a per-frame sequencer that
//! emits a command plan free of read/write aliasing.
//!
//! GPU resources and compiled program objects appear here as plain integer
//! names; the windowing, file-watching and GPU layers live outside the
//! library and exchange plain values with it.

pub mod compiler;
pub mod debounce;
pub mod fields;
pub mod frame;
pub mod hotloader;
pub mod sequencer;
