use hotload_pipeline::compiler::{
    create_program, BuildError, LinkOutcome, SourceUnit, StageKind, UnitOutcome,
};
use hotload_pipeline::hotloader::ShaderHotloader;

fn unit(stage: StageKind, path: &str) -> SourceUnit {
    SourceUnit { stage, path: path.to_string() }
}

fn ok_outcome() -> UnitOutcome {
    UnitOutcome { compiled: true, log: String::new() }
}

fn failed_outcome(log: &str) -> UnitOutcome {
    UnitOutcome { compiled: false, log: log.to_string() }
}

fn linked() -> LinkOutcome {
    LinkOutcome { linked: true, log: String::new() }
}

#[test]
fn build_succeeds_when_all_units_compile_and_link() {
    let spec = vec![
        unit(StageKind::Vertex, "src/shaders/particles.vert"),
        unit(StageKind::Fragment, "src/shaders/particles.frag"),
    ];
    let outcomes = vec![ok_outcome(), ok_outcome()];
    let r = create_program(7, &spec, &outcomes, &linked());
    assert_eq!(r.unwrap(), 7);
}

#[test]
fn build_reports_first_failing_unit() {
    let spec = vec![
        unit(StageKind::Vertex, "src/shaders/particles.vert"),
        unit(StageKind::Fragment, "src/shaders/particles.frag"),
        unit(StageKind::Compute, "src/kernels/jacobi.comp"),
    ];
    let outcomes = vec![
        ok_outcome(),
        failed_outcome("0:12: syntax error"),
        failed_outcome("0:1: unexpected token"),
    ];
    let r = create_program(7, &spec, &outcomes, &linked());
    match r {
        Err(BuildError::Compile { unit, message }) => {
            assert_eq!(unit, "src/shaders/particles.frag");
            assert_eq!(message, "0:12: syntax error");
        }
        other => panic!("expected a compile error, got {:?}", other),
    }
}

#[test]
fn build_reports_link_failure_after_units_compile() {
    let spec = vec![unit(StageKind::Compute, "src/kernels/advect.comp")];
    let outcomes = vec![ok_outcome()];
    let link = LinkOutcome { linked: false, log: "unresolved symbol main".to_string() };
    let r = create_program(3, &spec, &outcomes, &link);
    match r {
        Err(BuildError::Link { message }) => assert_eq!(message, "unresolved symbol main"),
        other => panic!("expected a link error, got {:?}", other),
    }
}

#[test]
fn registration_failure_produces_no_handle() {
    // A program whose single compute unit has a syntax error must not be
    // registered: the cache stays empty and no handle exists.
    let spec = vec![unit(StageKind::Compute, "src/kernels/jacobi.comp")];
    let outcomes = vec![failed_outcome("0:3: '}' expected")];
    let build = create_program(1, &spec, &outcomes, &linked());
    assert!(build.is_err());

    let mut cache = ShaderHotloader::new();
    let r = cache.add_program(spec, build);
    assert!(r.is_err());
    assert_eq!(cache.program_count(), 0);
}

#[test]
fn registration_assigns_sequential_handles() {
    let mut cache = ShaderHotloader::new();
    let h0 = cache
        .add_program(vec![unit(StageKind::Compute, "src/kernels/jacobi.comp")], Ok(10))
        .unwrap();
    let h1 = cache
        .add_program(vec![unit(StageKind::Compute, "src/kernels/advect.comp")], Ok(11))
        .unwrap();
    assert_eq!(h0, 0);
    assert_eq!(h1, 1);
    assert_eq!(cache.program_count(), 2);
    assert_eq!(cache.get_program(h0), 10);
    assert_eq!(cache.get_program(h1), 11);
}

#[test]
fn update_maps_changed_paths_to_owning_handles() {
    let mut cache = ShaderHotloader::new();
    let h0 = cache
        .add_program(vec![unit(StageKind::Compute, "src/kernels/jacobi.comp")], Ok(10))
        .unwrap();
    let h1 = cache
        .add_program(
            vec![
                unit(StageKind::Vertex, "src/shaders/particles.vert"),
                unit(StageKind::Fragment, "src/shaders/particles.frag"),
            ],
            Ok(11),
        )
        .unwrap();

    let stale = cache.update(&vec!["src/shaders/particles.frag".to_string()]);
    assert_eq!(stale, vec![h1]);

    let stale = cache.update(&vec![
        "src/kernels/jacobi.comp".to_string(),
        "src/shaders/particles.vert".to_string(),
    ]);
    assert_eq!(stale.len(), 2);
    assert!(stale.contains(&h0));
    assert!(stale.contains(&h1));
}

#[test]
fn update_ignores_unowned_paths() {
    let mut cache = ShaderHotloader::new();
    cache
        .add_program(vec![unit(StageKind::Compute, "src/kernels/jacobi.comp")], Ok(10))
        .unwrap();
    let stale = cache.update(&vec!["README.md".to_string()]);
    assert!(stale.is_empty());
}

#[test]
fn duplicate_notifications_yield_one_rebuild_request() {
    // Two changed paths of the same program, and one of them repeated,
    // still name the owning handle exactly once.
    let mut cache = ShaderHotloader::new();
    let h = cache
        .add_program(
            vec![
                unit(StageKind::Vertex, "src/shaders/particles.vert"),
                unit(StageKind::Fragment, "src/shaders/particles.frag"),
            ],
            Ok(5),
        )
        .unwrap();
    let stale = cache.update(&vec![
        "src/shaders/particles.vert".to_string(),
        "src/shaders/particles.vert".to_string(),
        "src/shaders/particles.frag".to_string(),
    ]);
    assert_eq!(stale, vec![h]);
}

#[test]
fn failed_reload_keeps_prior_program() {
    // Availability over freshness: after a failed rebuild the handle still
    // resolves to the previously working object.
    let mut cache = ShaderHotloader::new();
    let spec = vec![unit(StageKind::Compute, "src/kernels/jacobi.comp")];
    let h = cache.add_program(spec.clone(), Ok(10)).unwrap();

    let stale = cache.update(&vec!["src/kernels/jacobi.comp".to_string()]);
    assert_eq!(stale, vec![h]);

    let outcomes = vec![failed_outcome("0:7: undeclared identifier")];
    let build = create_program(99, &spec, &outcomes, &linked());
    let diagnostic = cache.apply_reload(h, build);
    assert!(diagnostic.is_err());
    assert_eq!(cache.get_program(h), 10);
    assert_eq!(cache.program_count(), 1);
}

#[test]
fn successful_reload_swaps_object_and_keeps_handle() {
    let mut cache = ShaderHotloader::new();
    let h = cache
        .add_program(vec![unit(StageKind::Compute, "src/kernels/jacobi.comp")], Ok(10))
        .unwrap();
    let other = cache
        .add_program(vec![unit(StageKind::Compute, "src/kernels/advect.comp")], Ok(20))
        .unwrap();

    cache.apply_reload(h, Ok(33)).unwrap();
    assert_eq!(cache.get_program(h), 33);
    // The untouched program and both handles are exactly as before.
    assert_eq!(cache.get_program(other), 20);
    assert_eq!(cache.program_count(), 2);
}

#[test]
fn get_spec_returns_registered_units() {
    let mut cache = ShaderHotloader::new();
    let spec = vec![
        unit(StageKind::Vertex, "src/shaders/particles.vert"),
        unit(StageKind::Fragment, "src/shaders/particles.frag"),
    ];
    let h = cache.add_program(spec, Ok(1)).unwrap();
    let stored = cache.get_spec(h);
    assert_eq!(stored.len(), 2);
    assert_eq!(stored[0].path, "src/shaders/particles.vert");
    assert_eq!(stored[1].path, "src/shaders/particles.frag");
}
