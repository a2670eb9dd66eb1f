use render_graph::error::CompileError;
use render_graph::layout::{
    resolve_set_layouts, DescriptorInfo, LayoutMismatch, SetLayout, SetOverride,
};
use render_graph::pipeline_cache::{
    CompileOutcome, CompiledShader, ComputePipelineDesc, PipelineBindPoint, PipelineCache,
    RasterPipelineDesc, RasterPipelineShader, RasterStage, ShaderFailure, ShaderStage,
};

fn info(ty: u32) -> DescriptorInfo {
    DescriptorInfo { ty, is_bindless: false, stages: 0x20 }
}

fn layout(bindings: &[(u32, u32)]) -> SetLayout {
    let mut layout = SetLayout::new();
    for (binding, ty) in bindings {
        layout.insert(*binding, info(*ty));
    }
    layout
}

fn plain() -> ComputePipelineDesc {
    ComputePipelineDesc { descriptor_set_opts: vec![] }
}

fn compiled(pipeline: u64, sets: Vec<SetLayout>) -> CompileOutcome {
    let count = sets.len() as u64;
    CompileOutcome::Compiled(CompiledShader {
        pipeline,
        pipeline_layout: pipeline + 100,
        reflected_sets: sets,
        descriptor_pool_sizes: vec![],
        descriptor_set_layouts: (0..count).collect(),
    })
}

#[test]
fn registering_twice_gives_the_same_handle() {
    let mut cache = PipelineCache::new();
    let a = cache.register_compute("/shaders/a.hlsl", &plain());
    let b = cache.register_compute("/shaders/b.hlsl", &plain());
    let again = cache.register_compute("/shaders/a.hlsl", &plain());
    assert_eq!(a.0, 0);
    assert_eq!(b.0, 1);
    assert_eq!(again, a);
    assert_eq!(cache.len(), 2);
}

#[test]
fn configuration_is_part_of_the_key() {
    let mut cache = PipelineCache::new();
    let a = cache.register_compute("/shaders/a.hlsl", &plain());
    let with_override = ComputePipelineDesc {
        descriptor_set_opts: vec![SetOverride { set_index: 2, layout: layout(&[(0, 6)]) }],
    };
    let b = cache.register_compute("/shaders/a.hlsl", &with_override);
    assert_ne!(a, b);
    let shaders = [
        RasterPipelineShader { code: "/shaders/vs.hlsl".to_string(), stage: RasterStage::Vertex },
        RasterPipelineShader { code: "/shaders/ps.hlsl".to_string(), stage: RasterStage::Pixel },
    ];
    let desc = RasterPipelineDesc { render_pass: 9, face_cull: true, descriptor_set_opts: vec![] };
    let r = cache.register_raster(&shaders, &desc);
    let culled_off =
        RasterPipelineDesc { render_pass: 9, face_cull: false, descriptor_set_opts: vec![] };
    let r2 = cache.register_raster(&shaders, &culled_off);
    assert_ne!(r, r2);
    assert_eq!(cache.register_raster(&shaders, &desc), r);
    assert_eq!(cache.len(), 4);
    assert_eq!(cache.key(r.0).unwrap().bind_point, PipelineBindPoint::Graphics);
    assert_eq!(cache.key(r.0).unwrap().shaders[1].stage, ShaderStage::Pixel);
}

#[test]
fn get_returns_the_identical_pipeline_without_recompiling() {
    let mut cache = PipelineCache::new();
    let handle = cache.register_compute("/shaders/a.hlsl", &plain());
    assert!(cache.get_compute(handle).is_none());
    assert_eq!(cache.pending(), vec![0]);
    assert!(!cache.is_ready());
    cache.prepare_frame(vec![compiled(42, vec![layout(&[(0, 3)])])]).unwrap();
    assert!(cache.is_ready());
    assert_eq!(cache.pending(), Vec::<usize>::new());
    let first = cache.get_compute(handle).unwrap();
    let second = cache.get_compute(handle).unwrap();
    assert!(std::ptr::eq(first, second));
    let pipeline = cache.get_compute(handle).unwrap();
    assert_eq!(pipeline.pipeline, 42);
    assert_eq!(pipeline.pipeline_layout, 142);
    assert_eq!(pipeline.pipeline_bind_point, PipelineBindPoint::Compute);
    assert_eq!(pipeline.set_layout_info.len(), 1);
    assert!(pipeline.set_layout_info[0].contains_key(0));
    // registering again does not bring the pipeline back to pending
    assert_eq!(cache.register_compute("/shaders/a.hlsl", &plain()), handle);
    assert!(cache.is_ready());
    // nothing is pending, so an outcome that comes anyway is not installed
    cache.prepare_frame(vec![compiled(43, vec![])]).unwrap();
    assert_eq!(cache.get_compute(handle).unwrap().pipeline, 42);
}

#[test]
fn shader_failure_names_pipeline_and_stage() {
    let mut cache = PipelineCache::new();
    let a = cache.register_compute("/shaders/a.hlsl", &plain());
    let b = cache.register_compute("/shaders/b.hlsl", &plain());
    let c = cache.register_compute("/shaders/c.hlsl", &plain());
    let result = cache.prepare_frame(vec![
        compiled(1, vec![]),
        CompileOutcome::Failed(ShaderFailure {
            stage: ShaderStage::Compute,
            reason: "syntax error".to_string(),
        }),
        compiled(3, vec![]),
    ]);
    match result {
        Err(CompileError::ShaderCompileError { pipeline, stage, reason }) => {
            assert_eq!(pipeline, b.0);
            assert_eq!(stage, ShaderStage::Compute);
            assert_eq!(reason, "syntax error");
        }
        other => panic!("unexpected {:?}", other),
    }
    assert!(cache.get_compute(a).is_some());
    assert!(cache.get_compute(b).is_none());
    assert!(cache.get_compute(c).is_none());
    assert_eq!(cache.pending(), vec![1, 2]);
}

#[test]
fn override_replaces_the_reflected_set() {
    let mut cache = PipelineCache::new();
    let desc = ComputePipelineDesc {
        descriptor_set_opts: vec![SetOverride { set_index: 1, layout: layout(&[(0, 8), (1, 3)]) }],
    };
    let handle = cache.register_compute("/shaders/a.hlsl", &desc);
    cache
        .prepare_frame(vec![compiled(5, vec![layout(&[(0, 3)]), layout(&[(0, 8)])])])
        .unwrap();
    let pipeline = cache.get_compute(handle).unwrap();
    assert_eq!(pipeline.set_layout_info[0].bindings, layout(&[(0, 3)]).bindings);
    assert_eq!(pipeline.set_layout_info[1].bindings, layout(&[(0, 8), (1, 3)]).bindings);
}

#[test]
fn reflection_mismatch_names_set_and_binding() {
    let mut cache = PipelineCache::new();
    let desc = ComputePipelineDesc {
        descriptor_set_opts: vec![SetOverride { set_index: 1, layout: layout(&[(0, 6)]) }],
    };
    let handle = cache.register_compute("/shaders/a.hlsl", &desc);
    // the shader wants binding 3 of set 1, which the declared layout lacks
    let result =
        cache.prepare_frame(vec![compiled(5, vec![layout(&[]), layout(&[(0, 6), (3, 7)])])]);
    match result {
        Err(CompileError::ReflectionMismatchError { pipeline, set_index, binding }) => {
            assert_eq!(pipeline, handle.0);
            assert_eq!(set_index, 1);
            assert_eq!(binding, 3);
        }
        other => panic!("unexpected {:?}", other),
    }
    assert!(cache.get_compute(handle).is_none());
}

#[test]
fn same_binding_of_another_type_is_a_mismatch() {
    let reflected = vec![layout(&[(0, 3)])];
    let overrides = vec![SetOverride { set_index: 0, layout: layout(&[(0, 2)]) }];
    assert_eq!(
        resolve_set_layouts(&reflected, &overrides).unwrap_err(),
        LayoutMismatch { set_index: 0, binding: 0 }
    );
}

#[test]
fn override_for_a_set_the_shader_lacks_is_passed_over() {
    let reflected = vec![layout(&[(0, 3)])];
    let overrides = vec![SetOverride { set_index: 2, layout: layout(&[(0, 6)]) }];
    let sets = resolve_set_layouts(&reflected, &overrides).unwrap();
    assert_eq!(sets.len(), 1);
    assert_eq!(sets[0].bindings, layout(&[(0, 3)]).bindings);
}

#[test]
fn first_override_for_a_set_stands() {
    let reflected = vec![layout(&[])];
    let overrides = vec![
        SetOverride { set_index: 0, layout: layout(&[(4, 6)]) },
        SetOverride { set_index: 0, layout: layout(&[(5, 6)]) },
    ];
    let sets = resolve_set_layouts(&reflected, &overrides).unwrap();
    assert!(sets[0].contains_key(4));
    assert!(!sets[0].contains_key(5));
}

#[test]
fn invalidate_brings_a_pipeline_back_to_pending() {
    let mut cache = PipelineCache::new();
    let handle = cache.register_compute("/shaders/a.hlsl", &plain());
    assert!(!cache.invalidate(handle.0));
    cache.prepare_frame(vec![compiled(1, vec![])]).unwrap();
    assert!(cache.invalidate(handle.0));
    assert!(!cache.invalidate(7));
    assert!(cache.get_compute(handle).is_none());
    assert_eq!(cache.pending(), vec![0]);
    cache.prepare_frame(vec![compiled(2, vec![])]).unwrap();
    assert_eq!(cache.get_compute(handle).unwrap().pipeline, 2);
    assert_eq!(cache.register_compute("/shaders/a.hlsl", &plain()), handle);
}
