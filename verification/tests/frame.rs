use render_graph::access::ResourceRef;
use render_graph::binding::{
    bind_descriptor_set, bind_pipeline, frame_constants_bind, DescriptorBufferInfo,
    DescriptorImageInfo, DescriptorSetBinding, ImageLayout, WHOLE_SIZE,
};
use render_graph::error::{BuildError, CompileError, PrepareError};
use render_graph::layout::{DescriptorInfo, SetLayout};
use render_graph::pipeline_cache::{
    CompileOutcome, CompiledShader, DescriptorPoolSize, PipelineBindPoint, ShaderPipelineCommon,
};
use render_graph::renderer::{
    cube_index_upload, cube_indices, frame_constants_layout, sdf_image_desc, Renderer,
    RendererObjects,
};
use render_graph::resource::{Buffer, BufferDesc, ImageType};
use render_graph::view;
use vk_sync::AccessType;

fn set(bindings: &[(u32, u32)]) -> SetLayout {
    let mut layout = SetLayout::new();
    for (binding, ty) in bindings {
        layout.insert(*binding, DescriptorInfo { ty: *ty, is_bindless: false, stages: 0x20 });
    }
    layout
}

fn pipeline(sets: Vec<SetLayout>) -> ShaderPipelineCommon {
    let layouts = (0..sets.len() as u64).map(|i| 500 + i).collect();
    ShaderPipelineCommon {
        pipeline: 11,
        pipeline_layout: 22,
        pipeline_bind_point: PipelineBindPoint::Compute,
        set_layout_info: sets,
        descriptor_pool_sizes: vec![DescriptorPoolSize { ty: 3, descriptor_count: 1 }],
        descriptor_set_layouts: layouts,
    }
}

fn objects() -> RendererObjects {
    RendererObjects {
        frame_descriptor_set: 1,
        depth_img: 2,
        raster_simple_render_pass: 3,
        sdf_img: 4,
        sdf_img_view: 5,
        cube_index_buffer: 6,
    }
}

fn outcomes(count: usize) -> Vec<CompileOutcome> {
    (0..count as u64)
        .map(|i| {
            CompileOutcome::Compiled(CompiledShader {
                pipeline: 1000 + i,
                pipeline_layout: 2000 + i,
                reflected_sets: vec![set(&[(0, 3)]), set(&[]), set(&[(0, 6)])],
                descriptor_pool_sizes: vec![],
                descriptor_set_layouts: vec![10, 11, 12],
            })
        })
        .collect()
}

#[test]
fn cube_has_twelve_triangles_over_eight_corners() {
    let indices = cube_indices();
    assert_eq!(
        indices,
        vec![
            0, 4, 2, 2, 4, 6, 1, 3, 5, 5, 3, 7, // across x
            0, 1, 4, 4, 1, 5, 2, 6, 3, 3, 6, 7, // across y
            0, 2, 1, 1, 2, 3, 4, 5, 6, 6, 5, 7, // across z
        ]
    );
    let upload = cube_index_upload();
    assert_eq!(upload.desc, BufferDesc { size: 144, usage: 0x40 });
    assert_eq!(upload.data.len(), 144);
    // the bytes are those of the indices, in this machine's order
    let expected: Vec<u8> = indices.iter().flat_map(|index| index.to_ne_bytes()).collect();
    assert_eq!(upload.data, expected);
    assert_eq!(upload.data[4] | upload.data[7], 4);
    assert_eq!(upload.data[4..8].iter().map(|b| *b as u32).sum::<u32>(), 4);
}

#[test]
fn view_constructors_pick_layout_and_range() {
    assert_eq!(
        view::image_rw(9),
        DescriptorSetBinding::Image(DescriptorImageInfo {
            image_layout: ImageLayout::General,
            image_view: 9
        })
    );
    assert_eq!(
        view::image(9),
        DescriptorSetBinding::Image(DescriptorImageInfo {
            image_layout: ImageLayout::ShaderReadOnlyOptimal,
            image_view: 9
        })
    );
    let buffer = Buffer { raw: 8, desc: BufferDesc { size: 16, usage: 0x20 } };
    let whole = DescriptorSetBinding::Buffer(DescriptorBufferInfo {
        buffer: 8,
        offset: 0,
        range: WHOLE_SIZE,
    });
    assert_eq!(view::buffer_rw(&buffer), whole);
    assert_eq!(view::buffer(&buffer), whole);
    assert_eq!(WHOLE_SIZE, u64::MAX);
}

#[test]
fn descriptor_set_writes_only_what_the_shader_has() {
    let shader = pipeline(vec![set(&[(0, 3), (2, 7)])]);
    let buffer = Buffer { raw: 8, desc: BufferDesc { size: 16, usage: 0x20 } };
    let bindings = [view::image_rw(1), view::image(2), view::buffer(&buffer), view::image(3)];
    let bind = bind_descriptor_set(&shader, 0, &bindings).unwrap();
    assert_eq!(bind.set_index, 0);
    assert_eq!(bind.set_layout, 500);
    assert_eq!(bind.pipeline_layout, 22);
    assert_eq!(bind.pool_sizes, vec![DescriptorPoolSize { ty: 3, descriptor_count: 1 }]);
    let written: Vec<(u32, u32)> =
        bind.writes.iter().map(|w| (w.binding, w.descriptor_type)).collect();
    // binding 0 is a storage image, binding 2 a storage buffer; 1 and 3 are passed over
    assert_eq!(written, vec![(0, 3), (2, 7)]);
    assert_eq!(bind.writes[1].info, view::buffer(&buffer));

    let sampled = bind_descriptor_set(&pipeline(vec![set(&[(0, 2)])]), 0, &[view::image(4)]);
    assert_eq!(sampled.unwrap().writes[0].descriptor_type, 2);
}

#[test]
fn missing_set_binds_nothing() {
    let shader = pipeline(vec![set(&[(0, 3)])]);
    assert!(bind_descriptor_set(&shader, 1, &[view::image_rw(1)]).is_none());
    let bound = bind_pipeline(&shader);
    assert_eq!(bound.pipeline, 11);
    assert_eq!(bound.bind_point, PipelineBindPoint::Compute);
}

#[test]
fn frame_constants_are_bound_only_where_the_set_is_used() {
    let with = pipeline(vec![set(&[]), set(&[]), set(&[(0, 6)])]);
    let bind = frame_constants_bind(&with, 77, 256).unwrap();
    assert_eq!(bind.set_index, 2);
    assert_eq!(bind.descriptor_set, 77);
    assert_eq!(bind.dynamic_offset, 256);
    assert_eq!(bind.pipeline_layout, 22);
    let empty = pipeline(vec![set(&[]), set(&[]), set(&[])]);
    assert!(frame_constants_bind(&empty, 77, 256).is_none());
    let short = pipeline(vec![set(&[(0, 3)]), set(&[(0, 3)])]);
    assert!(frame_constants_bind(&short, 77, 256).is_none());
}

#[test]
fn frame_constants_layout_is_one_uniform_buffer() {
    let layout = frame_constants_layout();
    assert_eq!(layout.len(), 1);
    assert_eq!(layout.bindings[0].binding, 0);
    assert_eq!(layout.bindings[0].info.ty, 6);
    assert_eq!(layout.bindings[0].info.stages, 0x13f);
    assert!(!layout.bindings[0].info.is_bindless);
    let sdf = sdf_image_desc();
    assert_eq!(sdf.image_type, ImageType::Tex3d);
    assert_eq!((sdf.width, sdf.height, sdf.depth), (256, 256, 256));
    assert_eq!(sdf.usage, 0xc);
}

#[test]
fn new_registers_the_pipelines_of_the_scene() {
    let renderer = Renderer::new(objects(), [640, 480]);
    assert_eq!(renderer.frame_idx, u32::MAX);
    assert_eq!(renderer.pipeline_cache.len(), 4);
    assert_eq!(renderer.pipeline_cache.pending(), vec![0, 1, 2, 3]);
    assert_eq!(renderer.raster_simple.0, 0);
    assert_eq!(renderer.gen_empty_sdf.0, 1);
    assert_eq!(renderer.edit_sdf.0, 2);
    assert_eq!(renderer.sdf_raymarch_gbuffer.0, 3);
    let key = renderer.pipeline_cache.key(1).unwrap();
    assert_eq!(key.shaders[0].path, "/assets/shaders/sdf/gen_empty_sdf.hlsl");
    assert_eq!(key.set_overrides[0].set_index, 2);
    assert_eq!((renderer.depth_img.desc.width, renderer.depth_img.desc.height), (640, 480));
    assert_eq!(renderer.depth_img.desc.usage, 0x22);
    assert!(renderer.compiled_rg.is_none());
}

#[test]
fn nothing_is_drawn_before_the_first_pipeline_is_compiled() {
    let mut renderer = Renderer::new(objects(), [64, 64]);
    assert!(renderer.draw_frame(0).is_none());
    assert_eq!(renderer.frame_idx, u32::MAX);
}

#[test]
fn zero_sized_output_cannot_be_prepared() {
    let mut renderer = Renderer::new(objects(), [0, 64]);
    match renderer.prepare_frame([0, 64]) {
        Err(PrepareError::Build(error)) => assert_eq!(error, BuildError::MalformedDescriptor),
        other => panic!("unexpected {:?}", other),
    }
    assert!(renderer.compiled_rg.is_none());
    assert_eq!(renderer.pipeline_cache.len(), 4);
}

#[test]
fn two_frames_reach_the_pool_steady_state() {
    let mut renderer = Renderer::new(objects(), [64, 64]);

    renderer.prepare_frame([64, 64]).unwrap();
    // the graph brings three pipelines of its own
    assert_eq!(renderer.pipeline_cache.len(), 7);
    let pending = renderer.pipeline_cache.pending().len();
    renderer.pipeline_cache.prepare_frame(outcomes(pending)).unwrap();
    let first = renderer.draw_frame(16).unwrap();
    assert_eq!(first.frame_idx, 0);
    assert_eq!(first.dispatch, [64, 64, 64]);
    assert_eq!(first.sdf_pipeline.pipeline, 1001);
    let barrier = first.sdf_barrier.unwrap();
    assert_eq!(barrier.resource, ResourceRef::Imported(4));
    assert_eq!(barrier.previous, AccessType::Nothing);
    assert_eq!(barrier.next, AccessType::ComputeShaderWrite);
    assert_eq!(first.sdf_frame_constants.unwrap().dynamic_offset, 16);
    assert_eq!(first.sdf_descriptor_set.unwrap().writes[0].info, view::image_rw(5));
    let run = first.graph.unwrap();
    assert_eq!(run.retired.recordings.len(), 5);
    assert_eq!(run.retired.acquired.len(), 5);
    assert!(run.retired.acquired.iter().all(|r| r.fresh));
    assert_eq!(run.output, ResourceRef::Transient(4));
    assert_eq!(run.output_barrier.previous, AccessType::ComputeShaderWrite);
    assert_eq!(
        run.output_barrier.next,
        AccessType::AnyShaderReadSampledImageOrUniformTexelBuffer
    );
    let after_first = renderer.transient_resource_cache.len();
    assert_eq!(after_first, 5);
    let first_ids: Vec<usize> = run.retired.acquired.iter().map(|r| r.id).collect();

    // the graph was used up: without preparing, the next frame has none
    assert!(renderer.compiled_rg.is_none());

    renderer.prepare_frame([64, 64]).unwrap();
    assert_eq!(renderer.pipeline_cache.len(), 7);
    assert!(renderer.pipeline_cache.is_ready());
    let second = renderer.draw_frame(32).unwrap();
    assert_eq!(second.frame_idx, 1);
    assert_eq!(second.sdf_pipeline.pipeline, 1002);
    assert_eq!(
        second.sdf_barrier.unwrap().previous,
        AccessType::AnyShaderReadSampledImageOrUniformTexelBuffer
    );
    let run = second.graph.unwrap();
    assert!(run.retired.acquired.iter().all(|r| !r.fresh));
    let second_ids: Vec<usize> = run.retired.acquired.iter().map(|r| r.id).collect();
    assert_eq!(first_ids, second_ids);
    assert_eq!(renderer.transient_resource_cache.len(), after_first);

    let third = renderer.draw_frame(48).unwrap();
    assert_eq!(third.frame_idx, 2);
    assert!(third.graph.is_none());
    assert_eq!(renderer.transient_resource_cache.len(), after_first);
}

#[test]
fn the_frame_graph_orders_its_barriers() {
    let mut renderer = Renderer::new(objects(), [32, 16]);
    renderer.prepare_frame([32, 16]).unwrap();
    let compiled = renderer.compiled_rg.as_ref().unwrap();
    let names: Vec<&str> = compiled.passes.iter().map(|p| p.name.as_str()).collect();
    assert_eq!(names, vec!["clear depth", "find sdf bricks", "clear color", "raster sdf", "blur"]);
    // depth: cleared by transfer, then a depth attachment
    assert_eq!(compiled.resources[2].desc.get_usage(), 0x22);
    // colour: cleared, rendered to, sampled by the blur
    assert_eq!(compiled.resources[5].desc.get_usage(), 0x2 | 0x10 | 0x4);
    // the blurred output: written by compute, exported for sampling
    assert_eq!(compiled.resources[6].desc.get_usage(), 0x8 | 0x4);
    // the brick buffers: written by compute; one drawn from, one read
    assert_eq!(compiled.resources[3].desc.get_usage(), 0x20 | 0x100);
    assert_eq!(compiled.resources[4].desc.get_usage(), 0x20);
    let pending = renderer.pipeline_cache.pending().len();
    renderer.pipeline_cache.prepare_frame(outcomes(pending)).unwrap();
    let frame = renderer.draw_frame(0).unwrap();
    let run = frame.graph.unwrap();
    let counts: Vec<usize> = run.retired.recordings.iter().map(|r| r.barriers.len()).collect();
    // clear depth: 1; bricks: sdf write->read and two fresh buffers; clear colour: 1;
    // raster: sdf compute-read->any-read, two buffers, index buffer, depth, colour; blur: 2
    assert_eq!(counts, vec![1, 3, 1, 6, 2]);
}

#[test]
fn missing_import_cannot_be_prepared() {
    let mut missing = objects();
    missing.cube_index_buffer = 0;
    let mut renderer = Renderer::new(missing, [64, 64]);
    match renderer.prepare_frame([64, 64]) {
        Err(PrepareError::Compile(CompileError::UnresolvedImport { resource })) => {
            assert_eq!(resource, 1)
        }
        other => panic!("unexpected {:?}", other),
    }
    assert!(renderer.compiled_rg.is_none());
    assert!(renderer.rg_output_tex.is_none());
    assert_eq!(renderer.pipeline_cache.len(), 4);
    assert!(renderer.is_well_formed());
}

#[test]
fn hand_made_state_is_told_apart() {
    let mut renderer = Renderer::new(objects(), [64, 64]);
    assert!(renderer.is_well_formed());
    renderer.gen_empty_sdf.0 = 40;
    assert!(!renderer.is_well_formed());
}
