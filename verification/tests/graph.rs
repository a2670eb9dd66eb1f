use render_graph::access::ResourceRef;
use render_graph::error::{BuildError, CompileError};
use render_graph::graph::{Handle, PassAccess, RenderGraph};
use render_graph::layout::{DescriptorInfo, SetLayout};
use render_graph::pipeline_cache::{ComputePipelineDesc, PipelineCache, PipelineKey};
use render_graph::resource::{
    Buffer, BufferDesc, Image, ImageDesc, ResourceDesc, BUFFER_USAGE_INDEX_BUFFER,
    FORMAT_D24_UNORM_S8_UINT, FORMAT_R16G16B16A16_SFLOAT, FORMAT_R16_SFLOAT,
    IMAGE_USAGE_COLOR_ATTACHMENT, IMAGE_USAGE_SAMPLED, IMAGE_USAGE_STORAGE,
    IMAGE_USAGE_TRANSFER_DST,
};
use render_graph::transient_resource_cache::TransientResourceCache;
use vk_sync::AccessType;

fn color(width: u32, height: u32) -> ResourceDesc {
    ResourceDesc::Image(ImageDesc::new_2d(FORMAT_R16G16B16A16_SFLOAT, [width, height]))
}

fn volume(raw: u64) -> Image {
    Image {
        raw,
        desc: ImageDesc::new_3d(FORMAT_R16_SFLOAT, [256, 256, 256])
            .usage(IMAGE_USAGE_STORAGE | IMAGE_USAGE_SAMPLED),
    }
}

fn use_as(handle: Handle, access: AccessType) -> PassAccess {
    PassAccess { handle, access }
}

fn compute(path: &str) -> Option<PipelineKey> {
    Some(PipelineKey::compute(path, &ComputePipelineDesc { descriptor_set_opts: vec![] }))
}

#[test]
fn write_produces_a_new_version() {
    let mut rg = RenderGraph::new(None);
    let tex = rg.create_resource(color(4, 4)).unwrap();
    assert_eq!(tex, Handle { resource: 0, version: 0 });
    let written = rg
        .add_pass("a", vec![], vec![use_as(tex, AccessType::TransferWrite)], None, 0)
        .unwrap();
    assert_eq!(written, vec![Handle { resource: 0, version: 1 }]);
    assert!(!rg.is_current(tex));
    assert!(rg.is_current(written[0]));
    let again = rg
        .add_pass(
            "b",
            vec![use_as(written[0], AccessType::TransferRead)],
            vec![use_as(written[0], AccessType::ComputeShaderWrite)],
            None,
            1,
        )
        .unwrap();
    assert_eq!(again, vec![Handle { resource: 0, version: 2 }]);
    assert_eq!(rg.pass_count(), 2);
    assert_eq!(rg.resource_count(), 1);
}

#[test]
fn stale_or_unknown_handle_is_rejected_and_graph_is_unchanged() {
    let mut rg = RenderGraph::new(None);
    let tex = rg.create_resource(color(4, 4)).unwrap();
    let other = rg.create_resource(color(4, 4)).unwrap();
    let newer =
        rg.add_pass("a", vec![], vec![use_as(tex, AccessType::TransferWrite)], None, 0).unwrap()[0];

    // the old version cannot be read any more
    let stale = rg.add_pass(
        "b",
        vec![use_as(other, AccessType::TransferRead), use_as(tex, AccessType::TransferRead)],
        vec![],
        None,
        0,
    );
    assert_eq!(
        stale.unwrap_err(),
        BuildError::InvalidHandle { resource: 0, version: 0, written: false, index: 1 }
    );
    // a version that no pass has produced yet
    let future = rg.add_pass(
        "c",
        vec![],
        vec![use_as(Handle { resource: 0, version: 5 }, AccessType::TransferWrite)],
        None,
        0,
    );
    assert_eq!(
        future.unwrap_err(),
        BuildError::InvalidHandle { resource: 0, version: 5, written: true, index: 0 }
    );
    // a resource that does not exist
    let unknown = rg.add_pass(
        "d",
        vec![use_as(Handle { resource: 9, version: 0 }, AccessType::TransferRead)],
        vec![],
        None,
        0,
    );
    assert_eq!(
        unknown.unwrap_err(),
        BuildError::InvalidHandle { resource: 9, version: 0, written: false, index: 0 }
    );
    // two writes of one pass to the same resource
    let twice = rg.add_pass(
        "e",
        vec![],
        vec![
            use_as(newer, AccessType::TransferWrite),
            use_as(newer, AccessType::ComputeShaderWrite),
        ],
        None,
        0,
    );
    assert_eq!(
        twice.unwrap_err(),
        BuildError::InvalidHandle { resource: 0, version: 1, written: true, index: 1 }
    );
    assert_eq!(rg.pass_count(), 1);
    assert!(rg.is_current(newer));
    assert!(rg.is_current(other));
    assert_eq!(
        rg.export(tex, IMAGE_USAGE_SAMPLED).unwrap_err(),
        BuildError::InvalidHandle { resource: 0, version: 0, written: false, index: 0 }
    );
}

#[test]
fn malformed_descriptor_is_rejected() {
    let mut rg = RenderGraph::new(None);
    assert_eq!(rg.create_resource(color(0, 4)).unwrap_err(), BuildError::MalformedDescriptor);
    assert_eq!(
        rg.create_resource(ResourceDesc::Buffer(BufferDesc { size: 0, usage: 0 })).unwrap_err(),
        BuildError::MalformedDescriptor
    );
    let flat_volume = ImageDesc::new_3d(FORMAT_R16_SFLOAT, [4, 4, 0]);
    assert_eq!(
        rg.import_image(Image { raw: 1, desc: flat_volume }, AccessType::Nothing).unwrap_err(),
        BuildError::MalformedDescriptor
    );
    assert_eq!(rg.resource_count(), 0);
}

#[test]
fn compile_merges_usage_and_keeps_declaration_order() {
    let mut rg = RenderGraph::new(None);
    let tex = rg.create_resource(color(4, 4)).unwrap();
    let tex = rg
        .add_pass("clear", vec![], vec![use_as(tex, AccessType::TransferWrite)], None, 10)
        .unwrap()[0];
    let tex = rg
        .add_pass("draw", vec![], vec![use_as(tex, AccessType::ColorAttachmentWrite)], None, 11)
        .unwrap()[0];
    rg.add_pass(
        "sample",
        vec![use_as(tex, AccessType::AnyShaderReadSampledImageOrUniformTexelBuffer)],
        vec![],
        compute("/shaders/sample.hlsl"),
        12,
    )
    .unwrap();
    let out = rg.export(tex, IMAGE_USAGE_STORAGE).unwrap();
    assert_eq!(out.resource, 0);

    let mut cache = PipelineCache::new();
    let compiled = rg.compile(&mut cache).unwrap();
    assert_eq!(
        compiled.resources[0].desc.get_usage(),
        IMAGE_USAGE_TRANSFER_DST
            | IMAGE_USAGE_COLOR_ATTACHMENT
            | IMAGE_USAGE_SAMPLED
            | IMAGE_USAGE_STORAGE
    );
    let names: Vec<&str> = compiled.passes.iter().map(|p| p.name.as_str()).collect();
    assert_eq!(names, vec!["clear", "draw", "sample"]);
    assert_eq!(compiled.passes[2].callback, 12);
    assert_eq!(compiled.passes[0].pipeline, None);
    assert_eq!(compiled.passes[2].pipeline, Some(0));
    assert_eq!(cache.len(), 1);
    assert!(cache.get(0).is_none());
    // every pass comes after the pass that produced what it names
    for (j, pass) in compiled.passes.iter().enumerate() {
        for access in &pass.accesses {
            assert!(access.handle.version <= j);
        }
    }
}

#[test]
fn compile_declares_the_frame_layout_for_each_pipeline() {
    let mut frame = SetLayout::new();
    frame.insert(0, DescriptorInfo { ty: 6, is_bindless: false, stages: 0x13f });
    let mut rg = RenderGraph::new(Some(frame));
    let tex = rg.create_resource(color(4, 4)).unwrap();
    rg.add_pass(
        "a",
        vec![],
        vec![use_as(tex, AccessType::ComputeShaderWrite)],
        compute("/shaders/a.hlsl"),
        0,
    )
    .unwrap();
    let mut cache = PipelineCache::new();
    let unframed =
        cache.register_compute("/shaders/a.hlsl", &ComputePipelineDesc { descriptor_set_opts: vec![] });
    let compiled = rg.compile(&mut cache).unwrap();
    let handle = compiled.passes[0].pipeline.unwrap();
    assert_ne!(handle, unframed.0);
    let key = cache.key(handle).unwrap();
    assert_eq!(key.set_overrides.len(), 1);
    assert_eq!(key.set_overrides[0].set_index, 2);
    assert!(key.set_overrides[0].layout.contains(0, 6));
}

#[test]
fn unresolved_import_fails_compile_and_leaves_the_cache() {
    let mut rg = RenderGraph::new(None);
    let ok = rg.import_image(volume(5), AccessType::Nothing).unwrap();
    let missing = rg.import_image(volume(0), AccessType::Nothing).unwrap();
    rg.add_pass(
        "a",
        vec![use_as(ok, AccessType::ComputeShaderReadOther)],
        vec![use_as(missing, AccessType::ComputeShaderWrite)],
        compute("/shaders/a.hlsl"),
        0,
    )
    .unwrap();
    let mut cache = PipelineCache::new();
    match rg.compile(&mut cache) {
        Err(CompileError::UnresolvedImport { resource }) => assert_eq!(resource, 1),
        other => panic!("unexpected {:?}", other),
    }
    assert_eq!(cache.len(), 0);
}

#[test]
fn descriptor_conflict_names_resource_and_pass() {
    // a buffer cannot be a colour attachment
    let mut rg = RenderGraph::new(None);
    let tex = rg.create_resource(color(4, 4)).unwrap();
    let buf = rg.create_resource(ResourceDesc::Buffer(BufferDesc { size: 16, usage: 0 })).unwrap();
    rg.add_pass("fine", vec![], vec![use_as(tex, AccessType::ColorAttachmentWrite)], None, 0)
        .unwrap();
    rg.add_pass("wrong", vec![], vec![use_as(buf, AccessType::ColorAttachmentWrite)], None, 0)
        .unwrap();
    match rg.compile(&mut PipelineCache::new()) {
        Err(CompileError::DescriptorConflict { resource, pass }) => {
            assert_eq!(resource, 1);
            assert_eq!(pass, 1);
        }
        other => panic!("unexpected {:?}", other),
    }

    // an import cannot be used in a way it was not created for
    let mut rg = RenderGraph::new(None);
    let cube = rg
        .import_buffer(
            Buffer { raw: 3, desc: BufferDesc { size: 144, usage: BUFFER_USAGE_INDEX_BUFFER } },
            AccessType::TransferWrite,
        )
        .unwrap();
    rg.add_pass("index", vec![use_as(cube, AccessType::IndexBuffer)], vec![], None, 0).unwrap();
    rg.add_pass("storage", vec![use_as(cube, AccessType::ComputeShaderReadOther)], vec![], None, 0)
        .unwrap();
    match rg.compile(&mut PipelineCache::new()) {
        Err(CompileError::DescriptorConflict { resource, pass }) => {
            assert_eq!(resource, 0);
            assert_eq!(pass, 1);
        }
        other => panic!("unexpected {:?}", other),
    }
}

#[test]
fn import_read_with_its_access_emits_no_barrier() {
    let mut rg = RenderGraph::new(None);
    let sdf = rg
        .import_image(volume(77), AccessType::AnyShaderReadSampledImageOrUniformTexelBuffer)
        .unwrap();
    rg.add_pass(
        "read",
        vec![use_as(sdf, AccessType::AnyShaderReadSampledImageOrUniformTexelBuffer)],
        vec![],
        None,
        0,
    )
    .unwrap();
    let compiled = rg.compile(&mut PipelineCache::new()).unwrap();
    let mut pool = TransientResourceCache::new();
    let retired = compiled.execute(&mut pool, 0);
    assert_eq!(retired.recordings.len(), 1);
    assert!(retired.recordings[0].barriers.is_empty());
    assert_eq!(retired.recordings[0].resources, vec![ResourceRef::Imported(77)]);
    assert_eq!(pool.len(), 0);
}

#[test]
fn a_b_a_across_three_passes_emits_two_barriers() {
    let a = AccessType::AnyShaderReadSampledImageOrUniformTexelBuffer;
    let b = AccessType::ComputeShaderReadOther;
    let mut rg = RenderGraph::new(None);
    let sdf = rg.import_image(volume(77), a).unwrap();
    rg.add_pass("one", vec![use_as(sdf, a)], vec![], None, 0).unwrap();
    rg.add_pass("two", vec![use_as(sdf, b)], vec![], None, 0).unwrap();
    rg.add_pass("three", vec![use_as(sdf, a)], vec![], None, 0).unwrap();
    let compiled = rg.compile(&mut PipelineCache::new()).unwrap();
    let retired = compiled.execute(&mut TransientResourceCache::new(), 0);
    let counts: Vec<usize> = retired.recordings.iter().map(|r| r.barriers.len()).collect();
    assert_eq!(counts, vec![0, 1, 1]);
    let out = &retired.recordings[1].barriers[0];
    assert_eq!((out.previous, out.next), (a, b));
    let back = &retired.recordings[2].barriers[0];
    assert_eq!((back.previous, back.next), (b, a));
    assert_eq!(back.resource, ResourceRef::Imported(77));
    assert_eq!(back.aspect_mask, 1);
    assert_eq!(retired.last_access, vec![a]);
}

#[test]
fn execute_resolves_transients_and_exposes_the_export() {
    let mut rg = RenderGraph::new(None);
    let sdf = rg.import_image(volume(77), AccessType::ComputeShaderWrite).unwrap();
    let depth = rg
        .create_resource(ResourceDesc::Image(ImageDesc::new_2d(FORMAT_D24_UNORM_S8_UINT, [8, 8])))
        .unwrap();
    let tex = rg.create_resource(color(8, 8)).unwrap();
    let written = rg
        .add_pass(
            "raster",
            vec![use_as(sdf, AccessType::AnyShaderReadSampledImageOrUniformTexelBuffer)],
            vec![
                use_as(depth, AccessType::DepthStencilAttachmentWrite),
                use_as(tex, AccessType::ColorAttachmentWrite),
            ],
            None,
            0,
        )
        .unwrap();
    let out = rg.export(written[1], IMAGE_USAGE_SAMPLED).unwrap();
    let not_exported = render_graph::graph::ExportedHandle { resource: 1 };
    let compiled = rg.compile(&mut PipelineCache::new()).unwrap();

    let mut pool = TransientResourceCache::new();
    let retired = compiled.execute(&mut pool, 3);
    assert_eq!(pool.len(), 2);
    assert_eq!(retired.generation, 3);
    assert_eq!(
        retired.physical,
        vec![ResourceRef::Imported(77), ResourceRef::Transient(0), ResourceRef::Transient(1)]
    );
    assert!(retired.acquired.iter().all(|r| r.fresh));
    let barriers = &retired.recordings[0].barriers;
    assert_eq!(barriers.len(), 3);
    assert_eq!(barriers[0].previous, AccessType::ComputeShaderWrite);
    assert_eq!(barriers[1].previous, AccessType::Nothing);
    assert_eq!(barriers[1].resource, ResourceRef::Transient(0));
    // depth and stencil for the depth format, colour for the other
    assert_eq!(barriers[1].aspect_mask, 0x6);
    assert_eq!(barriers[2].aspect_mask, 0x1);
    assert_eq!(
        retired.get_image(out),
        Some((ResourceRef::Transient(1), AccessType::ColorAttachmentWrite))
    );
    assert_eq!(retired.get_image(not_exported), None);
    assert_eq!(pool.entry(1).unwrap().held_by, Some(3));
    retired.release_resources(&mut pool);
    assert_eq!(pool.entry(0).unwrap().held_by, None);
    assert_eq!(pool.entry(1).unwrap().held_by, None);
    assert_eq!(pool.len(), 2);
}

#[test]
fn failed_pass_releases_resources_and_names_the_pass() {
    let mut rg = RenderGraph::new(None);
    let tex = rg.create_resource(color(8, 8)).unwrap();
    rg.add_pass("clear", vec![], vec![use_as(tex, AccessType::TransferWrite)], None, 0).unwrap();
    let compiled = rg.compile(&mut PipelineCache::new()).unwrap();
    let mut pool = TransientResourceCache::new();
    let retired = compiled.execute(&mut pool, 1);
    let error = retired.fail(&mut pool, 0);
    assert_eq!(error.pass, 0);
    assert_eq!(error.pass_name, "clear");
    assert_eq!(pool.len(), 1);
    assert_eq!(pool.entry(0).unwrap().held_by, None);
}

#[test]
fn second_execution_does_not_grow_the_pool() {
    // compute writes a volume, a raster pass reads it, a blur reads the raster output
    let build = || {
        let mut rg = RenderGraph::new(None);
        let volume = rg
            .create_resource(ResourceDesc::Image(ImageDesc::new_3d(
                FORMAT_R16_SFLOAT,
                [256, 256, 256],
            )))
            .unwrap();
        let volume = rg
            .add_pass(
                "fill",
                vec![],
                vec![use_as(volume, AccessType::ComputeShaderWrite)],
                compute("/shaders/fill.hlsl"),
                0,
            )
            .unwrap()[0];
        let target = rg.create_resource(color(64, 64)).unwrap();
        let target = rg
            .add_pass(
                "raster",
                vec![use_as(volume, AccessType::AnyShaderReadSampledImageOrUniformTexelBuffer)],
                vec![use_as(target, AccessType::ColorAttachmentWrite)],
                None,
                1,
            )
            .unwrap()[0];
        let blurred = rg.create_resource(color(64, 64)).unwrap();
        let blurred = rg
            .add_pass(
                "blur",
                vec![use_as(target, AccessType::ComputeShaderReadSampledImageOrUniformTexelBuffer)],
                vec![use_as(blurred, AccessType::ComputeShaderWrite)],
                compute("/shaders/blur.hlsl"),
                2,
            )
            .unwrap()[0];
        let out = rg.export(blurred, IMAGE_USAGE_SAMPLED).unwrap();
        (rg, out)
    };
    let mut cache = PipelineCache::new();
    let mut pool = TransientResourceCache::new();

    let (rg, out) = build();
    let first = rg.compile(&mut cache).unwrap().execute(&mut pool, 0);
    assert!(first.is_well_formed());
    let first_output = first.get_image(out).unwrap();
    let first_physical = first.physical.clone();
    first.release_resources(&mut pool);
    let grown = pool.len();
    assert_eq!(grown, 3);

    let (rg, out) = build();
    let second = rg.compile(&mut cache).unwrap().execute(&mut pool, 1);
    assert_eq!(pool.len(), grown);
    assert!(second.acquired.iter().all(|r| !r.fresh));
    assert_eq!(second.physical, first_physical);
    assert_eq!(second.get_image(out).unwrap(), first_output);
    assert_eq!(cache.len(), 2);
    second.release_resources(&mut pool);
    assert_eq!(pool.len(), grown);
    assert!(pool.is_at_rest());
}

#[test]
fn two_graphs_in_flight_do_not_share_resources() {
    let build = || {
        let mut rg = RenderGraph::new(None);
        let tex = rg.create_resource(color(8, 8)).unwrap();
        rg.add_pass("clear", vec![], vec![use_as(tex, AccessType::TransferWrite)], None, 0)
            .unwrap();
        rg.compile(&mut PipelineCache::new()).unwrap()
    };
    let mut pool = TransientResourceCache::new();
    let even = build().execute(&mut pool, 0);
    let odd = build().execute(&mut pool, 1);
    assert_ne!(even.physical, odd.physical);
    even.release_resources(&mut pool);
    assert_eq!(pool.entry(0).unwrap().held_by, None);
    assert_eq!(pool.entry(1).unwrap().held_by, Some(1));
    assert!(!pool.is_at_rest());
    odd.release_resources(&mut pool);
    assert!(pool.is_at_rest());
}
