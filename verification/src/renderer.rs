//! The frame driver: the resources and pipelines of the scene, the graph of a
//! frame, and what recording a frame comes to.

use vstd::prelude::*;
use vstd::pervasive::unreached;
use byte_slice_cast::AsByteSlice;
use crate::access::{Barrier, ResourceRef};
use crate::binding::{
    bind_descriptor_set, bind_pipeline, descriptor_writes, frame_constants_bind,
    takes_frame_constants, DescriptorSetBind, DescriptorSetBinding, FrameConstantsBind,
    PipelineBind,
};
use crate::compile::CompiledRenderGraph;
use crate::error::{BuildError, CompileError, PrepareError};
use crate::execute::{transient_descs, RetiredRenderGraph};
use crate::graph::{
    current, first_unnameable, lemma_first_unnameable, naming_error, nameable, written,
    ExportedHandle, GraphResource, Handle, PassAccess, RenderGraph,
};
use crate::layout::{
    Binding, DescriptorInfo, SetLayout, SetOverride, DESCRIPTOR_TYPE_UNIFORM_BUFFER,
    SHADER_STAGE_ALL_GRAPHICS, SHADER_STAGE_COMPUTE, SHADER_STAGE_RAYGEN,
};
use crate::pipeline_cache::{
    lemma_find_key_is, ComputePipelineDesc, ComputePipelineHandle, KeyView, PipelineBindPoint,
    PipelineCache, PipelineKey, RasterPipelineDesc, RasterPipelineHandle, RasterPipelineShader,
    RasterStage, ShaderPipelineCommon, ShaderStage,
};
use crate::resource::{
    Buffer, BufferDesc, Image, ImageDesc, ImageType, ResourceDesc, BUFFER_USAGE_INDEX_BUFFER,
    FORMAT_D24_UNORM_S8_UINT,
    FORMAT_R16G16B16A16_SFLOAT, FORMAT_R16_SFLOAT, IMAGE_ASPECT_COLOR,
    IMAGE_USAGE_DEPTH_STENCIL_ATTACHMENT, IMAGE_USAGE_SAMPLED, IMAGE_USAGE_STORAGE,
    IMAGE_USAGE_TRANSFER_DST,
};
use crate::transient_resource_cache::{
    acquired_all, all_free, lemma_run_then_release_frees, released, TransientResourceCache,
};
use crate::state_tracker::LocalImageStateTracker;
use crate::view::image_rw;
use vk_sync::AccessType;

verus! {

/// The edge of the distance-field volume, in texels.
pub const SDF_DIM: u32 = 256;

/// How many bytes of the constants buffer the frame's descriptor set covers
/// from the offset it is bound at.
pub const FRAME_CONSTANTS_RANGE: u64 = 16384;

/// Index `i` of the cube's index list. The corners of the cube are numbered by
/// bits: bit 0 set is the far side in x, bit 1 in y, bit 2 in z. Each of the
/// six faces is two triangles of three indices; faces come in pairs, the near
/// and the far one across x, then y, then z.
pub open spec fn cube_index(i: int) -> u32 {
    let axis = i / 12;
    let far = (i / 6) % 2 == 1;
    let corner = i % 6;
    let across: u32 = if axis == 0 {
        1
    } else if axis == 1 {
        2
    } else {
        4
    };
    let first: u32 = if axis == 0 {
        2
    } else if axis == 1 {
        4
    } else {
        1
    };
    let second: u32 = if axis == 0 {
        4
    } else if axis == 1 {
        1
    } else {
        2
    };
    let base: u32 = if far {
        across
    } else {
        0
    };
    let u: u32 = if far {
        first
    } else {
        second
    };
    let v: u32 = if far {
        second
    } else {
        first
    };
    if corner == 0 {
        base
    } else if corner == 1 || corner == 4 {
        (base + u) as u32
    } else if corner == 2 || corner == 3 {
        (base + v) as u32
    } else {
        (base + u + v) as u32
    }
}

/// The two triangles of one face.
fn push_face(indices: &mut Vec<u32>, base: u32, u: u32, v: u32)
    requires
        base + u + v <= 7,
    ensures
        final(indices)@ == old(indices)@ + seq![
            base,
            (base + u) as u32,
            (base + v) as u32,
            (base + v) as u32,
            (base + u) as u32,
            (base + u + v) as u32,
        ],
{
    let ghost before = indices@;
    indices.push(base);
    indices.push(base + u);
    indices.push(base + v);
    indices.push(base + v);
    indices.push(base + u);
    indices.push(base + u + v);
    assert(indices@ =~= before + seq![
        base,
        (base + u) as u32,
        (base + v) as u32,
        (base + v) as u32,
        (base + u) as u32,
        (base + u + v) as u32,
    ]);
}

/// The index list of a cube: 36 indices into its 8 corners, two triangles for
/// each face.
pub fn cube_indices() -> (indices: Vec<u32>)
    ensures
        indices@.len() == 36,
        forall|i: int| 0 <= i < 36 ==> #[trigger] indices@[i] == cube_index(i),
        forall|i: int| 0 <= i < 36 ==> (#[trigger] indices@[i]) < 8,
{
    let mut res: Vec<u32> = Vec::with_capacity(6 * 2 * 3);
    let dims: [(u32, u32, u32); 3] = [(1, 2, 4), (2, 4, 1), (4, 1, 2)];
    let mut axis: usize = 0;
    while axis < 3
        invariant
            axis <= 3,
            dims@ == seq![(1u32, 2u32, 4u32), (2u32, 4u32, 1u32), (4u32, 1u32, 2u32)],
            res@.len() == 12 * axis,
            forall|i: int| 0 <= i < 12 * axis ==> #[trigger] res@[i] == cube_index(i),
        decreases 3 - axis,
    {
        let (ndim, dim0, dim1) = dims[axis];
        let ghost before = res@;
        push_face(&mut res, 0, dim1, dim0);
        push_face(&mut res, ndim, dim0, dim1);
        assert forall|i: int| 0 <= i < 12 * (axis + 1) implies #[trigger] res@[i] == cube_index(
            i,
        ) by {
            if i < 12 * axis {
                assert(res@[i] == before[i]);
            }
        }
        axis += 1;
    }
    res
}

/// The layout of the set that holds the frame's constants: one uniform buffer,
/// at binding 0, for the compute, graphics and ray generation stages.
pub open spec fn frame_constants_bindings() -> Seq<Binding> {
    seq![
        Binding {
            binding: 0,
            info: DescriptorInfo {
                ty: DESCRIPTOR_TYPE_UNIFORM_BUFFER,
                is_bindless: false,
                stages: SHADER_STAGE_COMPUTE | SHADER_STAGE_ALL_GRAPHICS | SHADER_STAGE_RAYGEN,
            },
        },
    ]
}

/// The layout of the set that holds the frame's constants.
pub fn frame_constants_layout() -> (layout: SetLayout)
    ensures
        layout@ == frame_constants_bindings(),
{
    let mut layout = SetLayout::new();
    layout.insert(
        0,
        DescriptorInfo {
            ty: DESCRIPTOR_TYPE_UNIFORM_BUFFER,
            is_bindless: false,
            stages: SHADER_STAGE_COMPUTE | SHADER_STAGE_ALL_GRAPHICS | SHADER_STAGE_RAYGEN,
        },
    );
    assert(layout@ =~= frame_constants_bindings());
    layout
}

/// The image that depth is rendered to, for an output of `output_dims` texels.
pub open spec fn depth_image_desc_of(output_dims: [u32; 2]) -> ImageDesc {
    ImageDesc {
        image_type: ImageType::Tex2d,
        format: FORMAT_D24_UNORM_S8_UINT,
        width: output_dims[0],
        height: output_dims[1],
        depth: 1,
        usage: IMAGE_USAGE_DEPTH_STENCIL_ATTACHMENT | IMAGE_USAGE_TRANSFER_DST,
    }
}

/// The volume that holds the distance field.
pub open spec fn sdf_image_desc_of() -> ImageDesc {
    ImageDesc {
        image_type: ImageType::Tex3d,
        format: FORMAT_R16_SFLOAT,
        width: SDF_DIM,
        height: SDF_DIM,
        depth: SDF_DIM,
        usage: IMAGE_USAGE_STORAGE | IMAGE_USAGE_SAMPLED,
    }
}

/// The image that depth is rendered to, for an output of `output_dims` texels.
pub fn depth_image_desc(output_dims: [u32; 2]) -> (desc: ImageDesc)
    ensures
        desc == depth_image_desc_of(output_dims),
{
    ImageDesc::new_2d(FORMAT_D24_UNORM_S8_UINT, output_dims).usage(
        IMAGE_USAGE_DEPTH_STENCIL_ATTACHMENT | IMAGE_USAGE_TRANSFER_DST,
    )
}

/// The volume that holds the distance field.
pub fn sdf_image_desc() -> (desc: ImageDesc)
    ensures
        desc == sdf_image_desc_of(),
{
    ImageDesc::new_3d(FORMAT_R16_SFLOAT, [SDF_DIM, SDF_DIM, SDF_DIM]).usage(
        IMAGE_USAGE_STORAGE | IMAGE_USAGE_SAMPLED,
    )
}

/// Byte `k` of `value`, counted from its low end.
pub open spec fn byte_of(value: u32, k: int) -> u8 {
    let unit: int = if k == 0 {
        1
    } else if k == 1 {
        0x100
    } else if k == 2 {
        0x1_0000
    } else {
        0x100_0000
    };
    ((value as int / unit) % 0x100) as u8
}

/// The bytes of `values`, four for each value, the low end of a value first.
pub open spec fn bytes_low_first(values: Seq<u32>) -> Seq<u8> {
    Seq::new(4 * values.len(), |i: int| byte_of(values[i / 4], i % 4))
}

/// The bytes of `values`, four for each value, the high end of a value first.
pub open spec fn bytes_high_first(values: Seq<u32>) -> Seq<u8> {
    Seq::new(4 * values.len(), |i: int| byte_of(values[i / 4], 3 - i % 4))
}

/// The bytes of `values` as they lie in memory, four for each value, through
/// `byte_slice_cast`'s `as_byte_slice`. The bytes are those of the values; the
/// order of the four within a value is the machine's, so the contract says
/// that it is one of the two and not which.
#[verifier::external_body]
fn index_bytes(values: &Vec<u32>) -> (bytes: Vec<u8>)
    ensures
        bytes@.len() == 4 * values@.len(),
        bytes@ == bytes_low_first(values@) || bytes@ == bytes_high_first(values@),
{
    values.as_byte_slice().to_vec()
}

/// The index list of the cube.
pub open spec fn cube_index_list() -> Seq<u32> {
    Seq::new(36, |i: int| cube_index(i))
}

/// A buffer to create, and the bytes to fill it with.
#[derive(Debug)]
pub struct BufferUpload {
    pub desc: BufferDesc,
    pub data: Vec<u8>,
}

/// The index buffer of the cube: 36 indices of four bytes each, as they lie in
/// this machine's memory.
pub fn cube_index_upload() -> (upload: BufferUpload)
    ensures
        upload.desc == (BufferDesc { size: 144, usage: BUFFER_USAGE_INDEX_BUFFER }),
        upload.data@.len() == 144,
        upload.data@ == bytes_low_first(cube_index_list()) || upload.data@ == bytes_high_first(
            cube_index_list(),
        ),
{
    let indices = cube_indices();
    assert(indices@ =~= cube_index_list());
    let data = index_bytes(&indices);
    BufferUpload {
        desc: BufferDesc { size: indices.len() * 4, usage: BUFFER_USAGE_INDEX_BUFFER },
        data,
    }
}

/// The configuration of the pipelines that work on the distance field: the
/// layout of the frame's constants is declared for their set.
pub fn sdf_pipeline_desc() -> (desc: ComputePipelineDesc)
    ensures
        crate::pipeline_cache::override_views(desc.descriptor_set_opts@) == seq![
            (2u32, frame_constants_bindings()),
        ],
{
    let mut descriptor_set_opts: Vec<SetOverride> = Vec::new();
    descriptor_set_opts.push(SetOverride { set_index: 2, layout: frame_constants_layout() });
    assert(crate::pipeline_cache::override_views(descriptor_set_opts@) =~= seq![
        (2u32, frame_constants_bindings()),
    ]);
    ComputePipelineDesc { descriptor_set_opts }
}

/// The key of a pipeline that works on the distance field.
pub open spec fn sdf_key(path: Seq<char>) -> KeyView {
    KeyView {
        shaders: seq![(path, ShaderStage::Compute)],
        bind_point: PipelineBindPoint::Compute,
        render_pass: 0,
        face_cull: false,
        overrides: seq![(2u32, frame_constants_bindings())],
    }
}

/// The key of the pipeline that rasterises the bricks of the distance field.
pub open spec fn raster_simple_key(render_pass: u64) -> KeyView {
    KeyView {
        shaders: seq![
            ("/assets/shaders/raster_simple_vs.hlsl"@, ShaderStage::Vertex),
            ("/assets/shaders/raster_simple_ps.hlsl"@, ShaderStage::Pixel),
        ],
        bind_point: PipelineBindPoint::Graphics,
        render_pass,
        face_cull: true,
        overrides: Seq::empty(),
    }
}

fn raster_simple_shaders() -> (shaders: Vec<RasterPipelineShader>)
    ensures
        crate::pipeline_cache::raster_shader_views(shaders@) == seq![
            ("/assets/shaders/raster_simple_vs.hlsl"@, ShaderStage::Vertex),
            ("/assets/shaders/raster_simple_ps.hlsl"@, ShaderStage::Pixel),
        ],
{
    let mut shaders: Vec<RasterPipelineShader> = Vec::new();
    shaders.push(
        RasterPipelineShader {
            code: "/assets/shaders/raster_simple_vs.hlsl".to_owned(),
            stage: RasterStage::Vertex,
        },
    );
    shaders.push(
        RasterPipelineShader {
            code: "/assets/shaders/raster_simple_ps.hlsl".to_owned(),
            stage: RasterStage::Pixel,
        },
    );
    assert(crate::pipeline_cache::raster_shader_views(shaders@) =~= seq![
        ("/assets/shaders/raster_simple_vs.hlsl"@, ShaderStage::Vertex),
        ("/assets/shaders/raster_simple_ps.hlsl"@, ShaderStage::Pixel),
    ]);
    shaders
}

fn raster_simple_desc(render_pass: u64) -> (desc: RasterPipelineDesc)
    ensures
        desc.render_pass == render_pass,
        desc.face_cull,
        desc.descriptor_set_opts@.len() == 0,
{
    RasterPipelineDesc { render_pass, face_cull: true, descriptor_set_opts: Vec::new() }
}

pub const CALLBACK_CLEAR_DEPTH: usize = 0;
pub const CALLBACK_FIND_SDF_BRICKS: usize = 1;
pub const CALLBACK_CLEAR_COLOR: usize = 2;
pub const CALLBACK_RASTER_SDF: usize = 3;
pub const CALLBACK_BLUR: usize = 4;

/// The size of the buffer that holds the draw arguments for the bricks.
pub const BRICK_META_BYTES: usize = 20;
/// The size of the buffer that holds one entry for each brick that is drawn.
pub const BRICK_INST_BYTES: usize = 4194304;

fn access(handle: Handle, kind: AccessType) -> (out: PassAccess)
    ensures
        out.handle == handle,
        out.access == kind,
{
    PassAccess { handle, access: kind }
}

/// Declares a pass whose handles can all be named.
fn declare(
    rg: &mut RenderGraph,
    name: &str,
    reads: Vec<PassAccess>,
    writes: Vec<PassAccess>,
    pipeline: Option<PipelineKey>,
    callback: usize,
) -> (handles: Vec<Handle>)
    requires
        old(rg).wf(),
        forall|i: int| 0 <= i < reads@.len() ==> current(old(rg).resources(), reads@[i].handle),
        forall|i: int| 0 <= i < writes@.len() ==> current(old(rg).resources(), writes@[i].handle),
        forall|k: int, i: int|
            0 <= k < i < writes@.len() ==> writes@[k].handle.resource != writes@[i].handle.resource,
    ensures
        final(rg).wf(),
        final(rg).frame_layout() == old(rg).frame_layout(),
        final(rg).passes().len() == old(rg).passes().len() + 1,
        forall|j: int|
            0 <= j < old(rg).passes().len() ==> final(rg).passes()[j] == old(rg).passes()[j],
        final(rg).passes().last().name@ == name@,
        final(rg).passes().last().reads == reads,
        final(rg).passes().last().writes == writes,
        final(rg).passes().last().pipeline == pipeline,
        final(rg).passes().last().callback == callback,
        final(rg).resources().len() == old(rg).resources().len(),
        forall|r: int|
            0 <= r < old(rg).resources().len() ==> {
                &&& (#[trigger] final(rg).resources()[r]).desc == old(rg).resources()[r].desc
                &&& final(rg).resources()[r].origin == old(rg).resources()[r].origin
                &&& final(rg).resources()[r].exported == old(rg).resources()[r].exported
            },
        handles@.len() == writes@.len(),
        forall|i: int|
            0 <= i < writes@.len() ==> {
                &&& (#[trigger] handles@[i]).resource == writes@[i].handle.resource
                &&& handles@[i].version == old(rg).passes().len() + 1
                &&& current(final(rg).resources(), handles@[i])
            },
        forall|h: Handle|
            #[trigger] current(old(rg).resources(), h) && !written(writes@, h.resource as int)
                ==> current(final(rg).resources(), h),
{
    proof {
        lemma_first_unnameable(rg.resources(), reads@, false, 0);
        lemma_first_unnameable(rg.resources(), writes@, true, 0);
        let r = first_unnameable(rg.resources(), reads@, false, 0);
        if r < reads@.len() {
            assert(nameable(rg.resources(), reads@, false, r));
        }
        let w = first_unnameable(rg.resources(), writes@, true, 0);
        if w < writes@.len() {
            assert(nameable(rg.resources(), writes@, true, w));
        }
        assert(naming_error(rg.resources(), reads@, writes@) is None);
    }
    let ghost declared_writes = writes@;
    match rg.add_pass(name, reads, writes, pipeline, callback) {
        Ok(handles) => {
            let count = rg.pass_count();
            proof {
                assert forall|i: int| 0 <= i < declared_writes.len() implies {
                    &&& (#[trigger] handles@[i]).resource == declared_writes[i].handle.resource
                    &&& handles@[i].version == old(rg).passes().len() + 1
                    &&& current(rg.resources(), handles@[i])
                } by {
                    assert(written(declared_writes, declared_writes[i].handle.resource as int));
                }
            }
            handles
        },
        Err(_) => unreached(),
    }
}

/// Resource `k` of the frame's graph, of the seven that a frame adds.
pub open spec fn frame_resource_desc(k: int, renderer: Renderer, dims: [u32; 2]) -> ResourceDesc {
    if k == 0 {
        ResourceDesc::Image(renderer.sdf_img.desc)
    } else if k == 1 {
        ResourceDesc::Buffer(renderer.cube_index_buffer.desc)
    } else if k == 2 {
        ResourceDesc::Image(
            ImageDesc {
                image_type: ImageType::Tex2d,
                format: FORMAT_D24_UNORM_S8_UINT,
                width: dims[0],
                height: dims[1],
                depth: 1,
                usage: 0,
            },
        )
    } else if k == 3 {
        ResourceDesc::Buffer(BufferDesc { size: BRICK_META_BYTES, usage: 0 })
    } else if k == 4 {
        ResourceDesc::Buffer(BufferDesc { size: BRICK_INST_BYTES, usage: 0 })
    } else {
        ResourceDesc::Image(
            ImageDesc {
                image_type: ImageType::Tex2d,
                format: FORMAT_R16G16B16A16_SFLOAT,
                width: dims[0],
                height: dims[1],
                depth: 1,
                usage: 0,
            },
        )
    }
}

/// Where resource `k` of the frame's graph comes from: the distance field and
/// the cube's index buffer are the driver's, the others are the graph's own.
pub open spec fn frame_resource_origin(k: int, renderer: Renderer) -> crate::graph::ResourceOrigin {
    if k == 0 {
        crate::graph::ResourceOrigin::Imported {
            raw: renderer.sdf_img.raw,
            initial_access: AccessType::ComputeShaderWrite,
        }
    } else if k == 1 {
        crate::graph::ResourceOrigin::Imported {
            raw: renderer.cube_index_buffer.raw,
            initial_access: AccessType::TransferWrite,
        }
    } else {
        crate::graph::ResourceOrigin::Created
    }
}

/// One use of a resource by a pass of the frame's graph: which of the frame's
/// seven resources, and how.
pub struct FrameUse {
    pub resource: int,
    pub access: AccessType,
}

/// What pass `k` of the frame's graph reads.
pub open spec fn frame_pass_reads(k: int) -> Seq<FrameUse> {
    if k == 1 {
        seq![
            FrameUse {
                resource: 0,
                access: AccessType::ComputeShaderReadSampledImageOrUniformTexelBuffer,
            },
        ]
    } else if k == 3 {
        seq![
            FrameUse {
                resource: 0,
                access: AccessType::AnyShaderReadSampledImageOrUniformTexelBuffer,
            },
            FrameUse { resource: 4, access: AccessType::AnyShaderReadOther },
            FrameUse { resource: 3, access: AccessType::IndirectBuffer },
            FrameUse { resource: 1, access: AccessType::IndexBuffer },
        ]
    } else if k == 4 {
        seq![
            FrameUse {
                resource: 5,
                access: AccessType::ComputeShaderReadSampledImageOrUniformTexelBuffer,
            },
        ]
    } else {
        Seq::empty()
    }
}

/// What pass `k` of the frame's graph writes.
pub open spec fn frame_pass_writes(k: int) -> Seq<FrameUse> {
    if k == 0 {
        seq![FrameUse { resource: 2, access: AccessType::TransferWrite }]
    } else if k == 1 {
        seq![
            FrameUse { resource: 3, access: AccessType::ComputeShaderWrite },
            FrameUse { resource: 4, access: AccessType::ComputeShaderWrite },
        ]
    } else if k == 2 {
        seq![FrameUse { resource: 5, access: AccessType::TransferWrite }]
    } else if k == 3 {
        seq![
            FrameUse { resource: 2, access: AccessType::DepthStencilAttachmentWrite },
            FrameUse { resource: 5, access: AccessType::ColorAttachmentWrite },
        ]
    } else {
        seq![FrameUse { resource: 6, access: AccessType::ComputeShaderWrite }]
    }
}

/// The name of pass `k` of the frame's graph.
pub open spec fn frame_pass_name(k: int) -> Seq<char> {
    if k == 0 {
        "clear depth"@
    } else if k == 1 {
        "find sdf bricks"@
    } else if k == 2 {
        "clear color"@
    } else if k == 3 {
        "raster sdf"@
    } else {
        "blur"@
    }
}

/// The key of a compute pipeline that declares no layout of its own.
pub open spec fn plain_compute_key(path: Seq<char>) -> KeyView {
    KeyView {
        shaders: seq![(path, ShaderStage::Compute)],
        bind_point: PipelineBindPoint::Compute,
        render_pass: 0,
        face_cull: false,
        overrides: Seq::empty(),
    }
}

/// The pipeline that pass `k` of the frame's graph declares, where it has one:
/// the two clears record without a pipeline.
pub open spec fn frame_pass_key(k: int, render_pass: u64) -> Option<KeyView> {
    if k == 1 {
        Some(plain_compute_key("/assets/shaders/sdf/find_bricks.hlsl"@))
    } else if k == 3 {
        Some(raster_simple_key(render_pass))
    } else if k == 4 {
        Some(plain_compute_key("/assets/shaders/blur.hlsl"@))
    } else {
        None
    }
}

/// A key with the layout of the frame's constants declared for their set, as
/// the graph of a frame registers it.
pub open spec fn with_frame_constants(key: KeyView) -> KeyView {
    KeyView { overrides: key.overrides.push((2u32, frame_constants_bindings())), ..key }
}

/// Pass `pass` is pass `k` of the frame's graph by name and by pipeline.
pub open spec fn is_frame_pass(pass: crate::graph::Pass, k: int, render_pass: u64) -> bool {
    &&& pass.name@ == frame_pass_name(k)
    &&& pass.callback == k
    &&& match frame_pass_key(k, render_pass) {
        None => pass.pipeline is None,
        Some(key) => pass.pipeline is Some && pass.pipeline->0@ == key,
    }
}

/// The accesses are the uses, with the frame's resources starting at `first`
/// in the resource table.
pub open spec fn uses_match(accesses: Seq<PassAccess>, uses: Seq<FrameUse>, first: int) -> bool {
    &&& accesses.len() == uses.len()
    &&& forall|i: int|
        0 <= i < uses.len() ==> (#[trigger] accesses[i]).handle.resource == first
            + uses[i].resource && accesses[i].access == uses[i].access
}

/// The frame's graph, alone in a resource table and with nothing missing
/// behind its imports, has no access that does not fit its resource.
proof fn lemma_frame_graph_fits(
    resources: Seq<GraphResource>,
    passes: Seq<crate::graph::Pass>,
    renderer: Renderer,
    dims: [u32; 2],
)
    requires
        renderer.sdf_img.desc == sdf_image_desc_of(),
        renderer.cube_index_buffer.desc == (BufferDesc {
            size: 144,
            usage: BUFFER_USAGE_INDEX_BUFFER,
        }),
        resources.len() == 7,
        passes.len() == 5,
        forall|k: int|
            0 <= k < 7 ==> (#[trigger] resources[k]).desc == frame_resource_desc(k, renderer, dims)
                && resources[k].origin == frame_resource_origin(k, renderer),
        forall|k: int|
            0 <= k < 5 ==> uses_match((#[trigger] passes[k]).reads@, frame_pass_reads(k), 0)
                && uses_match(passes[k].writes@, frame_pass_writes(k), 0),
    ensures
        crate::compile::first_conflicting(resources, passes, 0) == 5,
{
    assert((IMAGE_USAGE_STORAGE | IMAGE_USAGE_SAMPLED) & IMAGE_USAGE_SAMPLED == IMAGE_USAGE_SAMPLED)
        by (bit_vector);
    assert(BUFFER_USAGE_INDEX_BUFFER & BUFFER_USAGE_INDEX_BUFFER == BUFFER_USAGE_INDEX_BUFFER)
        by (bit_vector);
    assert forall|j: int| 0 <= j < 5 implies crate::compile::pass_conflict(
        resources,
        #[trigger] passes[j],
    ) is None by {
        let reads = passes[j].reads@;
        let writes = passes[j].writes@;
        assert(uses_match(reads, frame_pass_reads(j), 0));
        assert(uses_match(writes, frame_pass_writes(j), 0));
        assert forall|i: int| 0 <= i < reads.len() implies crate::compile::fits(
            resources,
            #[trigger] reads[i],
        ) by {
            let r = frame_pass_reads(j)[i].resource;
            assert(reads[i].handle.resource == r);
            assert(resources[r].desc == frame_resource_desc(r, renderer, dims));
            assert(resources[r].origin == frame_resource_origin(r, renderer));
        }
        assert forall|i: int| 0 <= i < writes.len() implies crate::compile::fits(
            resources,
            #[trigger] writes[i],
        ) by {
            let r = frame_pass_writes(j)[i].resource;
            assert(writes[i].handle.resource == r);
            assert(resources[r].desc == frame_resource_desc(r, renderer, dims));
            assert(resources[r].origin == frame_resource_origin(r, renderer));
        }
        crate::compile::lemma_all_fit(resources, reads, 0);
        crate::compile::lemma_all_fit(resources, writes, 0);
    }
    crate::compile::lemma_none_conflicting(resources, passes, 0);
}

/// What a frame has to record.
#[derive(Debug)]
pub struct FramePlan {
    pub frame_idx: u32,
    /// The barrier that brings the distance field into compute-shader writes.
    pub sdf_barrier: Option<Barrier>,
    /// The pipeline that edits the distance field, or clears it on frame 0.
    pub sdf_pipeline: PipelineBind,
    pub sdf_descriptor_set: Option<DescriptorSetBind>,
    pub sdf_frame_constants: Option<FrameConstantsBind>,
    /// The number of work groups along each axis.
    pub dispatch: [u32; 3],
    /// The run of the frame's graph, where one was prepared.
    pub graph: Option<GraphPlan>,
}

/// The run of a frame's graph, and its output.
#[derive(Debug)]
pub struct GraphPlan {
    pub retired: RetiredRenderGraph,
    /// The physical resource that holds the graph's output.
    pub output: ResourceRef,
    /// The barrier that brings the output into shader reads, for the blit to
    /// the swapchain. It is recorded whatever access the output is left in.
    pub output_barrier: Barrier,
}

/// The objects of the scene, by the names that whoever created them gave them.
#[derive(Clone, Copy, Debug, PartialEq, Eq, Structural)]
pub struct RendererObjects {
    pub frame_descriptor_set: u64,
    pub depth_img: u64,
    pub raster_simple_render_pass: u64,
    pub sdf_img: u64,
    pub sdf_img_view: u64,
    pub cube_index_buffer: u64,
}

pub struct Renderer {
    pub pipeline_cache: PipelineCache,
    pub transient_resource_cache: TransientResourceCache,
    pub frame_descriptor_set: u64,
    pub frame_idx: u32,
    pub depth_img: Image,
    pub raster_simple_render_pass: u64,
    pub raster_simple: RasterPipelineHandle,
    pub sdf_img: Image,
    pub sdf_img_view: u64,
    pub gen_empty_sdf: ComputePipelineHandle,
    pub sdf_raymarch_gbuffer: ComputePipelineHandle,
    pub edit_sdf: ComputePipelineHandle,
    pub cube_index_buffer: Buffer,
    pub compiled_rg: Option<CompiledRenderGraph>,
    pub rg_output_tex: Option<ExportedHandle>,
}

/// The number of the frame after frame `frame_idx`; the count wraps round.
pub open spec fn next_frame(frame_idx: u32) -> u32 {
    if frame_idx == u32::MAX {
        0
    } else {
        (frame_idx + 1) as u32
    }
}

/// The pipeline that a frame starts with: the one that clears the distance
/// field on frame 0, the one that edits it on every other frame.
pub open spec fn first_pipeline(renderer: Renderer) -> ComputePipelineHandle {
    if next_frame(renderer.frame_idx) == 0 {
        renderer.gen_empty_sdf
    } else {
        renderer.edit_sdf
    }
}

/// The access the distance field is in when a frame starts: none on frame 0,
/// shader reads after every other frame.
pub open spec fn first_access(frame_idx: u32) -> AccessType {
    if frame_idx == 0 {
        AccessType::Nothing
    } else {
        AccessType::AnyShaderReadSampledImageOrUniformTexelBuffer
    }
}

impl Renderer {
    /// What holds of the driver between calls: its pipelines are registered,
    /// its pool is at rest with every resource free, and where a graph waits to
    /// be run, the output that is kept is an exported resource of it.
    pub open spec fn wf(&self) -> bool {
        &&& self.gen_empty_sdf.0 < self.pipeline_cache@.len()
        &&& self.edit_sdf.0 < self.pipeline_cache@.len()
        &&& self.sdf_raymarch_gbuffer.0 < self.pipeline_cache@.len()
        &&& self.raster_simple.0 < self.pipeline_cache@.len()
        &&& self.sdf_img.desc == sdf_image_desc_of()
        &&& self.cube_index_buffer.desc == (BufferDesc {
            size: 144,
            usage: BUFFER_USAGE_INDEX_BUFFER,
        })
        &&& all_free(self.transient_resource_cache@)
        &&& self.compiled_rg is Some ==> self.compiled_rg->0.wf()
        &&& self.compiled_rg is Some && self.rg_output_tex is Some ==> {
            &&& self.rg_output_tex->0.resource < self.compiled_rg->0.resources@.len()
            &&& self.compiled_rg->0.resources@[self.rg_output_tex->0.resource as int].exported
                is Some
        }
    }

    /// Whether the driver is as `wf` asks.
    pub fn is_well_formed(&self) -> (ok: bool)
        ensures
            ok == self.wf(),
    {
        let registered = self.pipeline_cache.len();
        let graph_ok = match &self.compiled_rg {
            None => true,
            Some(graph) => graph.is_well_formed() && match self.rg_output_tex {
                None => true,
                Some(output) => output.resource < graph.resources.len()
                    && graph.resources[output.resource].exported.is_some(),
            },
        };
        self.gen_empty_sdf.0 < registered && self.edit_sdf.0 < registered
            && self.sdf_raymarch_gbuffer.0 < registered && self.raster_simple.0 < registered
            && self.sdf_img.desc == sdf_image_desc() && self.cube_index_buffer.desc == (BufferDesc {
            size: 144,
            usage: BUFFER_USAGE_INDEX_BUFFER,
        }) && self.transient_resource_cache.is_at_rest() && graph_ok
    }

    /// Sets the driver up for objects that exist already: registers the
    /// pipelines of the scene, none of which is compiled yet, and starts with
    /// an empty pool and no graph. The first frame drawn is frame 0.
    pub fn new(objects: RendererObjects, output_dims: [u32; 2]) -> (renderer: Renderer)
        ensures
            renderer.wf(),
            renderer.frame_idx == u32::MAX,
            renderer.frame_descriptor_set == objects.frame_descriptor_set,
            renderer.depth_img == (Image {
                raw: objects.depth_img,
                desc: depth_image_desc_of(output_dims),
            }),
            renderer.sdf_img == (Image { raw: objects.sdf_img, desc: sdf_image_desc_of() }),
            renderer.sdf_img_view == objects.sdf_img_view,
            renderer.cube_index_buffer.raw == objects.cube_index_buffer,
            renderer.raster_simple_render_pass == objects.raster_simple_render_pass,
            renderer.compiled_rg is None,
            renderer.rg_output_tex is None,
            renderer.transient_resource_cache@.len() == 0,
            renderer.pipeline_cache@.len() == 4,
            forall|i: int| 0 <= i < 4 ==> (#[trigger] renderer.pipeline_cache@[i]).pipeline is None,
            renderer.raster_simple.0 == 0,
            renderer.gen_empty_sdf.0 == 1,
            renderer.edit_sdf.0 == 2,
            renderer.sdf_raymarch_gbuffer.0 == 3,
            renderer.pipeline_cache@[0].key@ == raster_simple_key(objects.raster_simple_render_pass),
            renderer.pipeline_cache@[1].key@ == sdf_key("/assets/shaders/sdf/gen_empty_sdf.hlsl"@),
            renderer.pipeline_cache@[2].key@ == sdf_key("/assets/shaders/sdf/edit_sdf.hlsl"@),
            renderer.pipeline_cache@[3].key@ == sdf_key(
                "/assets/shaders/sdf/sdf_raymarch_gbuffer.hlsl"@,
            ),
    {
        let mut pipeline_cache = PipelineCache::new();
        let shaders = raster_simple_shaders();
        let raster_desc = raster_simple_desc(objects.raster_simple_render_pass);
        proof {
            reveal_strlit("/assets/shaders/sdf/gen_empty_sdf.hlsl");
            reveal_strlit("/assets/shaders/sdf/edit_sdf.hlsl");
            reveal_strlit("/assets/shaders/sdf/sdf_raymarch_gbuffer.hlsl");
            assert(crate::pipeline_cache::override_views(raster_desc.descriptor_set_opts@)
                =~= Seq::<(u32, Seq<Binding>)>::empty());
        }
        let raster_simple = pipeline_cache.register_raster(shaders.as_slice(), &raster_desc);
        let ghost one = pipeline_cache@;
        let desc = sdf_pipeline_desc();
        proof {
            let key = crate::pipeline_cache::compute_key_view(
                "/assets/shaders/sdf/gen_empty_sdf.hlsl"@,
                desc,
            );
            assert(key.bind_point != one[0].key@.bind_point);
            lemma_find_key_is(one, key, 1);
        }
        let gen_empty_sdf = pipeline_cache.register_compute(
            "/assets/shaders/sdf/gen_empty_sdf.hlsl",
            &desc,
        );
        let ghost two = pipeline_cache@;
        let desc = sdf_pipeline_desc();
        proof {
            let key = crate::pipeline_cache::compute_key_view(
                "/assets/shaders/sdf/edit_sdf.hlsl"@,
                desc,
            );
            assert(two[0] == one[0]);
            assert(key.bind_point != two[0].key@.bind_point);
            assert(key.shaders[0].0.len() != two[1].key@.shaders[0].0.len());
            lemma_find_key_is(two, key, 2);
        }
        let edit_sdf = pipeline_cache.register_compute("/assets/shaders/sdf/edit_sdf.hlsl", &desc);
        let ghost three = pipeline_cache@;
        let desc = sdf_pipeline_desc();
        proof {
            let key = crate::pipeline_cache::compute_key_view(
                "/assets/shaders/sdf/sdf_raymarch_gbuffer.hlsl"@,
                desc,
            );
            assert(three[0] == two[0]);
            assert(three[1] == two[1]);
            assert(key.bind_point != three[0].key@.bind_point);
            assert(key.shaders[0].0.len() != three[1].key@.shaders[0].0.len());
            assert(key.shaders[0].0.len() != three[2].key@.shaders[0].0.len());
            lemma_find_key_is(three, key, 3);
        }
        let sdf_raymarch_gbuffer = pipeline_cache.register_compute(
            "/assets/shaders/sdf/sdf_raymarch_gbuffer.hlsl",
            &desc,
        );
        proof {
            assert(pipeline_cache@[0] == three[0]);
            assert(pipeline_cache@[1] == three[1]);
            assert(pipeline_cache@[2] == three[2]);
        }
        Renderer {
            pipeline_cache,
            transient_resource_cache: TransientResourceCache::new(),
            frame_descriptor_set: objects.frame_descriptor_set,
            frame_idx: u32::MAX,
            depth_img: Image { raw: objects.depth_img, desc: depth_image_desc(output_dims) },
            raster_simple_render_pass: objects.raster_simple_render_pass,
            raster_simple,
            sdf_img: Image { raw: objects.sdf_img, desc: sdf_image_desc() },
            sdf_img_view: objects.sdf_img_view,
            gen_empty_sdf,
            sdf_raymarch_gbuffer,
            edit_sdf,
            cube_index_buffer: Buffer {
                raw: objects.cube_index_buffer,
                desc: BufferDesc { size: 144, usage: BUFFER_USAGE_INDEX_BUFFER },
            },
            compiled_rg: None,
            rg_output_tex: None,
        }
    }

    /// What binding the frame's constants for `pipeline` comes to: the driver's
    /// set at `frame_constants_offset` where the pipeline takes them, nothing
    /// where it does not.
    pub fn bind_frame_constants(
        &self,
        pipeline: &ShaderPipelineCommon,
        frame_constants_offset: u32,
    ) -> (bind: Option<FrameConstantsBind>)
        ensures
            bind == (if takes_frame_constants(*pipeline) {
                Some(
                    FrameConstantsBind {
                        bind_point: pipeline.pipeline_bind_point,
                        pipeline_layout: pipeline.pipeline_layout,
                        set_index: 2,
                        descriptor_set: self.frame_descriptor_set,
                        dynamic_offset: frame_constants_offset,
                    },
                )
            } else {
                None
            }),
    {
        frame_constants_bind(pipeline, self.frame_descriptor_set, frame_constants_offset)
    }

    /// Declares the frame's graph in `rg`: the distance field and the cube's
    /// index buffer are imported, depth and colour are cleared, the bricks of
    /// the distance field are found and rasterised, and the blurred colour is
    /// exported for sampling. Where a side of the output is zero nothing is
    /// declared.
    fn prepare_render_graph(&mut self, rg: &mut RenderGraph, dims: [u32; 2]) -> (result: Result<
        (),
        BuildError,
    >)
        requires
            old(self).wf(),
            old(self).compiled_rg is None,
            old(rg).wf(),
        ensures
            final(rg).wf(),
            final(rg).frame_layout() == old(rg).frame_layout(),
            result is Ok <==> dims[0] > 0 && dims[1] > 0,
            result matches Err(error) ==> {
                &&& error == BuildError::MalformedDescriptor
                &&& final(rg).resources() == old(rg).resources()
                &&& final(rg).passes() == old(rg).passes()
                &&& *final(self) == *old(self)
            },
            result is Ok ==> {
                &&& *final(self) == (Renderer {
                    rg_output_tex: Some(
                        ExportedHandle { resource: (old(rg).resources().len() + 6) as usize },
                    ),
                    ..*old(self)
                })
                &&& final(self).wf()
                &&& final(rg).passes().len() == old(rg).passes().len() + 5
                &&& forall|j: int|
                    0 <= j < old(rg).passes().len() ==> final(rg).passes()[j] == old(rg).passes()[j]
                &&& forall|k: int|
                    0 <= k < 5 ==> {
                        &&& uses_match(
                            (#[trigger] final(rg).passes()[old(rg).passes().len() + k]).reads@,
                            frame_pass_reads(k),
                            old(rg).resources().len() as int,
                        )
                        &&& uses_match(
                            final(rg).passes()[old(rg).passes().len() + k].writes@,
                            frame_pass_writes(k),
                            old(rg).resources().len() as int,
                        )
                        &&& is_frame_pass(
                            final(rg).passes()[old(rg).passes().len() + k],
                            k,
                            old(self).raster_simple_render_pass,
                        )
                    }
                &&& final(rg).resources().len() == old(rg).resources().len() + 7
                &&& forall|k: int|
                    0 <= k < 7 ==> {
                        &&& (#[trigger] final(rg).resources()[old(rg).resources().len() + k]).desc
                            == frame_resource_desc(k, *old(self), dims)
                        &&& final(rg).resources()[old(rg).resources().len() + k].origin
                            == frame_resource_origin(k, *old(self))
                        &&& final(rg).resources()[old(rg).resources().len() + k].exported == (if k
                            == 6 {
                            Some(IMAGE_USAGE_SAMPLED)
                        } else {
                            None
                        })
                    }
            },
    {
        if dims[0] == 0 || dims[1] == 0 {
            return Err(BuildError::MalformedDescriptor);
        }
        let ghost n = rg.resources().len() as int;
        let ghost p = rg.passes().len() as int;
        let sdf_img = match rg.import_image(self.sdf_img, AccessType::ComputeShaderWrite) {
            Ok(handle) => handle,
            Err(_) => unreached(),
        };
        let cube_index_buffer = match rg.import_buffer(
            self.cube_index_buffer,
            AccessType::TransferWrite,
        ) {
            Ok(handle) => handle,
            Err(_) => unreached(),
        };
        let depth_img = match rg.create_resource(
            ResourceDesc::Image(ImageDesc::new_2d(FORMAT_D24_UNORM_S8_UINT, dims)),
        ) {
            Ok(handle) => handle,
            Err(_) => unreached(),
        };
        assert(current(rg.resources(), sdf_img));
        assert(current(rg.resources(), cube_index_buffer));
        assert(current(rg.resources(), depth_img));

        // clear depth
        let writes = vec![access(depth_img, AccessType::TransferWrite)];
        let cleared = declare(rg, "clear depth", Vec::new(), writes, None, CALLBACK_CLEAR_DEPTH);
        let depth_img = cleared[0];
        let ghost pass0 = rg.passes()[p];
        assert(is_frame_pass(pass0, 0, self.raster_simple_render_pass));
        assert(uses_match(pass0.reads@, frame_pass_reads(0), n));
        assert(uses_match(pass0.writes@, frame_pass_writes(0), n));
        assert(current(rg.resources(), sdf_img));
        assert(current(rg.resources(), cube_index_buffer));

        // find the bricks of the distance field
        let brick_meta_buffer = match rg.create_resource(
            ResourceDesc::Buffer(BufferDesc { size: BRICK_META_BYTES, usage: 0 }),
        ) {
            Ok(handle) => handle,
            Err(_) => unreached(),
        };
        let brick_inst_buffer = match rg.create_resource(
            ResourceDesc::Buffer(BufferDesc { size: BRICK_INST_BYTES, usage: 0 }),
        ) {
            Ok(handle) => handle,
            Err(_) => unreached(),
        };
        assert(current(rg.resources(), sdf_img));
        assert(current(rg.resources(), cube_index_buffer));
        assert(current(rg.resources(), depth_img));
        assert(current(rg.resources(), brick_meta_buffer));
        let reads = vec![
            access(sdf_img, AccessType::ComputeShaderReadSampledImageOrUniformTexelBuffer),
        ];
        let writes = vec![
            access(brick_meta_buffer, AccessType::ComputeShaderWrite),
            access(brick_inst_buffer, AccessType::ComputeShaderWrite),
        ];
        let find_bricks = PipelineKey::compute(
            "/assets/shaders/sdf/find_bricks.hlsl",
            &ComputePipelineDesc { descriptor_set_opts: Vec::new() },
        );
        assert(find_bricks@.overrides =~= Seq::<(u32, Seq<Binding>)>::empty());
        assert(find_bricks@ == plain_compute_key("/assets/shaders/sdf/find_bricks.hlsl"@));
        let bricks = declare(
            rg,
            "find sdf bricks",
            reads,
            writes,
            Some(find_bricks),
            CALLBACK_FIND_SDF_BRICKS,
        );
        let brick_meta_buffer = bricks[0];
        let brick_inst_buffer = bricks[1];
        let ghost pass1 = rg.passes()[p + 1];
        assert(is_frame_pass(pass1, 1, self.raster_simple_render_pass));
        assert(uses_match(pass1.reads@, frame_pass_reads(1), n));
        assert(uses_match(pass1.writes@, frame_pass_writes(1), n));
        assert(current(rg.resources(), sdf_img));
        assert(current(rg.resources(), cube_index_buffer));
        assert(current(rg.resources(), depth_img));

        // clear colour
        let tex = match rg.create_resource(
            ResourceDesc::Image(ImageDesc::new_2d(FORMAT_R16G16B16A16_SFLOAT, dims)),
        ) {
            Ok(handle) => handle,
            Err(_) => unreached(),
        };
        assert(current(rg.resources(), sdf_img));
        assert(current(rg.resources(), cube_index_buffer));
        assert(current(rg.resources(), depth_img));
        assert(current(rg.resources(), brick_meta_buffer));
        assert(current(rg.resources(), brick_inst_buffer));
        let writes = vec![access(tex, AccessType::TransferWrite)];
        let cleared = declare(rg, "clear color", Vec::new(), writes, None, CALLBACK_CLEAR_COLOR);
        let tex = cleared[0];
        let ghost pass2 = rg.passes()[p + 2];
        assert(is_frame_pass(pass2, 2, self.raster_simple_render_pass));
        assert(uses_match(pass2.reads@, frame_pass_reads(2), n));
        assert(uses_match(pass2.writes@, frame_pass_writes(2), n));
        assert(current(rg.resources(), sdf_img));
        assert(current(rg.resources(), cube_index_buffer));
        assert(current(rg.resources(), depth_img));
        assert(current(rg.resources(), brick_meta_buffer));
        assert(current(rg.resources(), brick_inst_buffer));

        // rasterise the bricks
        let reads = vec![
            access(sdf_img, AccessType::AnyShaderReadSampledImageOrUniformTexelBuffer),
            access(brick_inst_buffer, AccessType::AnyShaderReadOther),
            access(brick_meta_buffer, AccessType::IndirectBuffer),
            access(cube_index_buffer, AccessType::IndexBuffer),
        ];
        let writes = vec![
            access(depth_img, AccessType::DepthStencilAttachmentWrite),
            access(tex, AccessType::ColorAttachmentWrite),
        ];
        let shaders = raster_simple_shaders();
        let raster = PipelineKey::raster(
            shaders.as_slice(),
            &raster_simple_desc(self.raster_simple_render_pass),
        );
        assert(raster@.overrides =~= Seq::<(u32, Seq<Binding>)>::empty());
        assert(raster@ == raster_simple_key(self.raster_simple_render_pass));
        let rastered = declare(rg, "raster sdf", reads, writes, Some(raster), CALLBACK_RASTER_SDF);
        let tex = rastered[1];
        let ghost pass3 = rg.passes()[p + 3];
        assert(is_frame_pass(pass3, 3, self.raster_simple_render_pass));
        assert(uses_match(pass3.reads@, frame_pass_reads(3), n));
        assert(uses_match(pass3.writes@, frame_pass_writes(3), n));

        // blur
        let blurred = match rg.create_resource(
            ResourceDesc::Image(ImageDesc::new_2d(FORMAT_R16G16B16A16_SFLOAT, dims)),
        ) {
            Ok(handle) => handle,
            Err(_) => unreached(),
        };
        assert(current(rg.resources(), tex));
        let reads = vec![
            access(tex, AccessType::ComputeShaderReadSampledImageOrUniformTexelBuffer),
        ];
        let writes = vec![access(blurred, AccessType::ComputeShaderWrite)];
        let blur = PipelineKey::compute(
            "/assets/shaders/blur.hlsl",
            &ComputePipelineDesc { descriptor_set_opts: Vec::new() },
        );
        assert(blur@.overrides =~= Seq::<(u32, Seq<Binding>)>::empty());
        assert(blur@ == plain_compute_key("/assets/shaders/blur.hlsl"@));
        let out = declare(rg, "blur", reads, writes, Some(blur), CALLBACK_BLUR);
        let blurred = out[0];
        let ghost pass4 = rg.passes()[p + 4];
        assert(is_frame_pass(pass4, 4, self.raster_simple_render_pass));
        assert(uses_match(pass4.reads@, frame_pass_reads(4), n));
        assert(uses_match(pass4.writes@, frame_pass_writes(4), n));
        let exported = match rg.export(blurred, IMAGE_USAGE_SAMPLED) {
            Ok(exported) => exported,
            Err(_) => unreached(),
        };
        self.rg_output_tex = Some(exported);
        proof {
            assert(rg.passes()[p] == pass0);
            assert(rg.passes()[p + 1] == pass1);
            assert(rg.passes()[p + 2] == pass2);
            assert(rg.passes()[p + 3] == pass3);
            assert(rg.passes()[p + 4] == pass4);
        }
        Ok(())
    }

    /// Prepares the next frame for an output of `dims` texels: declares its
    /// graph and compiles it, which registers the graph's pipelines. What is
    /// then pending in the cache is to be compiled before the frame is drawn.
    /// Where the graph cannot be declared or does not compile, the driver is
    /// left without a graph.
    pub fn prepare_frame(&mut self, dims: [u32; 2]) -> (result: Result<(), PrepareError>)
        requires
            old(self).wf(),
        ensures
            final(self).wf(),
            final(self).frame_idx == old(self).frame_idx,
            final(self).transient_resource_cache == old(self).transient_resource_cache,
            final(self).sdf_img == old(self).sdf_img,
            final(self).gen_empty_sdf == old(self).gen_empty_sdf,
            final(self).edit_sdf == old(self).edit_sdf,
            final(self).pipeline_cache@.len() >= old(self).pipeline_cache@.len(),
            forall|i: int|
                0 <= i < old(self).pipeline_cache@.len() ==> #[trigger] final(self).pipeline_cache@[i] == old(self).pipeline_cache@[i],
            result matches Err(PrepareError::Build(error)) <==> dims[0] == 0 || dims[1] == 0,
            result matches Err(PrepareError::Build(error)) ==> error
                == BuildError::MalformedDescriptor,
            result is Ok <==> dims[0] > 0 && dims[1] > 0 && old(self).sdf_img.raw != 0 && old(self).cube_index_buffer.raw != 0,
            result matches Err(PrepareError::Compile(error)) ==> error == (
            CompileError::UnresolvedImport {
                resource: if old(self).sdf_img.raw == 0 {
                    0
                } else {
                    1
                },
            }) && final(self).pipeline_cache@ == old(self).pipeline_cache@,
            result is Err ==> final(self).compiled_rg is None && final(self).rg_output_tex is None,
            result is Ok ==> {
                &&& final(self).compiled_rg is Some
                &&& final(self).compiled_rg->0.passes@.len() == 5
                &&& final(self).compiled_rg->0.resources@.len() == 7
                &&& final(self).rg_output_tex == Some(ExportedHandle { resource: 6 })
                &&& forall|k: int|
                    0 <= k < 5 ==> {
                        &&& (#[trigger] final(self).compiled_rg->0.passes@[k]).callback == k
                        &&& final(self).compiled_rg->0.passes@[k].name@ == frame_pass_name(k)
                        &&& uses_match(
                            final(self).compiled_rg->0.passes@[k].accesses@,
                            frame_pass_reads(k) + frame_pass_writes(k),
                            0,
                        )
                        &&& match frame_pass_key(k, old(self).raster_simple_render_pass) {
                            None => final(self).compiled_rg->0.passes@[k].pipeline is None,
                            Some(key) => {
                                &&& final(self).compiled_rg->0.passes@[k].pipeline is Some
                                &&& final(self).compiled_rg->0.passes@[k].pipeline->0 < final(self).pipeline_cache@.len()
                                &&& final(self).pipeline_cache@[final(self).compiled_rg->0.passes@[k].pipeline->0 as int].key@
                                    == with_frame_constants(key)
                            },
                        }
                    }
                &&& forall|k: int|
                    0 <= k < 7 ==> {
                        &&& (#[trigger] final(self).compiled_rg->0.resources@[k]).origin
                            == frame_resource_origin(k, *old(self))
                        &&& final(self).compiled_rg->0.resources@[k].desc.same_shape(
                            &frame_resource_desc(k, *old(self), dims),
                        )
                        &&& k < 2 ==> final(self).compiled_rg->0.resources@[k].desc
                            == frame_resource_desc(k, *old(self), dims)
                        &&& final(self).compiled_rg->0.resources@[k].exported == (if k == 6 {
                            Some(IMAGE_USAGE_SAMPLED)
                        } else {
                            None
                        })
                    }
            },
    {
        self.compiled_rg = None;
        self.rg_output_tex = None;
        let mut rg = RenderGraph::new(Some(frame_constants_layout()));
        match self.prepare_render_graph(&mut rg, dims) {
            Err(error) => {
                return Err(PrepareError::Build(error));
            },
            Ok(_) => {},
        }
        proof {
            let resources = rg.resources();
            assert forall|k: int| 0 <= k < 7 implies (#[trigger] resources[k]).desc
                == frame_resource_desc(k, *self, dims) && resources[k].origin
                == frame_resource_origin(k, *self) by {
                assert(resources[0 + k].desc == frame_resource_desc(k, *self, dims));
            }
            assert forall|k: int| 0 <= k < 5 implies uses_match(
                (#[trigger] rg.passes()[k]).reads@,
                frame_pass_reads(k),
                0,
            ) && uses_match(rg.passes()[k].writes@, frame_pass_writes(k), 0) by {
                assert(uses_match(rg.passes()[0 + k].reads@, frame_pass_reads(k), 0));
            }
            lemma_frame_graph_fits(resources, rg.passes(), *self, dims);
            if self.sdf_img.raw == 0 {
                crate::compile::lemma_first_unresolved_is(resources, 0);
            } else if self.cube_index_buffer.raw == 0 {
                crate::compile::lemma_first_unresolved_is(resources, 1);
            } else {
                crate::compile::lemma_first_unresolved_is(resources, 7);
            }
        }
        let ghost declared = rg.passes();
        let ghost table = rg.resources();
        let ghost layout = rg.frame_layout();
        match rg.compile(&mut self.pipeline_cache) {
            Ok(compiled) => {
                proof {
                    assert forall|k: int| 0 <= k < 5 implies {
                        &&& (#[trigger] compiled.passes@[k]).callback == k
                        &&& compiled.passes@[k].name@ == frame_pass_name(k)
                        &&& uses_match(
                            compiled.passes@[k].accesses@,
                            frame_pass_reads(k) + frame_pass_writes(k),
                            0,
                        )
                        &&& match frame_pass_key(k, old(self).raster_simple_render_pass) {
                            None => compiled.passes@[k].pipeline is None,
                            Some(key) => {
                                &&& compiled.passes@[k].pipeline is Some
                                &&& compiled.passes@[k].pipeline->0 < self.pipeline_cache@.len()
                                &&& self.pipeline_cache@[compiled.passes@[k].pipeline->0 as int].key@
                                    == with_frame_constants(key)
                            },
                        }
                    } by {
                        assert(crate::compile::compiles_to(
                            declared[k],
                            compiled.passes@[k],
                            layout,
                            self.pipeline_cache,
                        ));
                        assert(uses_match(declared[0 + k].reads@, frame_pass_reads(k), 0));
                        assert(uses_match(declared[0 + k].writes@, frame_pass_writes(k), 0));
                        assert(is_frame_pass(
                            declared[0 + k],
                            k,
                            old(self).raster_simple_render_pass,
                        ));
                    }
                    assert forall|k: int| 0 <= k < 7 implies {
                        &&& (#[trigger] compiled.resources@[k]).origin == frame_resource_origin(
                            k,
                            *old(self),
                        )
                        &&& compiled.resources@[k].desc.same_shape(
                            &frame_resource_desc(k, *old(self), dims),
                        )
                        &&& k < 2 ==> compiled.resources@[k].desc == frame_resource_desc(
                            k,
                            *old(self),
                            dims,
                        )
                        &&& compiled.resources@[k].exported == (if k == 6 {
                            Some(IMAGE_USAGE_SAMPLED)
                        } else {
                            None
                        })
                    } by {
                        assert(table[0 + k].origin == frame_resource_origin(k, *old(self)));
                        assert(compiled.resources@[k] == crate::compile::compiled_resource(
                            table[k],
                            k,
                            declared,
                        ));
                    }
                }
                self.compiled_rg = Some(compiled);
                Ok(())
            },
            Err(error) => {
                self.rg_output_tex = None;
                Err(PrepareError::Compile(error))
            },
        }
    }

    /// Works out what frame `next_frame(frame_idx)` has to record. Nothing is
    /// recorded, and the driver is left as it was, where the pipeline that the
    /// frame starts with is not compiled. Else the distance field is brought
    /// into compute-shader writes, from no access on frame 0 and from shader
    /// reads on every other frame; it is cleared on frame 0 and edited on every
    /// other frame, one work group for every four texels along each axis.
    /// Where a graph was prepared it is run on behalf of this frame, its
    /// output is brought into shader reads, and its transient resources go back
    /// to the pool. The graph is used up by the frame.
    pub fn draw_frame(&mut self, frame_constants_offset: u32) -> (plan: Option<FramePlan>)
        requires
            old(self).wf(),
        ensures
            final(self).wf(),
            plan is Some <==> old(self).pipeline_cache@[first_pipeline(*old(self)).0 as int].pipeline
                is Some,
            plan is None ==> *final(self) == *old(self),
            plan matches Some(frame) ==> {
                let shader = old(self).pipeline_cache@[first_pipeline(*old(self)).0 as int].pipeline->0;
                &&& final(self).frame_idx == next_frame(old(self).frame_idx)
                &&& final(self).compiled_rg is None
                &&& final(self).rg_output_tex is None
                &&& final(self).pipeline_cache == old(self).pipeline_cache
                &&& frame.frame_idx == next_frame(old(self).frame_idx)
                &&& frame.sdf_barrier == Some(
                    Barrier::between(
                        ResourceRef::Imported(old(self).sdf_img.raw),
                        IMAGE_ASPECT_COLOR,
                        first_access(next_frame(old(self).frame_idx)),
                        AccessType::ComputeShaderWrite,
                    ),
                )
                &&& frame.sdf_pipeline == (PipelineBind {
                    bind_point: shader.pipeline_bind_point,
                    pipeline: shader.pipeline,
                })
                &&& frame.sdf_descriptor_set is Some <==> 0 < shader.set_layout_info@.len() && 0
                    < shader.descriptor_set_layouts@.len()
                &&& frame.sdf_descriptor_set matches Some(set) ==> {
                    &&& set.set_index == 0
                    &&& set.set_layout == shader.descriptor_set_layouts@[0]
                    &&& set.writes@ == descriptor_writes(
                        shader.set_layout_info@[0]@,
                        seq![
                            DescriptorSetBinding::Image(
                                crate::binding::DescriptorImageInfo {
                                    image_layout: crate::binding::ImageLayout::General,
                                    image_view: old(self).sdf_img_view,
                                },
                            ),
                        ],
                    )
                }
                &&& frame.sdf_frame_constants == (if takes_frame_constants(shader) {
                    Some(
                        FrameConstantsBind {
                            bind_point: shader.pipeline_bind_point,
                            pipeline_layout: shader.pipeline_layout,
                            set_index: 2,
                            descriptor_set: old(self).frame_descriptor_set,
                            dynamic_offset: frame_constants_offset,
                        },
                    )
                } else {
                    None
                })
                &&& frame.dispatch@ == seq![64u32, 64u32, 64u32]
                &&& frame.graph is Some <==> old(self).compiled_rg is Some && old(self).rg_output_tex is Some
                &&& frame.graph matches Some(run) ==> {
                    let generation = next_frame(old(self).frame_idx) as u64;
                    let out = old(self).rg_output_tex->0.resource as int;
                    &&& run.retired.graph == old(self).compiled_rg->0
                    &&& run.retired.generation == generation
                    &&& run.retired.is_run()
                    &&& run.retired.took_from(
                        old(self).transient_resource_cache@,
                        acquired_all(
                            old(self).transient_resource_cache@,
                            transient_descs(run.retired.graph.resources@),
                            generation,
                        ).0,
                    )
                    &&& final(self).transient_resource_cache@ == released(
                        acquired_all(
                            old(self).transient_resource_cache@,
                            transient_descs(run.retired.graph.resources@),
                            generation,
                        ).0,
                        generation,
                    )
                    &&& run.output == run.retired.physical@[out]
                    &&& run.output_barrier == Barrier::between(
                        run.retired.physical@[out],
                        IMAGE_ASPECT_COLOR,
                        run.retired.last_access@[out],
                        AccessType::AnyShaderReadSampledImageOrUniformTexelBuffer,
                    )
                }
                &&& frame.graph is None ==> final(self).transient_resource_cache == old(self).transient_resource_cache
            },
    {
        let next: u32 = if self.frame_idx == u32::MAX {
            0
        } else {
            self.frame_idx + 1
        };
        let handle = if next == 0 {
            self.gen_empty_sdf
        } else {
            self.edit_sdf
        };
        let bindings = vec![image_rw(self.sdf_img_view)];
        assert(bindings@ =~= seq![
            DescriptorSetBinding::Image(
                crate::binding::DescriptorImageInfo {
                    image_layout: crate::binding::ImageLayout::General,
                    image_view: self.sdf_img_view,
                },
            ),
        ]);
        let (sdf_pipeline, sdf_descriptor_set, sdf_frame_constants) =
            match self.pipeline_cache.get_compute(handle) {
            None => {
                return None;
            },
            Some(shader) => (
                bind_pipeline(shader),
                bind_descriptor_set(shader, 0, bindings.as_slice()),
                self.bind_frame_constants(shader, frame_constants_offset),
            ),
        };
        self.frame_idx = next;
        let initial = if next == 0 {
            AccessType::Nothing
        } else {
            AccessType::AnyShaderReadSampledImageOrUniformTexelBuffer
        };
        let mut sdf_img_tracker = LocalImageStateTracker::new(
            ResourceRef::Imported(self.sdf_img.raw),
            IMAGE_ASPECT_COLOR,
            initial,
        );
        let sdf_barrier = sdf_img_tracker.transition(AccessType::ComputeShaderWrite);
        let compiled = self.compiled_rg.take();
        let output = self.rg_output_tex.take();
        let graph = match (compiled, output) {
            (Some(compiled), Some(output)) => {
                proof {
                    lemma_run_then_release_frees(
                        self.transient_resource_cache@,
                        transient_descs(compiled.resources@),
                        next as u64,
                    );
                }
                let retired = compiled.execute(&mut self.transient_resource_cache, next as u64);
                let (resource, last) = match retired.get_image(output) {
                    Some(found) => found,
                    None => unreached(),
                };
                let output_barrier = Barrier::new(
                    resource,
                    last,
                    AccessType::AnyShaderReadSampledImageOrUniformTexelBuffer,
                    IMAGE_ASPECT_COLOR,
                );
                self.transient_resource_cache.release_all(next as u64);
                Some(GraphPlan { retired, output: resource, output_barrier })
            },
            _ => None,
        };
        Some(
            FramePlan {
                frame_idx: next,
                sdf_barrier,
                sdf_pipeline,
                sdf_descriptor_set,
                sdf_frame_constants,
                dispatch: [SDF_DIM / 4, SDF_DIM / 4, SDF_DIM / 4],
                graph,
            },
        )
    }
}

} // verus!
