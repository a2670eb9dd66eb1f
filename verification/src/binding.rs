//! What to bind before a pass records its commands: the pipeline, the
//! descriptor sets that the shader has, and the frame's constants.
//!
//! Nothing is bound here. Each function works out what the binding comes to, as
//! a plain value, from the layout that the compiled pipeline exposes.

use vstd::prelude::*;
use crate::compile::FRAME_CONSTANTS_SET;
use crate::layout::{
    has_binding, Binding, DESCRIPTOR_TYPE_SAMPLED_IMAGE, DESCRIPTOR_TYPE_STORAGE_BUFFER,
    DESCRIPTOR_TYPE_STORAGE_IMAGE,
};
use crate::pipeline_cache::{DescriptorPoolSize, PipelineBindPoint, ShaderPipelineCommon};

verus! {

/// Stands for the whole of a buffer, from the offset on.
pub const WHOLE_SIZE: u64 = 0xFFFF_FFFF_FFFF_FFFF;

/// The layout an image is in when a shader gets at it.
#[derive(Clone, Copy, Debug, PartialEq, Eq, Structural)]
pub enum ImageLayout {
    General,
    ShaderReadOnlyOptimal,
}

#[derive(Clone, Copy, Debug, PartialEq, Eq, Structural)]
pub struct DescriptorImageInfo {
    pub image_layout: ImageLayout,
    pub image_view: u64,
}

#[derive(Clone, Copy, Debug, PartialEq, Eq, Structural)]
pub struct DescriptorBufferInfo {
    pub buffer: u64,
    pub offset: u64,
    pub range: u64,
}

/// What is bound at one binding of a set.
#[derive(Clone, Copy, Debug, PartialEq, Eq, Structural)]
pub enum DescriptorSetBinding {
    Image(DescriptorImageInfo),
    Buffer(DescriptorBufferInfo),
}

/// One descriptor to write into a set.
#[derive(Clone, Copy, Debug, PartialEq, Eq, Structural)]
pub struct DescriptorWrite {
    pub binding: u32,
    pub descriptor_type: u32,
    pub info: DescriptorSetBinding,
}

/// A pipeline to bind.
#[derive(Clone, Copy, Debug, PartialEq, Eq, Structural)]
pub struct PipelineBind {
    pub bind_point: PipelineBindPoint,
    pub pipeline: u64,
}

/// A descriptor set to allocate, fill and bind.
#[derive(Debug)]
pub struct DescriptorSetBind {
    pub bind_point: PipelineBindPoint,
    pub pipeline_layout: u64,
    pub set_index: u32,
    /// The layout to allocate the set with.
    pub set_layout: u64,
    /// The sizes of the pool to allocate it from.
    pub pool_sizes: Vec<DescriptorPoolSize>,
    pub writes: Vec<DescriptorWrite>,
}

/// The set of the frame's constants, to bind at an offset.
#[derive(Clone, Copy, Debug, PartialEq, Eq, Structural)]
pub struct FrameConstantsBind {
    pub bind_point: PipelineBindPoint,
    pub pipeline_layout: u64,
    pub set_index: u32,
    pub descriptor_set: u64,
    pub dynamic_offset: u32,
}

/// The descriptor type that a binding is written as: a sampled image or a
/// storage image by the layout of the image, a storage buffer for a buffer.
pub open spec fn descriptor_type_of(binding: DescriptorSetBinding) -> u32 {
    match binding {
        DescriptorSetBinding::Image(image) => match image.image_layout {
            ImageLayout::ShaderReadOnlyOptimal => DESCRIPTOR_TYPE_SAMPLED_IMAGE,
            ImageLayout::General => DESCRIPTOR_TYPE_STORAGE_IMAGE,
        },
        DescriptorSetBinding::Buffer(_) => DESCRIPTOR_TYPE_STORAGE_BUFFER,
    }
}

/// The writes for `bindings`, where binding number `i` is entry `i`: one for
/// each entry whose number the shader's set has, in order, and none for the
/// others.
pub open spec fn descriptor_writes(set: Seq<Binding>, bindings: Seq<DescriptorSetBinding>) -> Seq<
    DescriptorWrite,
>
    decreases bindings.len(),
{
    if bindings.len() == 0 {
        Seq::empty()
    } else {
        let before = descriptor_writes(set, bindings.drop_last());
        let number = bindings.len() - 1;
        if number <= u32::MAX && has_binding(set, number as u32) {
            before.push(
                DescriptorWrite {
                    binding: number as u32,
                    descriptor_type: descriptor_type_of(bindings.last()),
                    info: bindings.last(),
                },
            )
        } else {
            before
        }
    }
}

/// Every write is for a binding that the set has, and there are no more writes
/// than bindings.
pub proof fn lemma_descriptor_writes(set: Seq<Binding>, bindings: Seq<DescriptorSetBinding>)
    ensures
        descriptor_writes(set, bindings).len() <= bindings.len(),
        forall|k: int|
            0 <= k < descriptor_writes(set, bindings).len() ==> {
                let write = #[trigger] descriptor_writes(set, bindings)[k];
                &&& has_binding(set, write.binding)
                &&& write.binding < bindings.len()
                &&& write.info == bindings[write.binding as int]
                &&& write.descriptor_type == descriptor_type_of(write.info)
            },
    decreases bindings.len(),
{
    if bindings.len() > 0 {
        lemma_descriptor_writes(set, bindings.drop_last());
    }
}

/// The pipeline to bind for `shader`.
pub fn bind_pipeline(shader: &ShaderPipelineCommon) -> (bind: PipelineBind)
    ensures
        bind == (PipelineBind { bind_point: shader.pipeline_bind_point, pipeline: shader.pipeline }),
{
    PipelineBind { bind_point: shader.pipeline_bind_point, pipeline: shader.pipeline }
}

/// What binding `bindings` as set `set_index` of `pipeline` comes to. Nothing
/// is bound where the pipeline has no such set. Else the set is allocated with
/// the pipeline's layout for it, and a descriptor is written for each entry of
/// `bindings` whose number the shader's set has; the entries that the shader
/// does not use are passed over.
pub fn bind_descriptor_set(
    pipeline: &ShaderPipelineCommon,
    set_index: u32,
    bindings: &[DescriptorSetBinding],
) -> (bind: Option<DescriptorSetBind>)
    ensures
        bind is Some <==> set_index < pipeline.set_layout_info@.len() && set_index
            < pipeline.descriptor_set_layouts@.len(),
        bind matches Some(set) ==> {
            &&& set.bind_point == pipeline.pipeline_bind_point
            &&& set.pipeline_layout == pipeline.pipeline_layout
            &&& set.set_index == set_index
            &&& set.set_layout == pipeline.descriptor_set_layouts@[set_index as int]
            &&& set.pool_sizes@ == pipeline.descriptor_pool_sizes@
            &&& set.writes@ == descriptor_writes(
                pipeline.set_layout_info@[set_index as int]@,
                bindings@,
            )
        },
{
    let set = set_index as usize;
    if set >= pipeline.set_layout_info.len() || set >= pipeline.descriptor_set_layouts.len() {
        return None;
    }
    let shader_set_info = &pipeline.set_layout_info[set];
    let mut writes: Vec<DescriptorWrite> = Vec::new();
    let mut i: usize = 0;
    while i < bindings.len()
        invariant
            i <= bindings.len(),
            writes@ == descriptor_writes(shader_set_info@, bindings@.take(i as int)),
        decreases bindings.len() - i,
    {
        proof {
            assert(bindings@.take(i + 1).drop_last() =~= bindings@.take(i as int));
        }
        if i <= 0xFFFF_FFFF && shader_set_info.contains_key(i as u32) {
            let descriptor_type = match bindings[i] {
                DescriptorSetBinding::Image(image) => match image.image_layout {
                    ImageLayout::ShaderReadOnlyOptimal => DESCRIPTOR_TYPE_SAMPLED_IMAGE,
                    ImageLayout::General => DESCRIPTOR_TYPE_STORAGE_IMAGE,
                },
                DescriptorSetBinding::Buffer(_) => DESCRIPTOR_TYPE_STORAGE_BUFFER,
            };
            writes.push(DescriptorWrite { binding: i as u32, descriptor_type, info: bindings[i] });
        }
        i += 1;
    }
    assert(bindings@.take(i as int) =~= bindings@);
    let mut pool_sizes: Vec<DescriptorPoolSize> = Vec::new();
    let mut k: usize = 0;
    while k < pipeline.descriptor_pool_sizes.len()
        invariant
            k <= pipeline.descriptor_pool_sizes.len(),
            pool_sizes@ == pipeline.descriptor_pool_sizes@.take(k as int),
        decreases pipeline.descriptor_pool_sizes.len() - k,
    {
        pool_sizes.push(pipeline.descriptor_pool_sizes[k]);
        assert(pool_sizes@ =~= pipeline.descriptor_pool_sizes@.take(k + 1));
        k += 1;
    }
    assert(pipeline.descriptor_pool_sizes@.take(k as int) =~= pipeline.descriptor_pool_sizes@);
    Some(
        DescriptorSetBind {
            bind_point: pipeline.pipeline_bind_point,
            pipeline_layout: pipeline.pipeline_layout,
            set_index,
            set_layout: pipeline.descriptor_set_layouts[set],
            pool_sizes,
            writes,
        },
    )
}

/// Whether the pipeline takes the frame's constants: it has their set, and the
/// set is not empty.
pub open spec fn takes_frame_constants(pipeline: ShaderPipelineCommon) -> bool {
    FRAME_CONSTANTS_SET < pipeline.set_layout_info@.len()
        && pipeline.set_layout_info@[FRAME_CONSTANTS_SET as int]@.len() > 0
}

/// What binding the frame's constants for `pipeline` comes to: their set, at
/// the offset of this frame's values, where the pipeline takes them, and
/// nothing where it does not.
pub fn frame_constants_bind(
    pipeline: &ShaderPipelineCommon,
    frame_descriptor_set: u64,
    frame_constants_offset: u32,
) -> (bind: Option<FrameConstantsBind>)
    ensures
        bind == (if takes_frame_constants(*pipeline) {
            Some(
                FrameConstantsBind {
                    bind_point: pipeline.pipeline_bind_point,
                    pipeline_layout: pipeline.pipeline_layout,
                    set_index: FRAME_CONSTANTS_SET,
                    descriptor_set: frame_descriptor_set,
                    dynamic_offset: frame_constants_offset,
                },
            )
        } else {
            None
        }),
{
    if pipeline.set_layout_info.len() > 2 && !pipeline.set_layout_info[2].is_empty() {
        Some(
            FrameConstantsBind {
                bind_point: pipeline.pipeline_bind_point,
                pipeline_layout: pipeline.pipeline_layout,
                set_index: FRAME_CONSTANTS_SET,
                descriptor_set: frame_descriptor_set,
                dynamic_offset: frame_constants_offset,
            },
        )
    } else {
        None
    }
}

} // verus!
