//! Which usage flags a resource has to be created with for a pass to use it in
//! a given way.

use vstd::prelude::*;
use crate::resource::{
    ResourceDesc, BUFFER_USAGE_INDEX_BUFFER, BUFFER_USAGE_INDIRECT_BUFFER,
    BUFFER_USAGE_STORAGE_BUFFER, BUFFER_USAGE_TRANSFER_DST, BUFFER_USAGE_TRANSFER_SRC,
    BUFFER_USAGE_UNIFORM_BUFFER, BUFFER_USAGE_VERTEX_BUFFER, IMAGE_USAGE_COLOR_ATTACHMENT,
    IMAGE_USAGE_DEPTH_STENCIL_ATTACHMENT, IMAGE_USAGE_SAMPLED, IMAGE_USAGE_STORAGE,
    IMAGE_USAGE_TRANSFER_DST, IMAGE_USAGE_TRANSFER_SRC,
};
use vk_sync::AccessType;

verus! {

pub const IMAGE_USAGE_INPUT_ATTACHMENT: u32 = 0x80;
pub const BUFFER_USAGE_UNIFORM_TEXEL_BUFFER: u32 = 0x4;

/// The usage flags an image needs for `access`, or `None` where an image
/// cannot be used that way.
pub open spec fn image_usage_for(access: AccessType) -> Option<u32> {
    match access {
        AccessType::Nothing
        | AccessType::HostRead
        | AccessType::HostWrite
        | AccessType::Present
        | AccessType::General => Some(0u32),
        AccessType::VertexShaderReadSampledImageOrUniformTexelBuffer
        | AccessType::TessellationControlShaderReadSampledImageOrUniformTexelBuffer
        | AccessType::TessellationEvaluationShaderReadSampledImageOrUniformTexelBuffer
        | AccessType::GeometryShaderReadSampledImageOrUniformTexelBuffer
        | AccessType::FragmentShaderReadSampledImageOrUniformTexelBuffer
        | AccessType::ComputeShaderReadSampledImageOrUniformTexelBuffer
        | AccessType::AnyShaderReadSampledImageOrUniformTexelBuffer => Some(IMAGE_USAGE_SAMPLED),
        AccessType::VertexShaderReadOther
        | AccessType::TessellationControlShaderReadOther
        | AccessType::TessellationEvaluationShaderReadOther
        | AccessType::GeometryShaderReadOther
        | AccessType::FragmentShaderReadOther
        | AccessType::ComputeShaderReadOther
        | AccessType::AnyShaderReadOther
        | AccessType::VertexShaderWrite
        | AccessType::TessellationControlShaderWrite
        | AccessType::TessellationEvaluationShaderWrite
        | AccessType::GeometryShaderWrite
        | AccessType::FragmentShaderWrite
        | AccessType::ComputeShaderWrite
        | AccessType::AnyShaderWrite => Some(IMAGE_USAGE_STORAGE),
        AccessType::FragmentShaderReadColorInputAttachment
        | AccessType::FragmentShaderReadDepthStencilInputAttachment => Some(
            IMAGE_USAGE_INPUT_ATTACHMENT,
        ),
        AccessType::ColorAttachmentRead
        | AccessType::ColorAttachmentWrite
        | AccessType::ColorAttachmentReadWrite => Some(IMAGE_USAGE_COLOR_ATTACHMENT),
        AccessType::DepthStencilAttachmentRead
        | AccessType::DepthStencilAttachmentWrite
        | AccessType::DepthAttachmentWriteStencilReadOnly
        | AccessType::StencilAttachmentWriteDepthReadOnly => Some(
            IMAGE_USAGE_DEPTH_STENCIL_ATTACHMENT,
        ),
        AccessType::TransferRead => Some(IMAGE_USAGE_TRANSFER_SRC),
        AccessType::TransferWrite => Some(IMAGE_USAGE_TRANSFER_DST),
        _ => None,
    }
}

/// The usage flags a buffer needs for `access`, or `None` where a buffer
/// cannot be used that way.
pub open spec fn buffer_usage_for(access: AccessType) -> Option<u32> {
    match access {
        AccessType::Nothing
        | AccessType::HostRead
        | AccessType::HostWrite
        | AccessType::General
        | AccessType::CommandBufferReadNVX
        | AccessType::CommandBufferWriteNVX => Some(0u32),
        AccessType::IndirectBuffer => Some(BUFFER_USAGE_INDIRECT_BUFFER),
        AccessType::IndexBuffer => Some(BUFFER_USAGE_INDEX_BUFFER),
        AccessType::VertexBuffer => Some(BUFFER_USAGE_VERTEX_BUFFER),
        AccessType::VertexShaderReadUniformBuffer
        | AccessType::TessellationControlShaderReadUniformBuffer
        | AccessType::TessellationEvaluationShaderReadUniformBuffer
        | AccessType::GeometryShaderReadUniformBuffer
        | AccessType::FragmentShaderReadUniformBuffer
        | AccessType::ComputeShaderReadUniformBuffer
        | AccessType::AnyShaderReadUniformBuffer => Some(BUFFER_USAGE_UNIFORM_BUFFER),
        AccessType::AnyShaderReadUniformBufferOrVertexBuffer => Some(
            BUFFER_USAGE_UNIFORM_BUFFER | BUFFER_USAGE_VERTEX_BUFFER,
        ),
        AccessType::VertexShaderReadSampledImageOrUniformTexelBuffer
        | AccessType::TessellationControlShaderReadSampledImageOrUniformTexelBuffer
        | AccessType::TessellationEvaluationShaderReadSampledImageOrUniformTexelBuffer
        | AccessType::GeometryShaderReadSampledImageOrUniformTexelBuffer
        | AccessType::FragmentShaderReadSampledImageOrUniformTexelBuffer
        | AccessType::ComputeShaderReadSampledImageOrUniformTexelBuffer
        | AccessType::AnyShaderReadSampledImageOrUniformTexelBuffer => Some(
            BUFFER_USAGE_UNIFORM_TEXEL_BUFFER,
        ),
        AccessType::VertexShaderReadOther
        | AccessType::TessellationControlShaderReadOther
        | AccessType::TessellationEvaluationShaderReadOther
        | AccessType::GeometryShaderReadOther
        | AccessType::FragmentShaderReadOther
        | AccessType::ComputeShaderReadOther
        | AccessType::AnyShaderReadOther
        | AccessType::VertexShaderWrite
        | AccessType::TessellationControlShaderWrite
        | AccessType::TessellationEvaluationShaderWrite
        | AccessType::GeometryShaderWrite
        | AccessType::FragmentShaderWrite
        | AccessType::ComputeShaderWrite
        | AccessType::AnyShaderWrite => Some(BUFFER_USAGE_STORAGE_BUFFER),
        AccessType::TransferRead => Some(BUFFER_USAGE_TRANSFER_SRC),
        AccessType::TransferWrite => Some(BUFFER_USAGE_TRANSFER_DST),
        _ => None,
    }
}

/// The usage flags a resource of this descriptor needs for `access`, or `None`
/// where its kind cannot be used that way.
pub open spec fn required_usage(desc: ResourceDesc, access: AccessType) -> Option<u32> {
    match desc {
        ResourceDesc::Image(_) => image_usage_for(access),
        ResourceDesc::Buffer(_) => buffer_usage_for(access),
    }
}

pub fn image_usage(access: AccessType) -> (usage: Option<u32>)
    ensures
        usage == image_usage_for(access),
{
    match access {
        AccessType::Nothing
        | AccessType::HostRead
        | AccessType::HostWrite
        | AccessType::Present
        | AccessType::General => Some(0u32),
        AccessType::VertexShaderReadSampledImageOrUniformTexelBuffer
        | AccessType::TessellationControlShaderReadSampledImageOrUniformTexelBuffer
        | AccessType::TessellationEvaluationShaderReadSampledImageOrUniformTexelBuffer
        | AccessType::GeometryShaderReadSampledImageOrUniformTexelBuffer
        | AccessType::FragmentShaderReadSampledImageOrUniformTexelBuffer
        | AccessType::ComputeShaderReadSampledImageOrUniformTexelBuffer
        | AccessType::AnyShaderReadSampledImageOrUniformTexelBuffer => Some(IMAGE_USAGE_SAMPLED),
        AccessType::VertexShaderReadOther
        | AccessType::TessellationControlShaderReadOther
        | AccessType::TessellationEvaluationShaderReadOther
        | AccessType::GeometryShaderReadOther
        | AccessType::FragmentShaderReadOther
        | AccessType::ComputeShaderReadOther
        | AccessType::AnyShaderReadOther
        | AccessType::VertexShaderWrite
        | AccessType::TessellationControlShaderWrite
        | AccessType::TessellationEvaluationShaderWrite
        | AccessType::GeometryShaderWrite
        | AccessType::FragmentShaderWrite
        | AccessType::ComputeShaderWrite
        | AccessType::AnyShaderWrite => Some(IMAGE_USAGE_STORAGE),
        AccessType::FragmentShaderReadColorInputAttachment
        | AccessType::FragmentShaderReadDepthStencilInputAttachment => Some(
            IMAGE_USAGE_INPUT_ATTACHMENT,
        ),
        AccessType::ColorAttachmentRead
        | AccessType::ColorAttachmentWrite
        | AccessType::ColorAttachmentReadWrite => Some(IMAGE_USAGE_COLOR_ATTACHMENT),
        AccessType::DepthStencilAttachmentRead
        | AccessType::DepthStencilAttachmentWrite
        | AccessType::DepthAttachmentWriteStencilReadOnly
        | AccessType::StencilAttachmentWriteDepthReadOnly => Some(
            IMAGE_USAGE_DEPTH_STENCIL_ATTACHMENT,
        ),
        AccessType::TransferRead => Some(IMAGE_USAGE_TRANSFER_SRC),
        AccessType::TransferWrite => Some(IMAGE_USAGE_TRANSFER_DST),
        _ => None,
    }
}

pub fn buffer_usage(access: AccessType) -> (usage: Option<u32>)
    ensures
        usage == buffer_usage_for(access),
{
    match access {
        AccessType::Nothing
        | AccessType::HostRead
        | AccessType::HostWrite
        | AccessType::General
        | AccessType::CommandBufferReadNVX
        | AccessType::CommandBufferWriteNVX => Some(0u32),
        AccessType::IndirectBuffer => Some(BUFFER_USAGE_INDIRECT_BUFFER),
        AccessType::IndexBuffer => Some(BUFFER_USAGE_INDEX_BUFFER),
        AccessType::VertexBuffer => Some(BUFFER_USAGE_VERTEX_BUFFER),
        AccessType::VertexShaderReadUniformBuffer
        | AccessType::TessellationControlShaderReadUniformBuffer
        | AccessType::TessellationEvaluationShaderReadUniformBuffer
        | AccessType::GeometryShaderReadUniformBuffer
        | AccessType::FragmentShaderReadUniformBuffer
        | AccessType::ComputeShaderReadUniformBuffer
        | AccessType::AnyShaderReadUniformBuffer => Some(BUFFER_USAGE_UNIFORM_BUFFER),
        AccessType::AnyShaderReadUniformBufferOrVertexBuffer => Some(
            BUFFER_USAGE_UNIFORM_BUFFER | BUFFER_USAGE_VERTEX_BUFFER,
        ),
        AccessType::VertexShaderReadSampledImageOrUniformTexelBuffer
        | AccessType::TessellationControlShaderReadSampledImageOrUniformTexelBuffer
        | AccessType::TessellationEvaluationShaderReadSampledImageOrUniformTexelBuffer
        | AccessType::GeometryShaderReadSampledImageOrUniformTexelBuffer
        | AccessType::FragmentShaderReadSampledImageOrUniformTexelBuffer
        | AccessType::ComputeShaderReadSampledImageOrUniformTexelBuffer
        | AccessType::AnyShaderReadSampledImageOrUniformTexelBuffer => Some(
            BUFFER_USAGE_UNIFORM_TEXEL_BUFFER,
        ),
        AccessType::VertexShaderReadOther
        | AccessType::TessellationControlShaderReadOther
        | AccessType::TessellationEvaluationShaderReadOther
        | AccessType::GeometryShaderReadOther
        | AccessType::FragmentShaderReadOther
        | AccessType::ComputeShaderReadOther
        | AccessType::AnyShaderReadOther
        | AccessType::VertexShaderWrite
        | AccessType::TessellationControlShaderWrite
        | AccessType::TessellationEvaluationShaderWrite
        | AccessType::GeometryShaderWrite
        | AccessType::FragmentShaderWrite
        | AccessType::ComputeShaderWrite
        | AccessType::AnyShaderWrite => Some(BUFFER_USAGE_STORAGE_BUFFER),
        AccessType::TransferRead => Some(BUFFER_USAGE_TRANSFER_SRC),
        AccessType::TransferWrite => Some(BUFFER_USAGE_TRANSFER_DST),
        _ => None,
    }
}

/// The usage flags a resource of this descriptor needs for `access`.
pub fn usage_needed(desc: &ResourceDesc, access: AccessType) -> (usage: Option<u32>)
    ensures
        usage == required_usage(*desc, access),
{
    match desc {
        ResourceDesc::Image(_) => image_usage(access),
        ResourceDesc::Buffer(_) => buffer_usage(access),
    }
}

} // verus!
