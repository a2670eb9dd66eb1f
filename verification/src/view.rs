//! The bindings of a descriptor set, by what is bound and how it is used.

use vstd::prelude::*;
use crate::binding::{
    DescriptorBufferInfo, DescriptorImageInfo, DescriptorSetBinding, ImageLayout, WHOLE_SIZE,
};
use crate::resource::Buffer;

verus! {

/// An image view that a shader reads and writes.
pub fn image_rw(view: u64) -> (binding: DescriptorSetBinding)
    ensures
        binding == DescriptorSetBinding::Image(
            DescriptorImageInfo { image_layout: ImageLayout::General, image_view: view },
        ),
{
    DescriptorSetBinding::Image(
        DescriptorImageInfo { image_layout: ImageLayout::General, image_view: view },
    )
}

/// An image view that a shader samples.
pub fn image(view: u64) -> (binding: DescriptorSetBinding)
    ensures
        binding == DescriptorSetBinding::Image(
            DescriptorImageInfo { image_layout: ImageLayout::ShaderReadOnlyOptimal, image_view: view },
        ),
{
    DescriptorSetBinding::Image(
        DescriptorImageInfo { image_layout: ImageLayout::ShaderReadOnlyOptimal, image_view: view },
    )
}

/// The whole of a buffer that a shader reads and writes.
pub fn buffer_rw(source: &Buffer) -> (binding: DescriptorSetBinding)
    ensures
        binding == DescriptorSetBinding::Buffer(
            DescriptorBufferInfo { buffer: source.raw, offset: 0, range: WHOLE_SIZE },
        ),
{
    DescriptorSetBinding::Buffer(
        DescriptorBufferInfo { buffer: source.raw, offset: 0, range: WHOLE_SIZE },
    )
}

/// The whole of a buffer that a shader reads.
pub fn buffer(source: &Buffer) -> (binding: DescriptorSetBinding)
    ensures
        binding == DescriptorSetBinding::Buffer(
            DescriptorBufferInfo { buffer: source.raw, offset: 0, range: WHOLE_SIZE },
        ),
{
    DescriptorSetBinding::Buffer(
        DescriptorBufferInfo { buffer: source.raw, offset: 0, range: WHOLE_SIZE },
    )
}

} // verus!
