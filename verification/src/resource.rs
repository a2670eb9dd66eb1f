//! Descriptors of images and buffers, and the usage flags they are created with.

use vstd::prelude::*;

verus! {

pub const IMAGE_USAGE_TRANSFER_SRC: u32 = 0x1;
pub const IMAGE_USAGE_TRANSFER_DST: u32 = 0x2;
pub const IMAGE_USAGE_SAMPLED: u32 = 0x4;
pub const IMAGE_USAGE_STORAGE: u32 = 0x8;
pub const IMAGE_USAGE_COLOR_ATTACHMENT: u32 = 0x10;
pub const IMAGE_USAGE_DEPTH_STENCIL_ATTACHMENT: u32 = 0x20;

pub const BUFFER_USAGE_TRANSFER_SRC: u32 = 0x1;
pub const BUFFER_USAGE_TRANSFER_DST: u32 = 0x2;
pub const BUFFER_USAGE_UNIFORM_BUFFER: u32 = 0x10;
pub const BUFFER_USAGE_STORAGE_BUFFER: u32 = 0x20;
pub const BUFFER_USAGE_INDEX_BUFFER: u32 = 0x40;
pub const BUFFER_USAGE_VERTEX_BUFFER: u32 = 0x80;
pub const BUFFER_USAGE_INDIRECT_BUFFER: u32 = 0x100;

pub const FORMAT_R16_SFLOAT: i32 = 76;
pub const FORMAT_R16G16B16A16_SFLOAT: i32 = 97;
pub const FORMAT_D24_UNORM_S8_UINT: i32 = 129;

pub const IMAGE_ASPECT_COLOR: u32 = 0x1;
pub const IMAGE_ASPECT_DEPTH: u32 = 0x2;
pub const IMAGE_ASPECT_STENCIL: u32 = 0x4;

/// Every flag of `needed` is also set in `have`.
pub open spec fn usage_covers(have: u32, needed: u32) -> bool {
    have & needed == needed
}

/// Flags cover themselves.
pub proof fn lemma_usage_covers_itself(usage: u32)
    ensures
        usage_covers(usage, usage),
{
    assert(usage & usage == usage) by (bit_vector);
}

/// A union covers both of its parts.
pub proof fn lemma_union_covers_parts(a: u32, b: u32)
    ensures
        usage_covers(a | b, a),
        usage_covers(a | b, b),
{
    assert((a | b) & a == a) by (bit_vector);
    assert((a | b) & b == b) by (bit_vector);
}

/// Covering carries over: what covers `b` covers all that `b` covers.
pub proof fn lemma_covers_transitive(a: u32, b: u32, c: u32)
    requires
        usage_covers(a, b),
        usage_covers(b, c),
    ensures
        usage_covers(a, c),
{
    assert((a & b == b && b & c == c) ==> a & c == c) by (bit_vector);
}

#[derive(Clone, Copy, Debug, PartialEq, Eq, Structural)]
pub enum ImageType {
    Tex2d,
    Tex3d,
}

/// What an image is created with.
#[derive(Clone, Copy, Debug, PartialEq, Eq, Structural)]
pub struct ImageDesc {
    pub image_type: ImageType,
    pub format: i32,
    pub width: u32,
    pub height: u32,
    pub depth: u32,
    pub usage: u32,
}

impl ImageDesc {
    /// A two-dimensional image of `dims[0]` by `dims[1]` texels, no usage yet.
    pub fn new_2d(format: i32, dims: [u32; 2]) -> (desc: ImageDesc)
        ensures
            desc == (ImageDesc {
                image_type: ImageType::Tex2d,
                format,
                width: dims[0],
                height: dims[1],
                depth: 1,
                usage: 0,
            }),
    {
        ImageDesc {
            image_type: ImageType::Tex2d,
            format,
            width: dims[0],
            height: dims[1],
            depth: 1,
            usage: 0,
        }
    }

    /// A volume of `dims[0]` by `dims[1]` by `dims[2]` texels, no usage yet.
    pub fn new_3d(format: i32, dims: [u32; 3]) -> (desc: ImageDesc)
        ensures
            desc == (ImageDesc {
                image_type: ImageType::Tex3d,
                format,
                width: dims[0],
                height: dims[1],
                depth: dims[2],
                usage: 0,
            }),
    {
        ImageDesc {
            image_type: ImageType::Tex3d,
            format,
            width: dims[0],
            height: dims[1],
            depth: dims[2],
            usage: 0,
        }
    }

    /// The same image with `usage` as its usage flags.
    pub fn usage(self, usage: u32) -> (desc: ImageDesc)
        ensures
            desc == (ImageDesc { usage, ..self }),
    {
        ImageDesc { usage, ..self }
    }

    /// No extent is zero, and a two-dimensional image is one texel deep.
    pub open spec fn well_formed(&self) -> bool {
        &&& self.width > 0
        &&& self.height > 0
        &&& self.depth > 0
        &&& self.image_type == ImageType::Tex2d ==> self.depth == 1
    }

    /// Same type, format and extent.
    pub open spec fn same_shape(&self, other: &ImageDesc) -> bool {
        &&& self.image_type == other.image_type
        &&& self.format == other.format
        &&& self.width == other.width
        &&& self.height == other.height
        &&& self.depth == other.depth
    }
}

/// What a buffer is created with.
#[derive(Clone, Copy, Debug, PartialEq, Eq, Structural)]
pub struct BufferDesc {
    pub size: usize,
    pub usage: u32,
}

/// An image that exists: the caller's name for it, and what it was created
/// with.
#[derive(Clone, Copy, Debug, PartialEq, Eq, Structural)]
pub struct Image {
    pub raw: u64,
    pub desc: ImageDesc,
}

/// A buffer that exists: the caller's name for it, and what it was created
/// with.
#[derive(Clone, Copy, Debug, PartialEq, Eq, Structural)]
pub struct Buffer {
    pub raw: u64,
    pub desc: BufferDesc,
}

/// What a resource of either kind is created with.
#[derive(Clone, Copy, Debug, PartialEq, Eq, Structural)]
pub enum ResourceDesc {
    Image(ImageDesc),
    Buffer(BufferDesc),
}

impl ResourceDesc {
    pub open spec fn usage(&self) -> u32 {
        match *self {
            ResourceDesc::Image(image) => image.usage,
            ResourceDesc::Buffer(buffer) => buffer.usage,
        }
    }

    /// The descriptor with other usage flags.
    pub open spec fn with_usage(&self, usage: u32) -> ResourceDesc {
        match *self {
            ResourceDesc::Image(image) => ResourceDesc::Image(ImageDesc { usage, ..image }),
            ResourceDesc::Buffer(buffer) => ResourceDesc::Buffer(BufferDesc { usage, ..buffer }),
        }
    }

    /// An image with no zero extent, or a buffer that is not empty.
    pub open spec fn well_formed(&self) -> bool {
        match *self {
            ResourceDesc::Image(image) => image.well_formed(),
            ResourceDesc::Buffer(buffer) => buffer.size > 0,
        }
    }

    /// Same kind and same shape, whatever the usage.
    pub open spec fn same_shape(&self, other: &ResourceDesc) -> bool {
        match (*self, *other) {
            (ResourceDesc::Image(a), ResourceDesc::Image(b)) => a.same_shape(&b),
            (ResourceDesc::Buffer(a), ResourceDesc::Buffer(b)) => a.size == b.size,
            _ => false,
        }
    }

    /// A resource made with `self` can stand in where `wanted` is asked for:
    /// the shape is the same and every wanted usage flag is there.
    pub open spec fn satisfies(&self, wanted: &ResourceDesc) -> bool {
        self.same_shape(wanted) && usage_covers(self.usage(), wanted.usage())
    }

    pub fn get_usage(&self) -> (usage: u32)
        ensures
            usage == self.usage(),
    {
        match self {
            ResourceDesc::Image(image) => image.usage,
            ResourceDesc::Buffer(buffer) => buffer.usage,
        }
    }

    pub fn set_usage(&self, usage: u32) -> (desc: ResourceDesc)
        ensures
            desc == self.with_usage(usage),
    {
        match self {
            ResourceDesc::Image(image) => ResourceDesc::Image(ImageDesc { usage, ..*image }),
            ResourceDesc::Buffer(buffer) => ResourceDesc::Buffer(
                BufferDesc { usage, ..*buffer },
            ),
        }
    }

    pub fn is_well_formed(&self) -> (ok: bool)
        ensures
            ok == self.well_formed(),
    {
        match self {
            ResourceDesc::Image(image) => {
                image.width > 0 && image.height > 0 && image.depth > 0 && (match image.image_type {
                    ImageType::Tex2d => image.depth == 1,
                    ImageType::Tex3d => true,
                })
            },
            ResourceDesc::Buffer(buffer) => buffer.size > 0,
        }
    }

    pub fn can_stand_in_for(&self, wanted: &ResourceDesc) -> (ok: bool)
        ensures
            ok == self.satisfies(wanted),
    {
        match (self, wanted) {
            (ResourceDesc::Image(a), ResourceDesc::Image(b)) => {
                a.image_type == b.image_type && a.format == b.format && a.width == b.width
                    && a.height == b.height && a.depth == b.depth && a.usage & b.usage == b.usage
            },
            (ResourceDesc::Buffer(a), ResourceDesc::Buffer(b)) => {
                a.size == b.size && a.usage & b.usage == b.usage
            },
            _ => false,
        }
    }
}

/// A descriptor can stand in for itself.
pub proof fn lemma_satisfies_itself(desc: ResourceDesc)
    ensures
        desc.satisfies(&desc),
{
    lemma_usage_covers_itself(desc.usage());
}

} // verus!
