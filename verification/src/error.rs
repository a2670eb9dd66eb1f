//! What can go wrong, by the stage at which it is found.

use vstd::prelude::*;
use crate::pipeline_cache::ShaderStage;

verus! {

/// Found while a graph is put together. The graph is left as it was, so the
/// caller can correct the call and go on.
#[derive(Clone, Copy, Debug, PartialEq, Eq, Structural)]
pub enum BuildError {
    /// A pass or an export names a handle that no earlier step produced, or
    /// one that a later write has replaced. `written` says whether the handle
    /// stands among the writes of the call or among its reads, `index` where.
    InvalidHandle { resource: usize, version: usize, written: bool, index: usize },
    /// A descriptor with a zero extent, or an empty buffer.
    MalformedDescriptor,
}

/// Found while a graph is compiled or its pipelines are prepared. The frame's
/// graph is lost; the next frame may try again.
#[derive(Debug)]
pub enum CompileError {
    /// An imported resource has nothing behind it.
    UnresolvedImport { resource: usize },
    /// A pass uses a resource in a way that its kind does not allow, or that an
    /// imported resource was not created for.
    DescriptorConflict { resource: usize, pass: usize },
    /// A shader of the pipeline did not compile.
    ShaderCompileError { pipeline: usize, stage: ShaderStage, reason: String },
    /// The shader requires a binding that the layout declared for its set does
    /// not describe.
    ReflectionMismatchError { pipeline: usize, set_index: usize, binding: u32 },
}

/// Why a frame could not be prepared.
#[derive(Debug)]
pub enum PrepareError {
    Build(BuildError),
    Compile(CompileError),
}

/// A pass could not record its commands. What was recorded for the frame is
/// abandoned.
#[derive(Debug)]
pub struct ExecutionError {
    pub pass: usize,
    pub pass_name: String,
}

} // verus!
