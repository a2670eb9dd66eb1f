//! A frame-rendering core: passes declare the images and buffers they read and
//! write, and the library schedules them, derives the barriers between them,
//! recycles transient resources and keeps compiled pipelines.

pub mod access;
pub mod state_tracker;
pub mod resource;
pub mod transient_resource_cache;
pub mod layout;
pub mod error;
pub mod pipeline_cache;
pub mod graph;
pub mod usage;
pub mod compile;
pub mod execute;
pub mod binding;
pub mod view;
pub mod renderer;
