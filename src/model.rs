//! The values that cross between the scene, the synchronizer and the renderer.
//!
//! Floating-point scene values travel here as their IEEE-754 bit patterns: the
//! synchronizer only stores, forwards and compares them, so a bit pattern is
//! all it needs.

use vstd::prelude::*;

verus! {

/// The renderer's handle of an uploaded mesh.
#[derive(Clone, Copy, Debug, PartialEq, Eq, Structural)]
pub struct MeshHandle(pub u64);

/// The renderer's handle of one placed copy of a mesh.
#[derive(Clone, Copy, Debug, PartialEq, Eq, Structural)]
pub struct InstanceHandle(pub u64);

/// A world transform decomposed into translation, rotation (a quaternion
/// `x, y, z, w`) and scale, each component an `f32` bit pattern.
#[derive(Clone, Copy, Debug, PartialEq, Eq)]
pub struct MeshTransform {
    pub position: [u32; 3],
    pub rotation: [u32; 4],
    pub scale: [u32; 3],
}

/// The per-frame snapshot of one renderable entity.
#[derive(Clone, Debug, PartialEq, Eq)]
pub struct MeshInstanceExtracted {
    /// The entity's stable identity.
    pub instance_entity: u64,
    /// The mesh source key that the entity shows.
    pub mesh_name: String,
    pub transform: MeshTransform,
    /// The emissive multiplier, as an `f32` bit pattern.
    pub emission: u32,
}

/// A mesh instance that names a pre-baked mesh file.
#[derive(Clone, Debug, PartialEq, Eq)]
pub struct MeshInstanceBaked {
    pub file_name: String,
}

/// The load state of one mesh source key.
#[derive(Clone, Copy, Debug, PartialEq, Eq, Structural)]
pub enum RenderMesh {
    /// Known, its load not started yet.
    Empty,
    /// Its load runs in the background.
    Queued,
    /// Loaded; an `AddMesh` command waits to upload it.
    Uploading,
    /// Uploaded, ready for instancing.
    Ready(MeshHandle),
    /// Its source changed: instances using it must be replaced.
    Update,
    /// Its load or its upload failed; it is not retried.
    Failed,
}

/// The renderer-side state of one registered entity.
#[derive(Clone, Copy, Debug, PartialEq, Eq, Structural)]
pub enum WRInstance {
    /// Not realized in the renderer.
    Unset,
    /// Creation requested, its command not applied yet.
    Queued,
    Ready(InstanceHandle),
}

/// The registry's record of one entity.
#[derive(Clone, Debug, PartialEq, Eq)]
pub struct RenderInstance {
    pub mesh_source: String,
    /// The transform last extracted for the entity.
    pub transform: MeshTransform,
    /// The emissive multiplier last extracted for the entity; its renderer
    /// instance is created with it and kept up to date.
    pub emission: u32,
    pub instance: WRInstance,
    /// Whether the entity was seen in the current extraction.
    pub active: bool,
}

/// An intent for the renderer, produced by reconciliation and consumed once.
#[derive(Clone, Debug, PartialEq, Eq)]
pub enum WorldRendererCommand {
    /// Upload the decoded mesh of this key.
    AddMesh(String),
    AddInstance(u64, MeshHandle, MeshTransform),
    UpdateTransform(InstanceHandle, MeshTransform),
    SetEmission(InstanceHandle, u32),
    /// The entity's mesh source changed: retire its instance and instance it again.
    ReplaceInstance(InstanceHandle, u64),
    RemoveInstance(InstanceHandle),
}

/// The renderer call that applying a command takes.
#[derive(Clone, Debug, PartialEq, Eq)]
pub enum BackendCall {
    UploadMesh(String),
    /// Create an instance with this transform and emissive multiplier.
    CreateInstance(MeshHandle, MeshTransform, u32),
    SetTransform(InstanceHandle, MeshTransform),
    SetEmission(InstanceHandle, u32),
    DestroyInstance(InstanceHandle),
    /// Nothing to do: the command's entity is gone.
    Skip,
}

/// What the renderer reported for a call.
#[derive(Clone, Copy, Debug, PartialEq, Eq, Structural)]
pub enum BackendOutcome {
    Done,
    MeshUploaded(MeshHandle),
    InstanceCreated(InstanceHandle),
    Failed,
}

/// The result of a background mesh load, as observed by one poll.
#[derive(Clone, Debug, PartialEq, Eq)]
pub struct LoadReport {
    pub key: String,
    pub ok: bool,
}

/// A change notification about a mesh source.
#[derive(Clone, Debug, PartialEq, Eq)]
pub enum AssetEvent {
    Created(String),
    Modified(String),
    Removed(String),
}

} // verus!
