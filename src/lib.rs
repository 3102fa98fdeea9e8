//! Scene-to-renderer synchronization: the mesh cache, the instance registry,
//! the command queue that reconciles them with a renderer, and the bounded
//! console log used by the editor.

pub mod assets;
pub mod bridge;
pub mod console;
pub mod laws;
pub mod model;
pub mod pipeline;
pub mod sync_model;
