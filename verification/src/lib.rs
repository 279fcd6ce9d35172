//! Lifecycle management for pluggable, versioned extension units ("layers"):
//! installing layer packages, tracking them in a concurrent registry, loading
//! their native code, and mediating what a sandboxed layer may execute.

use vstd::prelude::*;

pub mod installer;
pub mod loader;
pub mod manifest;
pub mod paths;
pub mod registry;
pub mod sandbox;

verus! {

/// Metadata record describing one layer, as read from its manifest.
///
/// The identifier is unique across a registry and doubles as the name of the
/// directory the layer is installed into. The `path` field is not part of the
/// persisted manifest; it is filled in with the location of the layer's root
/// directory when the manifest is read.
#[derive(Debug, Clone)]
pub struct Layer {
    /// Unique, stable identifier; used as directory name and registry key.
    pub id: String,
    /// Human-readable name.
    pub name: String,
    /// Description of what the layer provides.
    pub description: String,
    /// Semantic version string.
    pub version: String,
    /// Whether the layer is currently active.
    pub enabled: bool,
    /// Location of the layer's installed directory.
    pub path: String,
}

impl Layer {
    /// Field-for-field copy of the record.
    pub fn duplicate(&self) -> (r: Layer)
        ensures
            r == *self,
    {
        Layer {
            id: self.id.clone(),
            name: self.name.clone(),
            description: self.description.clone(),
            version: self.version.clone(),
            enabled: self.enabled,
            path: self.path.clone(),
        }
    }
}

/// The error taxonomy for layer operations.
///
/// Every variant carries a human-readable message; callers render the kind
/// and the message.
#[derive(Debug)]
pub enum LayerError {
    /// An underlying filesystem, lock or process operation failed.
    Io(String),
    /// A manifest was read but could not be parsed as structured data.
    Json(String),
    /// The operation referenced an identifier absent from the collection.
    NotFound(String),
    /// The operation would have created a duplicate identifier.
    AlreadyExists(String),
    /// The layer itself is unusable: manifest missing, version unparsable,
    /// archive without a manifest, or native module or entry point missing.
    InvalidLayer(String),
    /// The sandbox rejected a command or an argument path.
    PermissionDenied(String),
}

} // verus!
