//! Installation and removal of layers.
//!
//! The installer owns every decision of the install lifecycle: validating a
//! candidate source against its manifest, choosing the target directory,
//! refusing a duplicate identifier, locating the layer directory inside an
//! extracted archive, and deciding what an uninstall removes. The caller
//! (the host around this library) performs the filesystem work the
//! decisions call for — reading manifests, copying trees, extracting
//! archives, deleting directories — and feeds the observed facts in as
//! plain values.

use vstd::prelude::*;
use crate::{Layer, LayerError};
use crate::paths::{join_path, joined};
use crate::manifest::{
    layer_matches_manifest,
    manifest_accepted,
    manifest_fields_of,
    manifest_version_ok,
    read_layer,
    read_valid_layer,
    semver_ok,
};

verus! {

/// What a directory install will do once its checks have passed.
#[derive(Debug)]
pub struct InstallPlan {
    /// The validated record the install materializes.
    pub layer: Layer,
    /// The directory the layer's files belong under.
    pub target_dir: String,
    /// Whether an existing target directory must be removed first.
    pub replace_existing: bool,
}

/// Decides installation and removal of layers under one layers directory.
pub struct LayerInstaller {
    layers_dir: String,
}

impl LayerInstaller {
    /// The directory layers are installed into.
    pub closed spec fn dir(&self) -> Seq<char> {
        self.layers_dir@
    }

    /// An installer that materializes layers under `layers_dir`.
    pub fn new(layers_dir: &str) -> (r: LayerInstaller)
        ensures
            r.dir() == layers_dir@,
    {
        LayerInstaller { layers_dir: layers_dir.to_owned() }
    }

    /// The directory a layer with identifier `layer_id` occupies.
    pub fn target_dir_for(&self, layer_id: &str) -> (r: String)
        ensures
            r@ == joined(self.dir(), layer_id@),
    {
        join_path(self.layers_dir.as_str(), layer_id)
    }

    /// Validates a candidate layer directory from its manifest text.
    ///
    /// `manifest_text` is the content of the manifest file at the root of
    /// `source_dir`, or `None` where that file does not exist. Succeeds
    /// exactly when the manifest is present, decodes as a manifest record
    /// and carries a valid semantic version; the returned record's path is
    /// `source_dir`.
    pub fn validate_layer_dir(&self, manifest_text: Option<&str>, source_dir: &str) -> (r: Result<
        Layer,
        LayerError,
    >)
        ensures
            (match (r, manifest_text) {
                (Ok(l), Some(t)) => manifest_version_ok(t@) && layer_matches_manifest(
                    l,
                    t@,
                    source_dir@,
                ) && semver_ok(l.version@),
                (Err(e), Some(t)) => !manifest_version_ok(t@) && e matches
                    LayerError::InvalidLayer(_),
                (Err(e), None) => e matches LayerError::InvalidLayer(_),
                (Ok(_), None) => false,
            }),
    {
        match manifest_text {
            None => Err(
                LayerError::InvalidLayer("manifest not found in source directory".to_owned()),
            ),
            Some(t) => {
                match read_layer(t, source_dir) {
                    None => Err(LayerError::InvalidLayer("manifest cannot be decoded".to_owned())),
                    Some(l) => {
                        match read_valid_layer(t, source_dir) {
                            Some(v) => Ok(v),
                            None => Err(
                                LayerError::InvalidLayer(
                                    "version is not a valid semantic version".to_owned(),
                                ),
                            ),
                        }
                    },
                }
            },
        }
    }

    /// Decides a directory install.
    ///
    /// `manifest_text` is the manifest at the root of `source_dir` (or
    /// `None` where missing); `target_exists` reports whether the target
    /// directory for the manifest's identifier already exists. An invalid
    /// source fails with an invalid-layer error; an existing target without
    /// `overwrite` fails with an already-exists error; otherwise the plan
    /// names the validated record, the target directory to copy the source
    /// tree into, and whether the old directory must be removed first.
    pub fn plan_install(
        &self,
        manifest_text: Option<&str>,
        source_dir: &str,
        target_exists: bool,
        overwrite: bool,
    ) -> (r: Result<InstallPlan, LayerError>)
        ensures
            (match (r, manifest_text) {
                (Ok(p), Some(t)) => manifest_version_ok(t@) && !(target_exists && !overwrite)
                    && layer_matches_manifest(p.layer, t@, source_dir@) && p.target_dir@ == joined(
                    self.dir(),
                    p.layer.id@,
                ) && p.replace_existing == target_exists,
                (Err(e), Some(t)) => (if !manifest_version_ok(t@) {
                    e matches LayerError::InvalidLayer(_)
                } else {
                    target_exists && !overwrite && (e matches LayerError::AlreadyExists(m)
                        && (match manifest_fields_of(t@) {
                        Some(f) => m@ == f.0,
                        None => false,
                    }))
                }),
                (Err(e), None) => e matches LayerError::InvalidLayer(_),
                (Ok(_), None) => false,
            }),
    {
        let layer = self.validate_layer_dir(manifest_text, source_dir)?;
        if target_exists && !overwrite {
            return Err(LayerError::AlreadyExists(layer.id));
        }
        let target_dir = self.target_dir_for(layer.id.as_str());
        Ok(InstallPlan { layer, target_dir, replace_existing: target_exists })
    }

    /// Locates the layer directory inside an extracted archive.
    ///
    /// The manifest is searched exactly two levels deep: at `root` itself
    /// (`root_has_manifest`), else at the immediate single subdirectory of
    /// `root`. `sole_subdir` is that subdirectory, and must be `None`
    /// where the root has no immediate subdirectory or more than one —
    /// files beside the one subdirectory do not count;
    /// `sole_subdir_has_manifest` reports whether it holds a manifest at
    /// its own root. Anything else fails with an invalid-layer error, so
    /// the outcome is a function of the extracted tree alone, never of
    /// the order a directory scan happens to run in.
    pub fn find_layer_dir(
        &self,
        root: &str,
        root_has_manifest: bool,
        sole_subdir: Option<&String>,
        sole_subdir_has_manifest: bool,
    ) -> (r: Result<String, LayerError>)
        ensures
            (match r {
                Ok(d) => (if root_has_manifest {
                    d@ == root@
                } else {
                    sole_subdir_has_manifest && (match sole_subdir {
                        Some(p) => d@ == p@,
                        None => false,
                    })
                }),
                Err(e) => !root_has_manifest && !(sole_subdir is Some && sole_subdir_has_manifest)
                    && e matches LayerError::InvalidLayer(_),
            }),
    {
        if root_has_manifest {
            return Ok(root.to_owned());
        }
        match sole_subdir {
            Some(p) if sole_subdir_has_manifest => Ok(p.clone()),
            _ => Err(
                LayerError::InvalidLayer("could not find layer directory in archive".to_owned()),
            ),
        }
    }

    /// Decides an uninstall and reports the record being removed.
    ///
    /// Fails with a not-found error exactly when the layer's directory does
    /// not exist — so a second uninstall of the same identifier fails the
    /// same way, never succeeds. Otherwise the directory named in the
    /// returned record's path is to be removed recursively; the record's
    /// other fields come from the manifest when it is readable and
    /// decodable, and otherwise fall back to a synthetic placeholder so
    /// that deletion can still be reported.
    pub fn plan_uninstall(&self, layer_id: &str, target_exists: bool, manifest_text: Option<&str>)
        -> (r: Result<Layer, LayerError>)
        ensures
            r is Ok <==> target_exists,
            (match r {
                Ok(l) => {
                    &&& l.path@ == joined(self.dir(), layer_id@)
                    &&& (match manifest_text {
                        Some(t) if manifest_accepted(t@) => layer_matches_manifest(
                            l,
                            t@,
                            joined(self.dir(), layer_id@),
                        ),
                        _ => l.id@ == layer_id@ && l.name@ == layer_id@ && l.description@
                            == "Unknown"@ && l.version@ == "0.0.0"@ && !l.enabled,
                    })
                },
                Err(e) => e matches LayerError::NotFound(m) && m@ == layer_id@,
            }),
    {
        if !target_exists {
            return Err(LayerError::NotFound(layer_id.to_owned()));
        }
        let layer_dir = self.target_dir_for(layer_id);
        let parsed = match manifest_text {
            Some(t) => read_layer(t, layer_dir.as_str()),
            None => None,
        };
        match parsed {
            Some(l) => Ok(l),
            None => Ok(
                Layer {
                    id: layer_id.to_owned(),
                    name: layer_id.to_owned(),
                    description: "Unknown".to_owned(),
                    version: "0.0.0".to_owned(),
                    enabled: false,
                    path: layer_dir,
                },
            ),
        }
    }
}

} // verus!
