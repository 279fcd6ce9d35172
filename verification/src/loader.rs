//! Loading a layer's native code into the host process.
//!
//! Mapping a dynamic library and resolving its entry point are inherently
//! unsafe, platform-specific operations; the host performs them through a
//! narrow interface and reports what happened as a [`MapOutcome`]. The
//! loader here owns everything else: which file must be mapped, when a
//! load is a no-op, what each outcome means, the per-layer state machine
//! (unloaded, loaded, initialized), and the collection invariant that one
//! identifier never owns two live mappings.
//!
//! A layer's native module, when it has one, lives in the `lib`
//! subdirectory of the layer root, is named deterministically from the
//! layer identifier, and must export the single no-argument entry-point
//! symbol that initialization invokes exactly once per load.

use vstd::prelude::*;
use vstd::string::StringExecFns;
use crate::{Layer, LayerError};
use crate::paths::{join_path, joined};

verus! {

/// The platforms native modules are named for; chosen once at startup by
/// the host's platform detection.
#[derive(Debug, Clone, Copy)]
pub enum Platform {
    Linux,
    MacOs,
    Windows,
}

/// The file name of a layer's native module on a platform.
pub open spec fn lib_file_name_spec(p: Platform, id: Seq<char>) -> Seq<char> {
    match p {
        Platform::Linux => "lib"@ + id + ".so"@,
        Platform::MacOs => "lib"@ + id + ".dylib"@,
        Platform::Windows => id + ".dll"@,
    }
}

/// The platform-specific file name of the native module of the layer with
/// identifier `layer_id`.
pub fn native_lib_file_name(platform: Platform, layer_id: &str) -> (r: String)
    ensures
        r@ == lib_file_name_spec(platform, layer_id@),
{
    match platform {
        Platform::Linux => {
            let mut s = "lib".to_owned();
            s.append(layer_id);
            s.append(".so");
            s
        },
        Platform::MacOs => {
            let mut s = "lib".to_owned();
            s.append(layer_id);
            s.append(".dylib");
            s
        },
        Platform::Windows => {
            let mut s = layer_id.to_owned();
            s.append(".dll");
            s
        },
    }
}

/// What the host observed when asked to map a layer's native module.
#[derive(Debug)]
pub enum MapOutcome {
    /// The layer has no `lib` subdirectory; there is nothing to map.
    NoNativeCode,
    /// The module was mapped and its entry-point symbol resolved.
    Mapped,
    /// The module file is absent from the `lib` subdirectory.
    FileMissing,
    /// The module file exists but could not be mapped; the message says
    /// why.
    MapFailed(String),
    /// The module was mapped but lacks the required entry-point symbol;
    /// the host must have released the mapping again before reporting
    /// this.
    SymbolMissing,
}

/// Where a layer instance stands in its load lifecycle.
#[derive(Debug, Clone, Copy)]
pub enum LoadState {
    /// No code is loaded for this instance.
    Unloaded,
    /// The load step completed (with or without a native mapping).
    Loaded,
    /// The entry point has been invoked.
    Initialized,
}

/// One layer bound to at most one in-process native-code mapping.
///
/// The state machine runs unloaded, to loaded, to initialized, and back to
/// unloaded; terminal unload may be re-entered as a no-op, and whatever
/// mapping was attributed to the instance is released exactly once.
pub struct LoadedLayer {
    /// The layer's metadata.
    pub layer: Layer,
    /// Where the instance stands in its lifecycle.
    pub state: LoadState,
    /// Whether a native-code mapping is attributed to this instance.
    pub has_mapping: bool,
}

impl LoadedLayer {
    /// A mapping is only attributed to an instance that is loaded or
    /// initialized.
    pub open spec fn wf(&self) -> bool {
        self.has_mapping ==> !(self.state is Unloaded)
    }

    /// A fresh, unloaded instance for a layer.
    pub fn new(layer: Layer) -> (r: Result<LoadedLayer, LayerError>)
        ensures
            (match r {
                Ok(ll) => ll.layer == layer && ll.state is Unloaded
                    && !ll.has_mapping && ll.wf(),
                Err(_) => false,
            }),
    {
        Ok(LoadedLayer { layer, state: LoadState::Unloaded, has_mapping: false })
    }

    /// Whether this instance currently holds a native-code mapping.
    pub fn has_native_mapping(&self) -> (r: bool)
        ensures
            r == self.has_mapping,
    {
        self.has_mapping
    }

    /// What a load must do next.
    ///
    /// `has_lib_dir` reports whether the layer directory has a `lib`
    /// subdirectory. Loading an already-loaded instance is a no-op;
    /// without native code the load succeeds trivially; otherwise the
    /// returned path — the platform-specific module file under the layer's
    /// `lib` subdirectory — must be mapped and its outcome reported to
    /// [`LoadedLayer::load`].
    pub fn plan_load(&self, has_lib_dir: bool, platform: Platform) -> (r: LoadPlan)
        ensures
            (match r {
                LoadPlan::AlreadyLoaded => !(self.state is Unloaded),
                LoadPlan::NothingToMap => self.state is Unloaded && !has_lib_dir,
                LoadPlan::MapModule(p) => self.state is Unloaded && has_lib_dir && p@ == joined(
                    joined(self.layer.path@, "lib"@),
                    lib_file_name_spec(platform, self.layer.id@),
                ),
            }),
    {
        match self.state {
            LoadState::Loaded => LoadPlan::AlreadyLoaded,
            LoadState::Initialized => LoadPlan::AlreadyLoaded,
            LoadState::Unloaded => {
                if !has_lib_dir {
                    LoadPlan::NothingToMap
                } else {
                    let lib_dir = join_path(self.layer.path.as_str(), "lib");
                    let file = native_lib_file_name(platform, self.layer.id.as_str());
                    LoadPlan::MapModule(join_path(lib_dir.as_str(), file.as_str()))
                }
            },
        }
    }

    /// Applies the outcome of the load step.
    ///
    /// A load of an already-loaded instance is a no-op success, whatever
    /// the outcome. Otherwise: success with or without a mapping moves the
    /// instance to loaded; a missing module file, a failed mapping, or a
    /// mapped module without the required entry-point symbol is an
    /// invalid-layer error and leaves the instance unloaded with no
    /// mapping attributed — the symbol failure in particular leaks
    /// nothing, the host having released the fresh mapping before
    /// reporting it.
    pub fn load(&mut self, outcome: &MapOutcome) -> (r: Result<(), LayerError>)
        requires
            old(self).wf(),
        ensures
            final(self).wf(),
            final(self).layer == old(self).layer,
            !(old(self).state is Unloaded) ==> r is Ok && *final(self) == *old(self),
            (old(self).state is Unloaded ==> match outcome {
                MapOutcome::NoNativeCode => r is Ok && final(self).state is Loaded
                    && !final(self).has_mapping,
                MapOutcome::Mapped => r is Ok && final(self).state is Loaded
                    && final(self).has_mapping,
                _ => (r matches Err(e) && e matches LayerError::InvalidLayer(_)) && *final(self)
                    == *old(self),
            }),
    {
        match self.state {
            LoadState::Loaded => Ok(()),
            LoadState::Initialized => Ok(()),
            LoadState::Unloaded => {
                match outcome {
                    MapOutcome::NoNativeCode => {
                        self.state = LoadState::Loaded;
                        Ok(())
                    },
                    MapOutcome::Mapped => {
                        self.state = LoadState::Loaded;
                        self.has_mapping = true;
                        Ok(())
                    },
                    MapOutcome::FileMissing => Err(
                        LayerError::InvalidLayer("native module file not found".to_owned()),
                    ),
                    MapOutcome::MapFailed(_) => Err(
                        LayerError::InvalidLayer("failed to load native module".to_owned()),
                    ),
                    MapOutcome::SymbolMissing => Err(
                        LayerError::InvalidLayer(
                            "missing required symbol: layer_initialize".to_owned(),
                        ),
                    ),
                }
            },
        }
    }

    /// Decides initialization.
    ///
    /// Returns whether the host must invoke the entry-point symbol now:
    /// true exactly on a loaded instance with a mapping, so the entry
    /// point runs exactly once per load. An instance without native code
    /// initializes trivially; an already-initialized one is left alone.
    pub fn initialize(&mut self) -> (invoke: bool)
        requires
            old(self).wf(),
        ensures
            final(self).wf(),
            final(self).layer == old(self).layer,
            final(self).has_mapping == old(self).has_mapping,
            invoke == (old(self).state is Loaded && old(self).has_mapping),
            (old(self).state is Loaded ==> final(self).state is Initialized),
            !(old(self).state is Loaded) ==> *final(self) == *old(self),
    {
        match self.state {
            LoadState::Loaded => {
                self.state = LoadState::Initialized;
                self.has_mapping
            },
            LoadState::Unloaded => false,
            LoadState::Initialized => false,
        }
    }

    /// Unloads the instance.
    ///
    /// Always succeeds: unloading an unloaded instance is a no-op. After
    /// the call no mapping remains attributed to the instance; the host
    /// releases the one that was, exactly once, and never a second time on
    /// a repeated unload.
    pub fn unload(&mut self) -> (r: Result<(), LayerError>)
        ensures
            r is Ok,
            final(self).layer == old(self).layer,
            final(self).state is Unloaded,
            !final(self).has_mapping,
            final(self).wf(),
    {
        self.state = LoadState::Unloaded;
        self.has_mapping = false;
        Ok(())
    }
}

/// What a load must do next; see [`LoadedLayer::plan_load`].
#[derive(Debug)]
pub enum LoadPlan {
    /// The instance is already loaded; the load is a no-op success.
    AlreadyLoaded,
    /// The layer has no native code; the load succeeds with nothing
    /// mapped.
    NothingToMap,
    /// The module file at this path must be mapped.
    MapModule(String),
}

/// Some entry of `s` wraps a layer with identifier `id`.
pub open spec fn loaded_contains_id(s: Seq<LoadedLayer>, id: Seq<char>) -> bool {
    exists|i: int| 0 <= i < s.len() && s[i].layer.id@ == id
}

/// The index of the entry of `s` wrapping `id` (meaningful when
/// `loaded_contains_id(s, id)` holds).
pub open spec fn loaded_index_of(s: Seq<LoadedLayer>, id: Seq<char>) -> int {
    choose|i: int| 0 <= i < s.len() && s[i].layer.id@ == id
}

/// The collection of currently loaded layers, at most one per identifier.
pub struct LayerLoader {
    layers: Vec<LoadedLayer>,
}

impl View for LayerLoader {
    type V = Seq<LoadedLayer>;

    closed spec fn view(&self) -> Seq<LoadedLayer> {
        self.layers@
    }
}

impl Default for LayerLoader {
    /// An empty loader.
    fn default() -> (r: LayerLoader)
        ensures
            r@ == Seq::<LoadedLayer>::empty(),
            r.wf(),
    {
        LayerLoader::new()
    }
}

impl LayerLoader {
    /// Well-formedness: one entry per identifier — so a given identifier
    /// has at most one live native-code handle — and each entry sound.
    pub open spec fn wf(&self) -> bool {
        &&& forall|i: int, j: int|
            0 <= i < self@.len() && 0 <= j < self@.len() && i != j ==> self@[i].layer.id@
                != self@[j].layer.id@
        &&& forall|i: int| 0 <= i < self@.len() ==> (#[trigger] self@[i]).wf()
    }

    /// An empty loader.
    pub fn new() -> (r: LayerLoader)
        ensures
            r@ == Seq::<LoadedLayer>::empty(),
            r.wf(),
    {
        LayerLoader { layers: Vec::new() }
    }

    /// The index of the entry wrapping `layer_id`, if any.
    fn position_of(&self, layer_id: &str) -> (r: Option<usize>)
        ensures
            (match r {
                Some(i) => i < self@.len() && self@[i as int].layer.id@ == layer_id@,
                None => !loaded_contains_id(self@, layer_id@),
            }),
    {
        let key: String = layer_id.to_owned();
        let n = self.layers.len();
        let mut j: usize = 0;
        while j < n
            invariant
                n == self@.len(),
                j <= n,
                key@ == layer_id@,
                forall|k: int| 0 <= k < j ==> self@[k].layer.id@ != layer_id@,
            decreases n - j,
        {
            if self.layers[j].layer.id == key {
                return Some(j);
            }
            j = j + 1;
        }
        None
    }

    /// Admits a loaded layer into the collection.
    ///
    /// Loading an identifier that is already present is a no-op success;
    /// otherwise the entry is kept as handed in.
    pub fn load_layer(&mut self, loaded: LoadedLayer) -> (r: Result<(), LayerError>)
        requires
            old(self).wf(),
            loaded.wf(),
        ensures
            final(self).wf(),
            r is Ok,
            (if loaded_contains_id(old(self)@, loaded.layer.id@) {
                final(self)@ == old(self)@
            } else {
                final(self)@ == old(self)@.push(loaded)
            }),
    {
        let ghost lid = loaded.layer.id@;
        match self.position_of(loaded.layer.id.as_str()) {
            Some(_) => Ok(()),
            None => {
                self.layers.push(loaded);
                assert(final(self).wf()) by {
                    assert forall|p: int, q: int|
                        0 <= p < self@.len() && 0 <= q < self@.len() && p != q
                    implies self@[p].layer.id@ != self@[q].layer.id@ by {
                        assert(!loaded_contains_id(old(self)@, lid));
                    }
                }
                Ok(())
            },
        }
    }

    /// Unloads a layer by identifier.
    ///
    /// Always succeeds: unloading an identifier that is not loaded is a
    /// no-op. Afterwards no entry — and so no native-code mapping — is
    /// attributable to the identifier.
    pub fn unload_layer(&mut self, layer_id: &str) -> (r: Result<(), LayerError>)
        requires
            old(self).wf(),
        ensures
            final(self).wf(),
            r is Ok,
            !loaded_contains_id(final(self)@, layer_id@),
            (if loaded_contains_id(old(self)@, layer_id@) {
                final(self)@ == old(self)@.remove(loaded_index_of(old(self)@, layer_id@))
            } else {
                final(self)@ == old(self)@
            }),
    {
        match self.position_of(layer_id) {
            Some(i) => {
                let ghost pre = self@;
                let mut entry = self.layers.remove(i);
                let _ = entry.unload();
                proof {
                    let at = loaded_index_of(pre, layer_id@);
                    assert(pre[at].layer.id@ == layer_id@ && pre[i as int].layer.id@ == layer_id@);
                    assert(at == i);
                    assert(!loaded_contains_id(self@, layer_id@)) by {
                        assert forall|p: int| 0 <= p < self@.len() implies self@[p].layer.id@
                            != layer_id@ by {
                            if p < i {
                                assert(self@[p] == pre[p]);
                            } else {
                                assert(self@[p] == pre[p + 1]);
                            }
                        }
                    }
                }
                Ok(())
            },
            None => Ok(()),
        }
    }

    /// The entry wrapping `layer_id`, if any.
    pub fn get_layer(&self, layer_id: &str) -> (r: Option<&LoadedLayer>)
        requires
            self.wf(),
        ensures
            r is Some <==> loaded_contains_id(self@, layer_id@),
            (match r {
                Some(ll) => *ll == self@[loaded_index_of(self@, layer_id@)] && ll.layer.id@
                    == layer_id@,
                None => true,
            }),
    {
        match self.position_of(layer_id) {
            Some(i) => {
                proof {
                    let at = loaded_index_of(self@, layer_id@);
                    assert(self@[at].layer.id@ == layer_id@ && self@[i as int].layer.id@
                        == layer_id@);
                    assert(at == i);
                }
                Some(&self.layers[i])
            },
            None => None,
        }
    }

    /// The entry wrapping `layer_id`, if any, for mutation.
    pub fn get_layer_mut(&mut self, layer_id: &str) -> (r: Option<&mut LoadedLayer>)
        requires
            old(self).wf(),
        ensures
            (match r {
                Some(ll) => loaded_contains_id(old(self)@, layer_id@) && *ll == old(self)@[
                    loaded_index_of(old(self)@, layer_id@)
                ] && final(self)@ == old(self)@.update(
                    loaded_index_of(old(self)@, layer_id@),
                    *final(ll),
                ),
                None => !loaded_contains_id(old(self)@, layer_id@) && final(self)@ == old(
                    self,
                )@,
            }),
    {
        match self.position_of(layer_id) {
            Some(i) => {
                proof {
                    let at = loaded_index_of(old(self)@, layer_id@);
                    assert(old(self)@[at].layer.id@ == layer_id@ && old(self)@[
                        i as int
                    ].layer.id@ == layer_id@);
                    assert(at == i);
                }
                Some(&mut self.layers[i])
            },
            None => None,
        }
    }

    /// A view over all currently loaded layers, in load order.
    pub fn layers(&self) -> (r: &Vec<LoadedLayer>)
        ensures
            r@ == self@,
    {
        &self.layers
    }
}

} // verus!
