//! The permission sandbox for layer execution.
//!
//! A [`LayerSandbox`] binds one layer to one permission envelope and one
//! dedicated working directory, derived deterministically from the layer
//! identifier. Before a command runs on a layer's behalf, the sandbox
//! checks it: an absolute command path must resolve under an allowed
//! directory — the working directory is always allowed, plus every prefix
//! in the permission allow-list — and every argument that syntactically
//! looks like a path is held to the same rule. The check is a cooperative,
//! in-process gate, not an OS-level security boundary; the memory and CPU
//! ceilings are recorded but not enforced here. Spawning the checked
//! command is the host's work, with the current directory pinned to the
//! sandbox working directory.

use vstd::prelude::*;
use crate::{Layer, LayerError};
use crate::paths::{
    check_looks_like_path,
    check_path_under,
    is_absolute,
    join_path,
    joined,
    looks_like_path,
    path_under,
};

verus! {

/// The permissions granted to a sandboxed layer.
///
/// The allow-list stands for a set of directory prefixes: only membership
/// matters, never order, and a duplicated entry grants nothing more.
#[derive(Debug, Clone)]
pub struct SandboxPermissions {
    /// Whether the layer may access the network.
    pub network_access: bool,
    /// Filesystem path prefixes the layer may touch.
    pub allowed_paths: Vec<String>,
    /// Maximum memory usage in bytes (`None` for unlimited). Declared
    /// intent only; not enforced by the permission check.
    pub max_memory: Option<usize>,
    /// Maximum CPU usage as a percentage (`None` for unlimited). Declared
    /// intent only; not enforced by the permission check.
    pub max_cpu: Option<u8>,
}

impl Default for SandboxPermissions {
    /// Fail-closed defaults: no network, no extra paths, 256 MiB of
    /// memory, half a CPU.
    fn default() -> (r: SandboxPermissions)
        ensures
            !r.network_access,
            r.allowed_paths@.len() == 0,
            r.max_memory == Some(268435456usize),
            r.max_cpu == Some(50u8),
    {
        SandboxPermissions {
            network_access: false,
            allowed_paths: Vec::new(),
            max_memory: Some(256 * 1024 * 1024),
            max_cpu: Some(50),
        }
    }
}

/// The fixed root under which every sandbox working directory lives.
pub open spec fn sandbox_root() -> Seq<char> {
    "/tmp/zerometa"@
}

/// The working directory a layer's sandbox uses, named by its identifier.
pub open spec fn working_dir_of(id: Seq<char>) -> Seq<char> {
    joined(sandbox_root(), id)
}

/// A sandboxed execution environment for one layer.
pub struct LayerSandbox {
    layer: Layer,
    permissions: SandboxPermissions,
    working_dir: String,
}

impl LayerSandbox {
    /// The layer this sandbox belongs to.
    pub closed spec fn spec_layer(&self) -> Layer {
        self.layer
    }

    /// The permission envelope of this sandbox.
    pub closed spec fn spec_permissions(&self) -> SandboxPermissions {
        self.permissions
    }

    /// The working directory of this sandbox.
    pub closed spec fn spec_working_dir(&self) -> Seq<char> {
        self.working_dir@
    }

    /// A sandbox is bound to the working directory its layer's identifier
    /// derives.
    pub open spec fn wf(&self) -> bool {
        self.spec_working_dir() == working_dir_of(self.spec_layer().id@)
    }

    /// A sandbox for the given layer under the given permissions.
    ///
    /// The working directory is derived from the layer identifier; its
    /// creation on disk is the host's concern and no input is refused
    /// here.
    pub fn new(layer: Layer, permissions: SandboxPermissions) -> (r: Result<
        LayerSandbox,
        LayerError,
    >)
        ensures
            (match r {
                Ok(sb) => sb.wf() && sb.spec_layer() == layer && sb.spec_permissions()
                    == permissions,
                Err(_) => false,
            }),
    {
        let working_dir = join_path("/tmp/zerometa", layer.id.as_str());
        Ok(LayerSandbox { layer, permissions, working_dir })
    }

    /// The path is allowed: it lies under the sandbox working directory or
    /// under some prefix of the allow-list.
    pub open spec fn path_allowed(&self, p: Seq<char>) -> bool {
        path_under(p, self.spec_working_dir()) || exists|i: int|
            0 <= i < self.spec_permissions().allowed_paths@.len() && path_under(
                p,
                self.spec_permissions().allowed_paths@[i]@,
            )
    }

    /// Whether a path is allowed by the sandbox permissions.
    pub fn is_path_allowed(&self, path: &str) -> (r: bool)
        ensures
            r == self.path_allowed(path@),
    {
        if check_path_under(path, self.working_dir.as_str()) {
            return true;
        }
        let n = self.permissions.allowed_paths.len();
        let mut i: usize = 0;
        while i < n
            invariant
                n == self.spec_permissions().allowed_paths@.len(),
                i <= n,
                forall|k: int|
                    0 <= k < i ==> !path_under(
                        path@,
                        self.spec_permissions().allowed_paths@[k]@,
                    ),
            decreases n - i,
        {
            if check_path_under(path, self.permissions.allowed_paths[i].as_str()) {
                return true;
            }
            i = i + 1;
        }
        false
    }

    /// Extracts a path from a command-line argument, if it syntactically
    /// looks like one.
    pub fn extract_path(&self, arg: &str) -> (r: Option<String>)
        ensures
            r is Some <==> looks_like_path(arg@),
            (match r {
                Some(p) => p@ == arg@,
                None => true,
            }),
    {
        if check_looks_like_path(arg) {
            Some(arg.to_owned())
        } else {
            None
        }
    }

    /// The command may run: its path, if absolute, is allowed.
    pub open spec fn command_allowed(&self, c: Seq<char>) -> bool {
        !is_absolute(c) || self.path_allowed(c)
    }

    /// The argument may pass: it does not look like a path, or the path it
    /// names is allowed.
    pub open spec fn arg_allowed(&self, a: Seq<char>) -> bool {
        !looks_like_path(a) || self.path_allowed(a)
    }

    /// The whole request may run: the command is allowed and every
    /// argument passes.
    pub open spec fn request_allowed(&self, c: Seq<char>, args: Seq<Seq<char>>) -> bool {
        self.command_allowed(c) && forall|i: int| 0 <= i < args.len() ==> self.arg_allowed(
            #[trigger] args[i],
        )
    }

    /// Checks a command and its arguments against the sandbox permissions.
    ///
    /// Passes exactly when every absolute-looking path in the request —
    /// the command itself if absolute, and every argument that looks like
    /// a path — resolves under the working directory or an allowed prefix;
    /// any other request fails with a permission-denied error.
    pub fn check_permissions(&self, command: &str, args: &[&str]) -> (r: Result<(), LayerError>)
        ensures
            r is Ok <==> self.request_allowed(command@, args.deep_view()),
            (r matches Err(e) ==> e matches LayerError::PermissionDenied(_)),
    {
        let absolute = if command.unicode_len() > 0 {
            command.get_char(0) == '/'
        } else {
            false
        };
        if absolute && !self.is_path_allowed(command) {
            return Err(LayerError::PermissionDenied("command not in allowed paths".to_owned()));
        }
        let n = args.len();
        let mut i: usize = 0;
        while i < n
            invariant
                n == args.deep_view().len(),
                i <= n,
                self.command_allowed(command@),
                forall|k: int| 0 <= k < i ==> self.arg_allowed(#[trigger] args.deep_view()[k]),
            decreases n - i,
        {
            let a = args[i];
            assert(a@ == args.deep_view()[i as int]);
            if check_looks_like_path(a) && !self.is_path_allowed(a) {
                return Err(LayerError::PermissionDenied("access to path not allowed".to_owned()));
            }
            i = i + 1;
        }
        Ok(())
    }

    /// The working directory of the sandbox.
    pub fn working_dir(&self) -> (r: &String)
        ensures
            r@ == self.spec_working_dir(),
    {
        &self.working_dir
    }

    /// The layer this sandbox belongs to.
    pub fn layer(&self) -> (r: &Layer)
        ensures
            *r == self.spec_layer(),
    {
        &self.layer
    }

    /// The permission envelope of this sandbox.
    pub fn permissions(&self) -> (r: &SandboxPermissions)
        ensures
            *r == self.spec_permissions(),
    {
        &self.permissions
    }
}

/// Every argument of `b` also occurs in `a`; if all of `a`'s arguments
/// pass, so do all of `b`'s.
proof fn lemma_args_allowed_by_membership(
    sb: &LayerSandbox,
    a: Seq<Seq<char>>,
    b: Seq<Seq<char>>,
)
    requires
        forall|x: Seq<char>| b.contains(x) ==> a.contains(x),
        forall|i: int| 0 <= i < a.len() ==> sb.arg_allowed(#[trigger] a[i]),
    ensures
        forall|i: int| 0 <= i < b.len() ==> sb.arg_allowed(#[trigger] b[i]),
{
    assert forall|i: int| 0 <= i < b.len() implies sb.arg_allowed(#[trigger] b[i]) by {
        assert(b.contains(b[i]));
        assert(a.contains(b[i]));
        let j = choose|j: int| 0 <= j < a.len() && a[j] == b[i];
        assert(sb.arg_allowed(a[j]));
    }
}

/// Law: the permission verdict depends only on which arguments occur, not
/// on the order they come in — two requests with the same command and the
/// same arguments, however arranged, pass or fail together.
pub proof fn lemma_check_order_independent(
    sb: &LayerSandbox,
    c: Seq<char>,
    args1: Seq<Seq<char>>,
    args2: Seq<Seq<char>>,
)
    requires
        forall|x: Seq<char>| args1.contains(x) <==> args2.contains(x),
    ensures
        sb.request_allowed(c, args1) == sb.request_allowed(c, args2),
{
    if sb.request_allowed(c, args1) {
        lemma_args_allowed_by_membership(sb, args1, args2);
    }
    if sb.request_allowed(c, args2) {
        lemma_args_allowed_by_membership(sb, args2, args1);
    }
}

/// Holds the sandboxes of a host, at most one per layer identifier.
pub struct SandboxManager {
    sandboxes: Vec<LayerSandbox>,
}

/// Some sandbox of `s` belongs to a layer with identifier `id`.
pub open spec fn sandboxes_contain_id(s: Seq<LayerSandbox>, id: Seq<char>) -> bool {
    exists|i: int| 0 <= i < s.len() && s[i].spec_layer().id@ == id
}

/// The index of the sandbox of `s` belonging to `id` (meaningful when
/// `sandboxes_contain_id(s, id)` holds).
pub open spec fn sandbox_index_of(s: Seq<LayerSandbox>, id: Seq<char>) -> int {
    choose|i: int| 0 <= i < s.len() && s[i].spec_layer().id@ == id
}

impl View for SandboxManager {
    type V = Seq<LayerSandbox>;

    closed spec fn view(&self) -> Seq<LayerSandbox> {
        self.sandboxes@
    }
}

impl SandboxManager {
    /// Well-formedness: at most one sandbox per layer identifier, each
    /// bound to its derived working directory.
    pub open spec fn wf(&self) -> bool {
        &&& forall|i: int, j: int|
            0 <= i < self@.len() && 0 <= j < self@.len() && i != j ==> self@[i].spec_layer().id@
                != self@[j].spec_layer().id@
        &&& forall|i: int| 0 <= i < self@.len() ==> (#[trigger] self@[i]).wf()
    }

    /// An empty manager.
    pub fn new() -> (r: SandboxManager)
        ensures
            r@ == Seq::<LayerSandbox>::empty(),
            r.wf(),
    {
        SandboxManager { sandboxes: Vec::new() }
    }

    /// The index of the sandbox belonging to `layer_id`, if any.
    fn position_of(&self, layer_id: &str) -> (r: Option<usize>)
        ensures
            (match r {
                Some(i) => i < self@.len() && self@[i as int].spec_layer().id@ == layer_id@,
                None => !sandboxes_contain_id(self@, layer_id@),
            }),
    {
        let key: String = layer_id.to_owned();
        let n = self.sandboxes.len();
        let mut j: usize = 0;
        while j < n
            invariant
                n == self@.len(),
                j <= n,
                key@ == layer_id@,
                forall|k: int| 0 <= k < j ==> self@[k].spec_layer().id@ != layer_id@,
            decreases n - j,
        {
            if self.sandboxes[j].layer().id == key {
                return Some(j);
            }
            j = j + 1;
        }
        None
    }

    /// Creates a sandbox for a layer; fails with an already-exists error
    /// when the identifier already has one.
    pub fn create_sandbox(&mut self, layer: Layer, permissions: SandboxPermissions) -> (r: Result<
        (),
        LayerError,
    >)
        requires
            old(self).wf(),
        ensures
            final(self).wf(),
            (if sandboxes_contain_id(old(self)@, layer.id@) {
                final(self)@ == old(self)@ && (r matches Err(e) && e matches
                    LayerError::AlreadyExists(m) && m@ == layer.id@)
            } else {
                r is Ok && final(self)@.len() == old(self)@.len() + 1 && final(self)@ == old(
                    self,
                )@.push(final(self)@.last()) && final(self)@.last().spec_layer() == layer
                    && final(self)@.last().spec_permissions() == permissions
            }),
    {
        match self.position_of(layer.id.as_str()) {
            Some(_) => Err(LayerError::AlreadyExists(layer.id)),
            None => {
                let ghost lid = layer.id@;
                let sandbox = match LayerSandbox::new(layer, permissions) {
                    Ok(sb) => sb,
                    Err(e) => {
                        return Err(e);
                    },
                };
                self.sandboxes.push(sandbox);
                assert(final(self).wf()) by {
                    assert forall|p: int, q: int|
                        0 <= p < self@.len() && 0 <= q < self@.len() && p != q
                    implies self@[p].spec_layer().id@ != self@[q].spec_layer().id@ by {
                        assert(!sandboxes_contain_id(old(self)@, lid));
                    }
                }
                Ok(())
            },
        }
    }

    /// Removes a layer's sandbox; fails with a not-found error when the
    /// identifier has none.
    pub fn remove_sandbox(&mut self, layer_id: &str) -> (r: Result<(), LayerError>)
        requires
            old(self).wf(),
        ensures
            final(self).wf(),
            (if sandboxes_contain_id(old(self)@, layer_id@) {
                r is Ok && final(self)@ == old(self)@.remove(
                    sandbox_index_of(old(self)@, layer_id@),
                ) && !sandboxes_contain_id(final(self)@, layer_id@)
            } else {
                final(self)@ == old(self)@ && (r matches Err(e) && e matches LayerError::NotFound(
                    m,
                ) && m@ == layer_id@)
            }),
    {
        match self.position_of(layer_id) {
            Some(i) => {
                let ghost pre = self@;
                self.sandboxes.remove(i);
                proof {
                    let at = sandbox_index_of(pre, layer_id@);
                    assert(pre[at].spec_layer().id@ == layer_id@ && pre[i as int].spec_layer().id@
                        == layer_id@);
                    assert(at == i);
                    assert(!sandboxes_contain_id(self@, layer_id@)) by {
                        assert forall|p: int| 0 <= p < self@.len() implies self@[p].spec_layer().id@
                            != layer_id@ by {
                            if p < i {
                                assert(self@[p] == pre[p]);
                            } else {
                                assert(self@[p] == pre[p + 1]);
                            }
                        }
                    }
                }
                Ok(())
            },
            None => Err(LayerError::NotFound(layer_id.to_owned())),
        }
    }

    /// The sandbox belonging to `layer_id`, if any.
    pub fn get_sandbox(&self, layer_id: &str) -> (r: Option<&LayerSandbox>)
        requires
            self.wf(),
        ensures
            r is Some <==> sandboxes_contain_id(self@, layer_id@),
            (match r {
                Some(sb) => *sb == self@[sandbox_index_of(self@, layer_id@)]
                    && sb.spec_layer().id@ == layer_id@,
                None => true,
            }),
    {
        match self.position_of(layer_id) {
            Some(i) => {
                proof {
                    let at = sandbox_index_of(self@, layer_id@);
                    assert(self@[at].spec_layer().id@ == layer_id@ && self@[
                        i as int
                    ].spec_layer().id@ == layer_id@);
                    assert(at == i);
                }
                Some(&self.sandboxes[i])
            },
            None => None,
        }
    }

    /// The sandbox belonging to `layer_id`, if any, for mutation.
    pub fn get_sandbox_mut(&mut self, layer_id: &str) -> (r: Option<&mut LayerSandbox>)
        requires
            old(self).wf(),
        ensures
            (match r {
                Some(sb) => sandboxes_contain_id(old(self)@, layer_id@) && *sb == old(self)@[
                    sandbox_index_of(old(self)@, layer_id@)
                ] && final(self)@ == old(self)@.update(
                    sandbox_index_of(old(self)@, layer_id@),
                    *final(sb),
                ),
                None => !sandboxes_contain_id(old(self)@, layer_id@) && final(self)@ == old(
                    self,
                )@,
            }),
    {
        match self.position_of(layer_id) {
            Some(i) => {
                proof {
                    let at = sandbox_index_of(old(self)@, layer_id@);
                    assert(old(self)@[at].spec_layer().id@ == layer_id@ && old(self)@[
                        i as int
                    ].spec_layer().id@ == layer_id@);
                    assert(at == i);
                }
                Some(&mut self.sandboxes[i])
            },
            None => None,
        }
    }
}

} // verus!
