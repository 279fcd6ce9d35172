//! The registry of known layers: a concurrent, in-memory index keyed by
//! layer identifier.
//!
//! The index itself is the verified [`LayerTable`]; [`LayerRegistry`] guards
//! one table with a single reader/writer lock covering the whole structure,
//! so that writers exclude readers and other writers while readers may run
//! concurrently with each other. The lock's invariant is the table's
//! well-formedness: no two entries share an identifier.

use vstd::prelude::*;
use vstd::rwlock::{RwLock, RwLockPredicate};
use crate::{Layer, LayerError};

verus! {

/// No two entries of `s` carry the same identifier.
pub open spec fn ids_unique(s: Seq<Layer>) -> bool {
    forall|i: int, j: int|
        0 <= i < s.len() && 0 <= j < s.len() && i != j ==> s[i].id@ != s[j].id@
}

/// Some entry of `s` carries the identifier `id`.
pub open spec fn contains_id(s: Seq<Layer>, id: Seq<char>) -> bool {
    exists|i: int| 0 <= i < s.len() && s[i].id@ == id
}

/// The index of the entry of `s` carrying `id` (meaningful when
/// `contains_id(s, id)` holds; unique when `ids_unique(s)` holds).
pub open spec fn index_of_id(s: Seq<Layer>, id: Seq<char>) -> int {
    choose|i: int| 0 <= i < s.len() && s[i].id@ == id
}

/// The entry of `s` carrying `id`, if any.
pub open spec fn lookup(s: Seq<Layer>, id: Seq<char>) -> Option<Layer> {
    if contains_id(s, id) {
        Some(s[index_of_id(s, id)])
    } else {
        None
    }
}

/// What a registration leaves behind: the table unchanged when the
/// identifier is already taken, the entry appended otherwise.
pub open spec fn register_outcome(s: Seq<Layer>, l: Layer) -> Seq<Layer> {
    if contains_id(s, l.id@) {
        s
    } else {
        s.push(l)
    }
}

/// A registration succeeds exactly when the identifier is not yet taken.
pub open spec fn register_succeeds(s: Seq<Layer>, l: Layer) -> bool {
    !contains_id(s, l.id@)
}

/// `l` with its `enabled` flag set to `e` and all other fields kept.
pub open spec fn with_enabled(l: Layer, e: bool) -> Layer {
    Layer { enabled: e, ..l }
}

/// What an upsert leaves behind: the entry under `l`'s identifier
/// replaced by `l`, or `l` appended where the identifier is new.
pub open spec fn upsert_outcome(t: Seq<Layer>, l: Layer) -> Seq<Layer> {
    if contains_id(t, l.id@) {
        t.update(index_of_id(t, l.id@), l)
    } else {
        t.push(l)
    }
}

/// The index a discovery pass leaves behind: starting from nothing, each
/// record of `s` is added in order, a later record replacing an earlier
/// one with the same identifier — so exactly one entry per discovered
/// identifier, and the last record wins.
pub open spec fn rebuilt(s: Seq<Layer>) -> Seq<Layer>
    decreases s.len(),
{
    if s.len() == 0 {
        Seq::<Layer>::empty()
    } else {
        upsert_outcome(rebuilt(s.drop_last()), s.last())
    }
}

/// The in-memory index of layers, one entry per identifier.
pub struct LayerTable {
    entries: Vec<Layer>,
}

impl View for LayerTable {
    type V = Seq<Layer>;

    closed spec fn view(&self) -> Seq<Layer> {
        self.entries@
    }
}

impl LayerTable {
    /// Well-formedness: identifiers are unique across the table.
    pub open spec fn wf(&self) -> bool {
        ids_unique(self@)
    }

    /// An empty table.
    pub fn empty() -> (r: LayerTable)
        ensures
            r@ == Seq::<Layer>::empty(),
            r.wf(),
    {
        LayerTable { entries: Vec::new() }
    }

    /// The index of the entry carrying `id`, if any.
    fn position_of(&self, id: &str) -> (r: Option<usize>)
        ensures
            (match r {
                Some(i) => i < self@.len() && self@[i as int].id@ == id@,
                None => !contains_id(self@, id@),
            }),
    {
        let key: String = id.to_owned();
        let n = self.entries.len();
        let mut j: usize = 0;
        while j < n
            invariant
                n == self@.len(),
                j <= n,
                key@ == id@,
                forall|k: int| 0 <= k < j ==> self@[k].id@ != id@,
            decreases n - j,
        {
            let e = &self.entries[j];
            if e.id == key {
                return Some(j);
            }
            j = j + 1;
        }
        None
    }

    /// Adds `layer` under its identifier; fails when the identifier is
    /// already present and leaves the table unchanged in that case.
    pub fn insert(&mut self, layer: Layer) -> (r: Result<(), LayerError>)
        requires
            old(self).wf(),
        ensures
            final(self).wf(),
            final(self)@ == register_outcome(old(self)@, layer),
            r is Ok <==> register_succeeds(old(self)@, layer),
            (r matches Err(e) ==> e matches LayerError::AlreadyExists(m) && m@ == layer.id@),
    {
        match self.position_of(layer.id.as_str()) {
            Some(_) => Err(LayerError::AlreadyExists(layer.id)),
            None => {
                self.entries.push(layer);
                assert(final(self).wf()) by {
                    assert forall|i: int, j: int|
                        0 <= i < self@.len() && 0 <= j < self@.len() && i != j
                    implies self@[i].id@ != self@[j].id@ by {
                        assert(!contains_id(old(self)@, layer.id@));
                    }
                }
                Ok(())
            },
        }
    }

    /// Removes the entry carrying `id`; fails when no entry does.
    pub fn remove(&mut self, id: &str) -> (r: Result<(), LayerError>)
        requires
            old(self).wf(),
        ensures
            final(self).wf(),
            (if contains_id(old(self)@, id@) {
                r is Ok && final(self)@ == old(self)@.remove(index_of_id(old(self)@, id@))
                    && !contains_id(final(self)@, id@)
            } else {
                final(self)@ == old(self)@
            }),
            (r matches Err(e) ==> e matches LayerError::NotFound(m) && m@ == id@),
            (r is Ok <==> contains_id(old(self)@, id@)),
    {
        match self.position_of(id) {
            Some(i) => {
                let ghost pre = self@;
                self.entries.remove(i);
                proof {
                    let at = index_of_id(pre, id@);
                    assert(pre[at].id@ == id@ && pre[i as int].id@ == id@);
                    assert(at == i);
                    assert(final(self).wf()) by {
                        assert forall|p: int, q: int|
                            0 <= p < self@.len() && 0 <= q < self@.len() && p != q
                        implies self@[p].id@ != self@[q].id@ by {}
                    }
                    assert(!contains_id(self@, id@)) by {
                        assert forall|p: int| 0 <= p < self@.len() implies self@[p].id@ != id@ by {
                            if p < i { assert(self@[p] == pre[p]); } else {
                                assert(self@[p] == pre[p + 1]);
                            }
                        }
                    }
                }
                Ok(())
            },
            None => Err(LayerError::NotFound(id.to_owned())),
        }
    }

    /// A copy of the entry carrying `id`, if any.
    pub fn get(&self, id: &str) -> (r: Option<Layer>)
        requires
            self.wf(),
        ensures
            r == lookup(self@, id@),
    {
        match self.position_of(id) {
            Some(i) => {
                let l = self.entries[i].duplicate();
                proof {
                    let at = index_of_id(self@, id@);
                    assert(self@[at].id@ == id@ && self@[i as int].id@ == id@);
                    assert(at == i);
                }
                Some(l)
            },
            None => None,
        }
    }

    /// A copy of every entry, in table order.
    pub fn all(&self) -> (r: Vec<Layer>)
        ensures
            r@ == self@,
    {
        let n = self.entries.len();
        let mut out: Vec<Layer> = Vec::new();
        let mut j: usize = 0;
        while j < n
            invariant
                n == self@.len(),
                j <= n,
                out@ == self@.subrange(0, j as int),
            decreases n - j,
        {
            out.push(self.entries[j].duplicate());
            assert(out@ =~= self@.subrange(0, j + 1 as int));
            j = j + 1;
        }
        assert(out@ =~= self@);
        out
    }

    /// Sets the `enabled` flag of the entry carrying `id`; fails when no
    /// entry does and leaves the table unchanged in that case.
    pub fn set_enabled(&mut self, id: &str, value: bool) -> (r: Result<(), LayerError>)
        requires
            old(self).wf(),
        ensures
            final(self).wf(),
            (if contains_id(old(self)@, id@) {
                r is Ok && final(self)@ == old(self)@.update(
                    index_of_id(old(self)@, id@),
                    with_enabled(old(self)@[index_of_id(old(self)@, id@)], value),
                )
            } else {
                final(self)@ == old(self)@
            }),
            (r matches Err(e) ==> e matches LayerError::NotFound(m) && m@ == id@),
            (r is Ok <==> contains_id(old(self)@, id@)),
    {
        match self.position_of(id) {
            Some(i) => {
                let ghost pre = self@;
                let mut l = self.entries[i].duplicate();
                l.enabled = value;
                self.entries.set(i, l);
                proof {
                    let at = index_of_id(pre, id@);
                    assert(pre[at].id@ == id@ && pre[i as int].id@ == id@);
                    assert(at == i);
                    assert(final(self).wf()) by {
                        assert forall|p: int, q: int|
                            0 <= p < self@.len() && 0 <= q < self@.len() && p != q
                        implies self@[p].id@ != self@[q].id@ by {}
                    }
                }
                Ok(())
            },
            None => Err(LayerError::NotFound(id.to_owned())),
        }
    }
}

/// The table left behind by registering the entries of `s` in order,
/// starting from `t`.
pub open spec fn register_all(t: Seq<Layer>, s: Seq<Layer>) -> Seq<Layer>
    decreases s.len(),
{
    if s.len() == 0 {
        t
    } else {
        register_all(register_outcome(t, s[0]), s.drop_first())
    }
}

/// Every registration of the entries of `s` in order, starting from `t`,
/// succeeds.
pub open spec fn all_registrations_succeed(t: Seq<Layer>, s: Seq<Layer>) -> bool
    decreases s.len(),
{
    if s.len() == 0 {
        true
    } else {
        register_succeeds(t, s[0]) && all_registrations_succeed(
            register_outcome(t, s[0]),
            s.drop_first(),
        )
    }
}

/// Registering entries whose identifiers are pairwise distinct and absent
/// from `t` succeeds at every step and appends them in order.
pub proof fn lemma_registrations_with_fresh_ids(t: Seq<Layer>, s: Seq<Layer>)
    requires
        forall|i: int, j: int|
            0 <= i < s.len() && 0 <= j < s.len() && i != j ==> s[i].id@ != s[j].id@,
        forall|k: int| 0 <= k < s.len() ==> !contains_id(t, #[trigger] s[k].id@),
    ensures
        all_registrations_succeed(t, s),
        register_all(t, s) == t + s,
    decreases s.len(),
{
    if s.len() == 0 {
        assert(register_all(t, s) =~= t + s);
    } else {
        let head = s[0];
        let rest = s.drop_first();
        assert(register_succeeds(t, head));
        let t1 = register_outcome(t, head);
        assert(t1 =~= t.push(head));
        assert forall|k: int| 0 <= k < rest.len() implies !contains_id(
            t1,
            #[trigger] rest[k].id@,
        ) by {
            assert(rest[k] == s[k + 1]);
            assert(!contains_id(t, s[k + 1].id@));
            assert(s[k + 1].id@ != head.id@);
            if contains_id(t1, rest[k].id@) {
                let w = choose|w: int| 0 <= w < t1.len() && t1[w].id@ == rest[k].id@;
                if w < t.len() {
                    assert(t[w].id@ == rest[k].id@);
                } else {
                    assert(t1[w] == head);
                }
            }
        }
        lemma_registrations_with_fresh_ids(t1, rest);
        assert(t1 + rest =~= t + s);
    }
}

/// Law: any number of registrations with pairwise-distinct identifiers
/// against an empty registry — in whatever order the lock serializes them —
/// all succeed, and the index afterwards holds exactly those entries, one
/// per identifier.
pub proof fn lemma_distinct_registers_from_empty(s: Seq<Layer>)
    requires
        forall|i: int, j: int|
            0 <= i < s.len() && 0 <= j < s.len() && i != j ==> s[i].id@ != s[j].id@,
    ensures
        all_registrations_succeed(Seq::<Layer>::empty(), s),
        register_all(Seq::<Layer>::empty(), s) == s,
        register_all(Seq::<Layer>::empty(), s).len() == s.len(),
{
    lemma_registrations_with_fresh_ids(Seq::<Layer>::empty(), s);
    assert(Seq::<Layer>::empty() + s =~= s);
}

/// Law: a layer whose fields were read from a manifest, registered under a
/// fresh identifier, is returned intact by a lookup of that identifier —
/// the round trip from manifest fields to registry answer loses nothing.
pub proof fn lemma_install_register_get_round_trip(
    t: Seq<Layer>,
    l: Layer,
    text: Seq<char>,
    dir: Seq<char>,
)
    requires
        ids_unique(t),
        crate::manifest::layer_matches_manifest(l, text, dir),
        !contains_id(t, l.id@),
    ensures
        register_succeeds(t, l),
        lookup(register_outcome(t, l), l.id@) == Some(l),
        (match crate::manifest::manifest_fields_of(text) {
            Some(m) => l.id@ == m.0 && l.name@ == m.1 && l.description@ == m.2
                && l.version@ == m.3 && l.enabled == m.4 && l.path@ == dir,
            None => false,
        }),
{
    let t1 = register_outcome(t, l);
    assert(t1 == t.push(l));
    assert(t1[t.len() as int] == l);
    assert(contains_id(t1, l.id@));
    let at = index_of_id(t1, l.id@);
    assert(0 <= at < t1.len() && t1[at].id@ == l.id@);
    if at < t.len() {
        assert(t[at].id@ == l.id@);
        assert(contains_id(t, l.id@));
    }
    assert(t1[at] == l);
}

/// The last record of `s` carrying `id` (meaningful when some record
/// does).
pub open spec fn latest_with_id(s: Seq<Layer>, id: Seq<char>) -> Layer
    decreases s.len(),
{
    if s.len() == 0 {
        vstd::pervasive::arbitrary()
    } else if s.last().id@ == id {
        s.last()
    } else {
        latest_with_id(s.drop_last(), id)
    }
}

/// An upsert keeps identifiers unique.
proof fn lemma_upsert_unique(t: Seq<Layer>, l: Layer)
    requires
        ids_unique(t),
    ensures
        ids_unique(upsert_outcome(t, l)),
{
    let r = upsert_outcome(t, l);
    if contains_id(t, l.id@) {
        let i = index_of_id(t, l.id@);
        assert forall|p: int, q: int| 0 <= p < r.len() && 0 <= q < r.len() && p != q
        implies r[p].id@ != r[q].id@ by {
            if p != i && q != i {
                assert(r[p] == t[p] && r[q] == t[q]);
            } else if p == i {
                assert(r[p].id@ == t[i].id@ && r[q] == t[q]);
            } else {
                assert(r[q].id@ == t[i].id@ && r[p] == t[p]);
            }
        }
    } else {
        assert forall|p: int, q: int| 0 <= p < r.len() && 0 <= q < r.len() && p != q
        implies r[p].id@ != r[q].id@ by {
            if p < t.len() && q < t.len() {
            } else if p == t.len() as int {
                assert(r[p] == l && r[q] == t[q]);
            } else {
                assert(r[q] == l && r[p] == t[p]);
            }
        }
    }
}

/// An identifier is present after an upsert exactly when it was present
/// before or is the upserted record's.
proof fn lemma_upsert_membership(t: Seq<Layer>, l: Layer, id: Seq<char>)
    ensures
        contains_id(upsert_outcome(t, l), id) <==> (contains_id(t, id) || id == l.id@),
{
    let r = upsert_outcome(t, l);
    if contains_id(t, l.id@) {
        let i = index_of_id(t, l.id@);
        assert(r[i] == l);
        if contains_id(t, id) {
            let k = index_of_id(t, id);
            if k == i {
                assert(t[i].id@ == id && t[i].id@ == l.id@);
                assert(r[i].id@ == id);
            } else {
                assert(r[k] == t[k]);
            }
            assert(contains_id(r, id));
        }
        if contains_id(r, id) {
            let k = choose|k: int| 0 <= k < r.len() && r[k].id@ == id;
            if k == i {
                assert(id == l.id@);
            } else {
                assert(t[k] == r[k]);
                assert(contains_id(t, id));
            }
        }
    } else {
        assert(r[t.len() as int] == l);
        if contains_id(t, id) {
            let k = index_of_id(t, id);
            assert(r[k] == t[k]);
            assert(contains_id(r, id));
        }
        if contains_id(r, id) {
            let k = choose|k: int| 0 <= k < r.len() && r[k].id@ == id;
            if k < t.len() {
                assert(t[k] == r[k]);
                assert(contains_id(t, id));
            } else {
                assert(id == l.id@);
            }
        }
    }
}

/// The rebuilt index keeps identifiers unique.
pub proof fn lemma_rebuilt_unique(s: Seq<Layer>)
    ensures
        ids_unique(rebuilt(s)),
    decreases s.len(),
{
    if s.len() > 0 {
        lemma_rebuilt_unique(s.drop_last());
        lemma_upsert_unique(rebuilt(s.drop_last()), s.last());
    }
}

/// Law: a discovery pass keeps exactly one entry per discovered
/// identifier — an identifier is in the rebuilt index exactly when some
/// discovered record carries it, and the entry it gets is the last such
/// record, whatever order the scan produced them in besides.
pub proof fn lemma_discovery_one_entry_per_id(s: Seq<Layer>, id: Seq<char>)
    ensures
        contains_id(rebuilt(s), id) <==> contains_id(s, id),
        contains_id(s, id) ==> lookup(rebuilt(s), id) == Some(latest_with_id(s, id)),
    decreases s.len(),
{
    if s.len() == 0 {
        return;
    }
    let rest = s.drop_last();
    let t = rebuilt(rest);
    let l = s.last();
    let r = rebuilt(s);
    assert(r == upsert_outcome(t, l));
    lemma_rebuilt_unique(rest);
    lemma_rebuilt_unique(s);
    lemma_discovery_one_entry_per_id(rest, id);
    lemma_upsert_membership(t, l, id);
    assert(contains_id(s, id) <==> (contains_id(rest, id) || l.id@ == id)) by {
        if contains_id(s, id) {
            let k = choose|k: int| 0 <= k < s.len() && s[k].id@ == id;
            if k < s.len() - 1 {
                assert(rest[k] == s[k]);
                assert(contains_id(rest, id));
            } else {
                assert(l.id@ == id);
            }
        }
        if contains_id(rest, id) {
            let k = index_of_id(rest, id);
            assert(s[k] == rest[k]);
            assert(contains_id(s, id));
        }
        if l.id@ == id {
            assert(s[s.len() - 1].id@ == id);
            assert(contains_id(s, id));
        }
    }
    if contains_id(s, id) {
        if id == l.id@ {
            assert(latest_with_id(s, id) == l);
            if contains_id(t, l.id@) {
                let i = index_of_id(t, l.id@);
                assert(r[i] == l && r[i].id@ == id);
                let k = index_of_id(r, id);
                assert(r[k].id@ == id);
                assert(k == i);
                assert(lookup(r, id) == Some(l));
            } else {
                let i = t.len() as int;
                assert(r[i] == l && r[i].id@ == id);
                let k = index_of_id(r, id);
                assert(r[k].id@ == id);
                assert(k == i);
                assert(lookup(r, id) == Some(l));
            }
        } else {
            assert(latest_with_id(s, id) == latest_with_id(rest, id));
            assert(contains_id(rest, id));
            assert(contains_id(t, id));
            let kt = index_of_id(t, id);
            assert(r[kt] == t[kt]) by {
                if contains_id(t, l.id@) {
                    let i = index_of_id(t, l.id@);
                    assert(t[i].id@ == l.id@ && t[kt].id@ == id);
                    assert(i != kt);
                }
            }
            assert(r[kt].id@ == id);
            let kr = index_of_id(r, id);
            assert(r[kr].id@ == id);
            assert(kr == kt);
            assert(lookup(r, id) == Some(t[kt]));
            assert(lookup(t, id) == Some(t[kt]));
        }
    }
}

/// The lock invariant of a registry: the guarded table is well-formed.
pub struct TableInv {}

impl RwLockPredicate<LayerTable> for TableInv {
    open spec fn inv(self, t: LayerTable) -> bool {
        t.wf()
    }
}

/// The concurrent registry: one [`LayerTable`] behind one reader/writer
/// lock, plus the directory that discovery scans.
///
/// Every mutating operation holds the write lock for its whole duration;
/// reads hold the read lock. The lock is a verified lock and cannot be
/// poisoned, so no operation here fails for want of the lock.
pub struct LayerRegistry {
    layers: RwLock<LayerTable, TableInv>,
    layers_dir: String,
}

impl LayerRegistry {
    /// The registry's lock carries the table well-formedness invariant.
    pub closed spec fn wf(&self) -> bool {
        self.layers.pred() == (TableInv {  })
    }

    /// The directory this registry discovers layers from.
    pub closed spec fn dir(&self) -> Seq<char> {
        self.layers_dir@
    }

    /// A registry over the given layers directory, initially empty.
    pub fn new(layers_dir: &str) -> (r: LayerRegistry)
        ensures
            r.wf(),
            r.dir() == layers_dir@,
    {
        LayerRegistry {
            layers: RwLock::new(LayerTable::empty(), Ghost(TableInv {  })),
            layers_dir: layers_dir.to_owned(),
        }
    }

    /// The layers directory, as a path string.
    pub fn layers_dir(&self) -> (r: &String)
        ensures
            r@ == self.dir(),
    {
        &self.layers_dir
    }

    /// Registers a new layer; fails with an already-exists error when its
    /// identifier is present.
    pub fn register_layer(&self, layer: Layer) -> (r: Result<(), LayerError>)
        requires
            self.wf(),
        ensures
            (r matches Err(e) ==> e matches LayerError::AlreadyExists(m) && m@ == layer.id@),
    {
        let ghost id = layer.id@;
        let (mut table, handle) = self.layers.acquire_write();
        let r = table.insert(layer);
        handle.release_write(table);
        r
    }

    /// Unregisters a layer; fails with a not-found error when its
    /// identifier is absent.
    pub fn unregister_layer(&self, layer_id: &str) -> (r: Result<(), LayerError>)
        requires
            self.wf(),
        ensures
            (r matches Err(e) ==> e matches LayerError::NotFound(m) && m@ == layer_id@),
    {
        let (mut table, handle) = self.layers.acquire_write();
        let r = table.remove(layer_id);
        handle.release_write(table);
        r
    }

    /// A copy of the layer registered under `layer_id`, if any.
    ///
    /// The result is a copy, never a handle into the registry.
    pub fn get_layer(&self, layer_id: &str) -> (r: Result<Option<Layer>, LayerError>)
        requires
            self.wf(),
        ensures
            r is Ok,
            (match r {
                Ok(Some(l)) => l.id@ == layer_id@,
                _ => true,
            }),
    {
        let handle = self.layers.acquire_read();
        let table = handle.borrow();
        let r = table.get(layer_id);
        let out = Ok(r);
        handle.release_read();
        out
    }

    /// A copy of every registered layer, in no guaranteed order.
    pub fn list_layers(&self) -> (r: Result<Vec<Layer>, LayerError>)
        requires
            self.wf(),
        ensures
            r is Ok,
            (match r {
                Ok(v) => ids_unique(v@),
                _ => true,
            }),
    {
        let handle = self.layers.acquire_read();
        let table = handle.borrow();
        let r = table.all();
        let out = Ok(r);
        handle.release_read();
        out
    }

    /// Enables a layer; fails with a not-found error when its identifier
    /// is absent.
    pub fn enable_layer(&self, layer_id: &str) -> (r: Result<(), LayerError>)
        requires
            self.wf(),
        ensures
            (r matches Err(e) ==> e matches LayerError::NotFound(m) && m@ == layer_id@),
    {
        let (mut table, handle) = self.layers.acquire_write();
        let r = table.set_enabled(layer_id, true);
        handle.release_write(table);
        r
    }

    /// Disables a layer; fails with a not-found error when its identifier
    /// is absent.
    pub fn disable_layer(&self, layer_id: &str) -> (r: Result<(), LayerError>)
        requires
            self.wf(),
        ensures
            (r matches Err(e) ==> e matches LayerError::NotFound(m) && m@ == layer_id@),
    {
        let (mut table, handle) = self.layers.acquire_write();
        let r = table.set_enabled(layer_id, false);
        handle.release_write(table);
        r
    }

    /// Reads one discovered layer directory into a record.
    ///
    /// `manifest_text` is the content of the manifest file at the root of
    /// `path`, or `None` where that file does not exist — which is an
    /// invalid-layer error. A present manifest that does not decode is a
    /// structured-data error; a decoded one becomes the record, with
    /// `path` injected. Discovery skips, rather than aborts on, a
    /// directory this fails for.
    pub fn load_layer(&self, manifest_text: Option<&str>, path: &str) -> (r: Result<
        Layer,
        LayerError,
    >)
        ensures
            (match (r, manifest_text) {
                (Ok(l), Some(t)) => crate::manifest::manifest_accepted(t@)
                    && crate::manifest::layer_matches_manifest(l, t@, path@),
                (Err(e), Some(t)) => !crate::manifest::manifest_accepted(t@) && e matches
                    LayerError::Json(_),
                (Err(e), None) => e matches LayerError::InvalidLayer(_),
                (Ok(_), None) => false,
            }),
    {
        match manifest_text {
            None => Err(LayerError::InvalidLayer("manifest not found in layer directory".to_owned())),
            Some(t) => {
                match crate::manifest::read_layer(t, path) {
                    Some(l) => Ok(l),
                    None => Err(LayerError::Json("manifest cannot be decoded".to_owned())),
                }
            },
        }
    }

    /// Clears the index and rebuilds it from the records discovered in the
    /// layers directory, atomically with respect to the lock.
    ///
    /// The caller scans the directory and reads each subdirectory's
    /// manifest; entries arrive here in scan order. Whatever the index
    /// held before is dropped, and the table handed back to the lock is
    /// exactly [`LayerTable::rebuild`] of the discovered records — one
    /// entry per discovered identifier, a later record replacing an
    /// earlier one with the same identifier.
    pub fn discover_layers(&self, discovered: Vec<Layer>) -> (r: Result<(), LayerError>)
        requires
            self.wf(),
        ensures
            r is Ok,
    {
        let (_stale, handle) = self.layers.acquire_write();
        let fresh = LayerTable::rebuild(&discovered);
        assert(fresh@ == rebuilt(discovered@));
        handle.release_write(fresh);
        Ok(())
    }
}

impl LayerTable {
    /// Builds the index a discovery pass leaves behind: exactly the
    /// upsert-fold of the discovered records — one entry per discovered
    /// identifier, a later record replacing an earlier one with the same
    /// identifier.
    pub fn rebuild(discovered: &Vec<Layer>) -> (t: LayerTable)
        ensures
            t.wf(),
            t@ == rebuilt(discovered@),
    {
        let mut t = LayerTable::empty();
        let n = discovered.len();
        assert(discovered@.subrange(0, 0) =~= Seq::<Layer>::empty());
        let mut j: usize = 0;
        while j < n
            invariant
                n == discovered@.len(),
                j <= n,
                t.wf(),
                t@ == rebuilt(discovered@.subrange(0, j as int)),
            decreases n - j,
        {
            let l = (&discovered[j]).duplicate();
            t.upsert(l);
            proof {
                let pre = discovered@.subrange(0, j as int);
                let cur = discovered@.subrange(0, j as int + 1);
                assert(cur.drop_last() =~= pre);
                assert(cur.last() == discovered@[j as int]);
            }
            j = j + 1;
        }
        proof {
            assert(discovered@.subrange(0, n as int) =~= discovered@);
        }
        t
    }

    /// Adds `layer` under its identifier, replacing an existing entry with
    /// the same identifier.
    pub fn upsert(&mut self, layer: Layer)
        requires
            old(self).wf(),
        ensures
            final(self).wf(),
            final(self)@ == upsert_outcome(old(self)@, layer),
            contains_id(final(self)@, layer.id@),
    {
        let ghost pre = self@;
        match self.position_of(layer.id.as_str()) {
            Some(i) => {
                let ghost lid = layer.id@;
                self.entries.set(i, layer);
                proof {
                    let at = index_of_id(pre, lid);
                    assert(pre[at].id@ == lid && pre[i as int].id@ == lid);
                    assert(at == i);
                    assert(final(self).wf()) by {
                        assert forall|p: int, q: int|
                            0 <= p < self@.len() && 0 <= q < self@.len() && p != q
                        implies self@[p].id@ != self@[q].id@ by {}
                    }
                    assert(self@[i as int].id@ == lid);
                }
            },
            None => {
                let ghost lid = layer.id@;
                self.entries.push(layer);
                proof {
                    assert(final(self).wf()) by {
                        assert forall|p: int, q: int|
                            0 <= p < self@.len() && 0 <= q < self@.len() && p != q
                        implies self@[p].id@ != self@[q].id@ by {
                            assert(!contains_id(pre, lid));
                        }
                    }
                    assert(self@[pre.len() as int].id@ == lid);
                }
            },
        }
    }
}

} // verus!
