//! The plugin registry: the plugins found in the plugins directory, each with
//! what its manifest says, its checked permissions and its state, kept in
//! order of plugin id.

use vstd::prelude::*;
use crate::plugin::{parse_spec, KnownPermission, PermissionGate, PluginError, PluginState};
use crate::audit::{summary_spec, truncate_output_summary};
use crate::digest::{hex_bytes, input_hash_prefix, sha256};
use crate::text::{
    lemma_str_lt_irrefl, lemma_str_lt_total, lemma_str_lt_trans, owned, same_text, str_less, str_lt,
    push_str, strs,
};

verus! {

/// What the registry reads of a plugin manifest.
#[derive(Debug, Clone)]
pub struct PluginManifestInfo {
    pub id: String,
    pub name: String,
    pub api_version: u32,
    pub permissions: Vec<String>,
    pub event_subscribe: Vec<String>,
}

/// A discovered plugin: its manifest, where the manifest lies, the
/// permissions it was granted and its state.
#[derive(Debug)]
pub struct PluginHandle {
    pub manifest: PluginManifestInfo,
    pub manifest_path: String,
    pub permission: PermissionGate,
    pub state: PluginState,
}

/// The plain value of a plugin handle.
pub struct HandleView {
    pub id: Seq<char>,
    pub name: Seq<char>,
    pub api_version: u32,
    pub permissions: Seq<Seq<char>>,
    pub subscribe: Seq<Seq<char>>,
    pub path: Seq<char>,
    pub granted: Set<KnownPermission>,
    pub state: PluginState,
}

pub open spec fn handle_view(h: PluginHandle) -> HandleView {
    HandleView {
        id: h.manifest.id@,
        name: h.manifest.name@,
        api_version: h.manifest.api_version,
        permissions: strs(h.manifest.permissions@),
        subscribe: strs(h.manifest.event_subscribe@),
        path: h.manifest_path@,
        granted: h.permission@,
        state: h.state,
    }
}

impl PluginHandle {
    /// A handle for a manifest and its checked permissions, in state
    /// `Discovered`.
    pub fn new(manifest: PluginManifestInfo, manifest_path: String, permission: PermissionGate) -> (r: PluginHandle)
        ensures
            r.manifest == manifest,
            r.manifest_path == manifest_path,
            r.permission == permission,
            r.state == PluginState::Discovered,
    {
        PluginHandle { manifest, manifest_path, permission, state: PluginState::Discovered }
    }

    /// The plugin id.
    pub fn id(&self) -> (r: &str)
        ensures
            r@ == self.manifest.id@,
    {
        self.manifest.id.as_str()
    }

    /// The plugin name.
    pub fn name(&self) -> (r: &str)
        ensures
            r@ == self.manifest.name@,
    {
        self.manifest.name.as_str()
    }

    /// Whether the plugin is enabled.
    pub fn is_enabled(&self) -> (r: bool)
        ensures
            r == (self.state == PluginState::Enabled),
    {
        self.state == PluginState::Enabled
    }
}

/// The ids of `v` are in strictly increasing order (so no id occurs twice).
pub open spec fn ids_sorted(v: Seq<HandleView>) -> bool {
    forall|i: int, j: int| 0 <= i < j < v.len() ==> str_lt(#[trigger] v[i].id, #[trigger] v[j].id)
}

/// Some plugin of `v` has the id `id`.
pub open spec fn has_id(v: Seq<HandleView>, id: Seq<char>) -> bool {
    exists|i: int| 0 <= i < v.len() && (#[trigger] v[i]).id == id
}

/// Every permission name is known.
pub open spec fn all_known(ps: Seq<Seq<char>>) -> bool {
    forall|i: int| 0 <= i < ps.len() ==> parse_spec(#[trigger] ps[i]) is Some
}

/// The permissions that the names `ps` grant.
pub open spec fn granted_by(ps: Seq<Seq<char>>) -> Set<KnownPermission> {
    Set::new(|p: KnownPermission| exists|i: int| 0 <= i < ps.len() && parse_spec(#[trigger] ps[i]) == Some(p))
}

/// `v` with the state of plugin `i` set to `s`.
pub open spec fn with_state(v: Seq<HandleView>, i: int, s: PluginState) -> Seq<HandleView> {
    v.update(i, HandleView { state: s, ..v[i] })
}

/// The ids of the enabled plugins of `v` that subscribe to `kind`, in
/// order.
pub open spec fn subscribed(v: Seq<HandleView>, kind: Seq<char>) -> Seq<Seq<char>>
    decreases v.len(),
{
    if v.len() == 0 {
        seq![]
    } else {
        let rest = subscribed(v.drop_last(), kind);
        if v.last().state == PluginState::Enabled && v.last().subscribe.contains(kind) {
            rest.push(v.last().id)
        } else {
            rest
        }
    }
}

/// The discovered plugins, in order of id.
pub struct PluginRegistry {
    plugins: Vec<PluginHandle>,
}

impl View for PluginRegistry {
    type V = Seq<HandleView>;

    closed spec fn view(&self) -> Seq<HandleView> {
        Seq::new(self.plugins@.len(), |i: int| handle_view(self.plugins@[i]))
    }
}

/// The views of handles.
pub open spec fn handle_views(v: Seq<PluginHandle>) -> Seq<HandleView> {
    Seq::new(v.len(), |i: int| handle_view(v[i]))
}

/// Where a new id goes: before the first id above it.
proof fn lemma_insert_sorted(v: Seq<HandleView>, i: int, h: HandleView)
    requires
        ids_sorted(v),
        0 <= i <= v.len(),
        forall|k: int| 0 <= k < i ==> str_lt(#[trigger] v[k].id, h.id),
        i < v.len() ==> str_lt(h.id, v[i].id),
    ensures
        ids_sorted(v.insert(i, h)),
        !has_id(v, h.id),
{
    let w = v.insert(i, h);
    assert forall|a: int, b: int| 0 <= a < b < w.len() implies str_lt(#[trigger] w[a].id, #[trigger] w[b].id) by {
        if b < i {
            assert(w[a] == v[a] && w[b] == v[b]);
        } else if b == i {
            assert(w[a] == v[a]);
        } else if a < i {
            assert(w[a] == v[a] && w[b] == v[b - 1]);
            if b - 1 > i {
                lemma_str_lt_trans(v[a].id, h.id, v[i].id);
                lemma_str_lt_trans(v[a].id, v[i].id, v[b - 1].id);
            } else {
                lemma_str_lt_trans(v[a].id, h.id, v[i].id);
            }
        } else if a == i {
            assert(w[b] == v[b - 1]);
            if b - 1 > i {
                lemma_str_lt_trans(h.id, v[i].id, v[b - 1].id);
            }
        } else {
            assert(w[a] == v[a - 1] && w[b] == v[b - 1]);
        }
    }
    if has_id(v, h.id) {
        let k = choose|k: int| 0 <= k < v.len() && (#[trigger] v[k]).id == h.id;
        lemma_str_lt_irrefl(h.id);
        if k > i {
            lemma_str_lt_trans(h.id, v[i].id, v[k].id);
        }
    }
}

impl PluginRegistry {
    #[verifier::type_invariant]
    spec fn in_id_order(&self) -> bool {
        ids_sorted(self@)
    }

    /// An empty registry.
    pub fn new() -> (r: Self)
        ensures
            r@ == Seq::<HandleView>::empty(),
    {
        let r = PluginRegistry { plugins: Vec::new() };
        proof {
            assert(r@ =~= Seq::<HandleView>::empty());
        }
        r
    }

    /// Registers a plugin from its manifest, as discovery does for each
    /// manifest found: refused when its protocol version is not the host's,
    /// when it asks for an unknown permission (the first one), or when a
    /// plugin with its id is registered already; else added in state
    /// `Discovered` with the permissions it asks for.
    pub fn register(&mut self, manifest: PluginManifestInfo, manifest_path: String, host_api_version: u32) -> (r: Result<(), PluginError>)
        ensures
            ids_sorted(final(self)@),
            manifest.api_version != host_api_version ==> final(self)@ == old(self)@ && (r matches Err(
                PluginError::ApiVersionMismatch { plugin_id, host, plugin },
            ) && plugin_id@ == manifest.id@ && host == host_api_version && plugin == manifest.api_version),
            manifest.api_version == host_api_version && !all_known(strs(manifest.permissions@))
                ==> final(self)@ == old(self)@ && exists|i: int|
                0 <= i < manifest.permissions@.len() && parse_spec(#[trigger] manifest.permissions@[i]@) is None
                    && (forall|j: int| 0 <= j < i ==> parse_spec(#[trigger] manifest.permissions@[j]@) is Some)
                    && (r matches Err(PluginError::UnknownPermission { plugin_id, permission })
                    && plugin_id@ == manifest.id@ && permission@ == manifest.permissions@[i]@),
            manifest.api_version == host_api_version && all_known(strs(manifest.permissions@)) && has_id(
                old(self)@,
                manifest.id@,
            ) ==> final(self)@ == old(self)@ && (r matches Err(PluginError::DuplicatePluginId(id))
                && id@ == manifest.id@),
            manifest.api_version == host_api_version && all_known(strs(manifest.permissions@)) && !has_id(
                old(self)@,
                manifest.id@,
            ) ==> r is Ok && exists|p: int|
                0 <= p <= old(self)@.len() && final(self)@ == old(self)@.insert(
                    p,
                    HandleView {
                        id: manifest.id@,
                        name: manifest.name@,
                        api_version: manifest.api_version,
                        permissions: strs(manifest.permissions@),
                        subscribe: strs(manifest.event_subscribe@),
                        path: manifest_path@,
                        granted: granted_by(strs(manifest.permissions@)),
                        state: PluginState::Discovered,
                    },
                ),
    {
        proof {
            use_type_invariant(&*self);
        }
        if manifest.api_version != host_api_version {
            return Err(
                PluginError::ApiVersionMismatch {
                    plugin_id: manifest.id.clone(),
                    host: host_api_version,
                    plugin: manifest.api_version,
                },
            );
        }
        let gate = match PermissionGate::from_manifest_permissions(manifest.permissions.as_slice(), manifest.id.as_str()) {
            Ok(g) => g,
            Err(e) => {
                proof {
                    let i = choose|i: int|
                        0 <= i < manifest.permissions@.len() && parse_spec(#[trigger] manifest.permissions@[i]@) is None
                            && (forall|j: int| 0 <= j < i ==> parse_spec(#[trigger] manifest.permissions@[j]@) is Some)
                            && (e matches PluginError::UnknownPermission { plugin_id: id, permission: perm }
                            && id@ == manifest.id@ && perm@ == manifest.permissions@[i]@);
                    assert(strs(manifest.permissions@)[i] == manifest.permissions@[i]@);
                    assert(!all_known(strs(manifest.permissions@)));
                }
                return Err(e);
            },
        };
        proof {
            assert forall|j: int| 0 <= j < manifest.permissions@.len() implies
                parse_spec(#[trigger] strs(manifest.permissions@)[j]) is Some by {
                assert(strs(manifest.permissions@)[j] == manifest.permissions@[j]@);
            }
            assert(gate@ =~= granted_by(strs(manifest.permissions@))) by {
                assert forall|p: KnownPermission| gate@.contains(p) <==> granted_by(strs(manifest.permissions@)).contains(p) by {
                    if gate@.contains(p) {
                        let i = choose|i: int| 0 <= i < manifest.permissions@.len() && parse_spec(#[trigger] manifest.permissions@[i]@) == Some(p);
                        assert(strs(manifest.permissions@)[i] == manifest.permissions@[i]@);
                    }
                    if granted_by(strs(manifest.permissions@)).contains(p) {
                        let i = choose|i: int| 0 <= i < strs(manifest.permissions@).len() && parse_spec(#[trigger] strs(manifest.permissions@)[i]) == Some(p);
                        assert(strs(manifest.permissions@)[i] == manifest.permissions@[i]@);
                    }
                }
            }
        }
        let ghost old_view = self@;
        let mut i: usize = 0;
        while i < self.plugins.len() && str_less(self.plugins[i].manifest.id.as_str(), manifest.id.as_str())
            invariant
                i <= self.plugins@.len(),
                old_view == self@,
                ids_sorted(old_view),
                forall|k: int| 0 <= k < i ==> str_lt(#[trigger] old_view[k].id, manifest.id@),
            decreases self.plugins@.len() - i,
        {
            i = i + 1;
        }
        if i < self.plugins.len() && same_text(self.plugins[i].manifest.id.as_str(), manifest.id.as_str()) {
            proof {
                assert(old_view[i as int].id == manifest.id@);
            }
            return Err(PluginError::DuplicatePluginId(manifest.id.clone()));
        }
        let ghost hv = HandleView {
            id: manifest.id@,
            name: manifest.name@,
            api_version: manifest.api_version,
            permissions: strs(manifest.permissions@),
            subscribe: strs(manifest.event_subscribe@),
            path: manifest_path@,
            granted: granted_by(strs(manifest.permissions@)),
            state: PluginState::Discovered,
        };
        proof {
            if i < old_view.len() {
                lemma_str_lt_total(old_view[i as int].id, manifest.id@);
            }
            lemma_insert_sorted(old_view, i as int, hv);
        }
        let mut v: Vec<PluginHandle> = Vec::new();
        std::mem::swap(&mut v, &mut self.plugins);
        let handle = PluginHandle::new(manifest, manifest_path, gate);
        let ghost before = v@;
        v.insert(i, handle);
        proof {
            assert(handle_views(before) == old_view);
            assert(handle_views(v@) =~= old_view.insert(i as int, hv));
        }
        self.plugins = v;
        proof {
            assert(self@ =~= old_view.insert(i as int, hv));
        }
        Ok(())
    }

    /// The position of the plugin with id `id`, if any.
    fn position(&self, id: &str) -> (r: Option<usize>)
        ensures
            match r {
                Some(i) => i < self@.len() && self@[i as int].id == id@,
                None => !has_id(self@, id@),
            },
    {
        let mut i: usize = 0;
        while i < self.plugins.len()
            invariant
                i <= self.plugins@.len(),
                forall|k: int| 0 <= k < i ==> (#[trigger] self@[k]).id != id@,
            decreases self.plugins@.len() - i,
        {
            if same_text(self.plugins[i].manifest.id.as_str(), id) {
                return Some(i);
            }
            proof {
                assert(self@[i as int].id == self.plugins@[i as int].manifest.id@);
            }
            i = i + 1;
        }
        None
    }

    /// Sets the state of plugin `i`.
    fn set_state(&mut self, i: usize, s: PluginState)
        requires
            i < old(self)@.len(),
        ensures
            final(self)@ == with_state(old(self)@, i as int, s),
    {
        proof {
            use_type_invariant(&*self);
        }
        let ghost old_view = self@;
        let mut v: Vec<PluginHandle> = Vec::new();
        std::mem::swap(&mut v, &mut self.plugins);
        let ghost before = v@;
        let mut h = v.remove(i);
        h.state = s;
        v.insert(i, h);
        proof {
            assert(handle_views(before) == old_view);
            assert(handle_views(v@) =~= with_state(old_view, i as int, s));
            assert(ids_sorted(with_state(old_view, i as int, s))) by {
                let w = with_state(old_view, i as int, s);
                assert forall|a: int, b: int| 0 <= a < b < w.len() implies str_lt(#[trigger] w[a].id, #[trigger] w[b].id) by {
                    assert(w[a].id == old_view[a].id && w[b].id == old_view[b].id);
                }
            }
        }
        self.plugins = v;
        proof {
            assert(self@ =~= with_state(old_view, i as int, s));
        }
    }

    /// Enables a plugin; refused when no plugin has the id.
    pub fn enable(&mut self, plugin_id: &str) -> (r: Result<(), PluginError>)
        ensures
            ids_sorted(final(self)@),
            match r {
                Ok(()) => exists|i: int|
                    0 <= i < old(self)@.len() && old(self)@[i].id == plugin_id@ && final(self)@ == with_state(
                        old(self)@,
                        i,
                        PluginState::Enabled,
                    ),
                Err(e) => !has_id(old(self)@, plugin_id@) && final(self)@ == old(self)@ && (e matches PluginError::PluginNotFound(id)
                    && id@ == plugin_id@),
            },
            r is Ok <==> has_id(old(self)@, plugin_id@),
    {
        proof {
            use_type_invariant(&*self);
        }
        match self.position(plugin_id) {
            Some(i) => {
                self.set_state(i, PluginState::Enabled);
                proof {
                    use_type_invariant(&*self);
                }
                Ok(())
            },
            None => Err(PluginError::PluginNotFound(owned(plugin_id))),
        }
    }

    /// Disables a plugin; refused when no plugin has the id.
    pub fn disable(&mut self, plugin_id: &str) -> (r: Result<(), PluginError>)
        ensures
            ids_sorted(final(self)@),
            match r {
                Ok(()) => exists|i: int|
                    0 <= i < old(self)@.len() && old(self)@[i].id == plugin_id@ && final(self)@ == with_state(
                        old(self)@,
                        i,
                        PluginState::Disabled,
                    ),
                Err(e) => !has_id(old(self)@, plugin_id@) && final(self)@ == old(self)@ && (e matches PluginError::PluginNotFound(id)
                    && id@ == plugin_id@),
            },
            r is Ok <==> has_id(old(self)@, plugin_id@),
    {
        proof {
            use_type_invariant(&*self);
        }
        match self.position(plugin_id) {
            Some(i) => {
                self.set_state(i, PluginState::Disabled);
                proof {
                    use_type_invariant(&*self);
                }
                Ok(())
            },
            None => Err(PluginError::PluginNotFound(owned(plugin_id))),
        }
    }

    /// The number of registered plugins.
    pub fn count(&self) -> (r: usize)
        ensures
            r == self@.len(),
    {
        self.plugins.len()
    }

    /// The plugin with id `plugin_id`, if any.
    pub fn get(&self, plugin_id: &str) -> (r: Option<&PluginHandle>)
        ensures
            match r {
                Some(h) => has_id(self@, plugin_id@) && exists|i: int|
                    0 <= i < self@.len() && self@[i].id == plugin_id@ && handle_view(*h) == self@[i],
                None => !has_id(self@, plugin_id@),
            },
    {
        match self.position(plugin_id) {
            Some(i) => Some(&self.plugins[i]),
            None => None,
        }
    }

    /// The plugins in order of id.
    pub fn list(&self) -> (r: Vec<&PluginHandle>)
        ensures
            r@.len() == self@.len(),
            forall|i: int| 0 <= i < r@.len() ==> handle_view(*#[trigger] r@[i]) == self@[i],
            ids_sorted(self@),
    {
        proof {
            use_type_invariant(self);
        }
        let mut r: Vec<&PluginHandle> = Vec::new();
        let mut i: usize = 0;
        while i < self.plugins.len()
            invariant
                i <= self.plugins@.len(),
                r@.len() == i,
                forall|k: int| 0 <= k < i ==> handle_view(*#[trigger] r@[k]) == self@[k],
            decreases self.plugins@.len() - i,
        {
            r.push(&self.plugins[i]);
            i = i + 1;
        }
        r
    }

    /// The ids of the enabled plugins that subscribe to events of kind
    /// `kind`, in order of id: the plugins an event of that kind goes to.
    pub fn subscribers(&self, kind: &str) -> (r: Vec<String>)
        ensures
            strs(r@) == subscribed(self@, kind@),
    {
        let mut r: Vec<String> = Vec::new();
        let mut i: usize = 0;
        proof {
            assert(strs(r@) =~= subscribed(self@.take(0), kind@));
        }
        while i < self.plugins.len()
            invariant
                i <= self.plugins@.len(),
                strs(r@) == subscribed(self@.take(i as int), kind@),
            decreases self.plugins@.len() - i,
        {
            let h = &self.plugins[i];
            let ghost hv = self@[i as int];
            proof {
                assert(self@.take(i + 1).drop_last() =~= self@.take(i as int));
                assert(self@.take(i + 1).last() == hv);
            }
            let mut found = false;
            let mut k: usize = 0;
            while k < h.manifest.event_subscribe.len()
                invariant
                    k <= h.manifest.event_subscribe@.len(),
                    hv.subscribe == strs(h.manifest.event_subscribe@),
                    found == exists|m: int| 0 <= m < k && (#[trigger] hv.subscribe[m]) == kind@,
                decreases h.manifest.event_subscribe@.len() - k,
            {
                if same_text(h.manifest.event_subscribe[k].as_str(), kind) {
                    found = true;
                }
                proof {
                    assert(hv.subscribe[k as int] == h.manifest.event_subscribe@[k as int]@);
                }
                k = k + 1;
            }
            proof {
                if found {
                    let m = choose|m: int| 0 <= m < k && (#[trigger] hv.subscribe[m]) == kind@;
                    assert(hv.subscribe.contains(kind@));
                }
                if hv.subscribe.contains(kind@) {
                    let m = choose|m: int| 0 <= m < hv.subscribe.len() && hv.subscribe[m] == kind@;
                    assert(hv.subscribe[m] == kind@);
                }
            }
            if h.state == PluginState::Enabled && found {
                let ghost before = strs(r@);
                r.push(h.manifest.id.clone());
                proof {
                    assert(strs(r@) =~= before.push(hv.id));
                }
            }
            i = i + 1;
        }
        proof {
            assert(self@.take(i as int) =~= self@);
        }
        r
    }
}


// ---------------------------------------------------------------------------
// Calling a plugin
// ---------------------------------------------------------------------------

// ---------------------------------------------------------------------------
// Discovery: all manifests or none
// ---------------------------------------------------------------------------

/// The manifests of the discovered plugin directories.
pub open spec fn manifests_of(found: Seq<(PluginManifestInfo, String)>) -> Seq<PluginManifestInfo> {
    Seq::new(found.len(), |i: int| found[i].0)
}

/// Discovery accepts a manifest: it speaks the host's protocol version, asks
/// only for known permissions, and its id is neither registered nor that of
/// a manifest before it.
pub open spec fn manifest_ok(v: Seq<HandleView>, before: Seq<PluginManifestInfo>, m: PluginManifestInfo, host: u32) -> bool {
    &&& m.api_version == host
    &&& all_known(strs(m.permissions@))
    &&& !has_id(v, m.id@)
    &&& forall|j: int| 0 <= j < before.len() ==> (#[trigger] before[j]).id@ != m.id@
}

/// Discovery accepts every manifest.
pub open spec fn all_ok(v: Seq<HandleView>, ms: Seq<PluginManifestInfo>, host: u32) -> bool {
    forall|i: int| 0 <= i < ms.len() ==> manifest_ok(v, ms.take(i), #[trigger] ms[i], host)
}

/// The error that refuses a manifest: a protocol version mismatch, else the
/// first unknown permission, else a duplicate id.
pub open spec fn refused_with(e: PluginError, m: PluginManifestInfo, host: u32) -> bool {
    if m.api_version != host {
        e matches PluginError::ApiVersionMismatch { plugin_id, host: h, plugin } && plugin_id@ == m.id@ && h == host
            && plugin == m.api_version
    } else if !all_known(strs(m.permissions@)) {
        exists|i: int|
            0 <= i < m.permissions@.len() && parse_spec(#[trigger] m.permissions@[i]@) is None && (forall|j: int|
                0 <= j < i ==> parse_spec(#[trigger] m.permissions@[j]@) is Some) && (e matches PluginError::UnknownPermission {
                plugin_id,
                permission,
            } && plugin_id@ == m.id@ && permission@ == m.permissions@[i]@)
    } else {
        e matches PluginError::DuplicatePluginId(id) && id@ == m.id@
    }
}

/// The handle that registering a manifest found at `path` adds.
pub open spec fn new_handle(m: PluginManifestInfo, path: Seq<char>) -> HandleView {
    HandleView {
        id: m.id@,
        name: m.name@,
        api_version: m.api_version,
        permissions: strs(m.permissions@),
        subscribe: strs(m.event_subscribe@),
        path,
        granted: granted_by(strs(m.permissions@)),
        state: PluginState::Discovered,
    }
}

proof fn lemma_insert_view(v: Seq<HandleView>, p: int, h: HandleView)
    requires
        0 <= p <= v.len(),
    ensures
        v.insert(p, h).to_set() == v.to_set().insert(h),
        forall|id: Seq<char>| has_id(v.insert(p, h), id) == (has_id(v, id) || h.id == id),
{
    let w = v.insert(p, h);
    assert forall|x: HandleView| w.to_set().contains(x) == v.to_set().insert(h).contains(x) by {
        if w.to_set().contains(x) {
            let k = choose|k: int| 0 <= k < w.len() && w[k] == x;
            if k < p {
                assert(v[k] == x);
            } else if k > p {
                assert(v[k - 1] == x);
            }
        }
        if v.to_set().contains(x) {
            let k = choose|k: int| 0 <= k < v.len() && v[k] == x;
            if k < p {
                assert(w[k] == x);
            } else {
                assert(w[k + 1] == x);
            }
        }
        if x == h {
            assert(w[p] == h);
        }
    }
    assert(w.to_set() =~= v.to_set().insert(h));
    assert forall|id: Seq<char>| has_id(w, id) == (has_id(v, id) || h.id == id) by {
        if has_id(w, id) {
            let k = choose|k: int| 0 <= k < w.len() && (#[trigger] w[k]).id == id;
            if k < p {
                assert(v[k].id == id);
            } else if k > p {
                assert(v[k - 1].id == id);
            }
        }
        if has_id(v, id) {
            let k = choose|k: int| 0 <= k < v.len() && (#[trigger] v[k]).id == id;
            if k < p {
                assert(w[k].id == id);
            } else {
                assert(w[k + 1].id == id);
            }
        }
        if h.id == id {
            assert(w[p].id == id);
        }
    }
}

impl PluginRegistry {
    /// Checks the manifests found, in order, as discovery does, without
    /// registering any: the first one that discovery refuses gives its
    /// error.
    pub fn check_manifests(&self, found: &Vec<(PluginManifestInfo, String)>, host_api_version: u32) -> (r: Result<(), PluginError>)
        ensures
            (r is Ok) == all_ok(self@, manifests_of(found@), host_api_version),
            r is Err ==> exists|i: int|
                0 <= i < found@.len() && all_ok(self@, manifests_of(found@).take(i), host_api_version)
                    && !manifest_ok(self@, manifests_of(found@).take(i), found@[i].0, host_api_version)
                    && refused_with(r->Err_0, found@[i].0, host_api_version),
    {
        let ghost ms = manifests_of(found@);
        let ghost v0 = self@;
        let mut i: usize = 0;
        while i < found.len()
            invariant
                i <= found@.len(),
                ms == manifests_of(found@),
                v0 == self@,
                all_ok(v0, ms.take(i as int), host_api_version),
            decreases found@.len() - i,
        {
            let m = &found[i].0;
            proof {
                assert(ms[i as int] == found@[i as int].0);
                assert(ms.take(i as int).take(i as int) =~= ms.take(i as int));
            }
            if m.api_version != host_api_version {
                return Err(
                    PluginError::ApiVersionMismatch {
                        plugin_id: owned(m.id.as_str()),
                        host: host_api_version,
                        plugin: m.api_version,
                    },
                );
            }
            match PermissionGate::from_manifest_permissions(m.permissions.as_slice(), m.id.as_str()) {
                Ok(_) => {},
                Err(e) => {
                    proof {
                        let k = choose|k: int|
                            0 <= k < m.permissions@.len() && parse_spec(#[trigger] m.permissions@[k]@) is None;
                        assert(strs(m.permissions@)[k] == m.permissions@[k]@);
                    }
                    return Err(e);
                },
            }
            proof {
                assert forall|k: int| 0 <= k < m.permissions@.len() implies parse_spec(#[trigger] strs(m.permissions@)[k]) is Some by {
                    assert(strs(m.permissions@)[k] == m.permissions@[k]@);
                }
            }
            let registered = self.get(m.id.as_str()).is_some();
            let mut j: usize = 0;
            let mut earlier = false;
            while j < i
                invariant
                    j <= i < found@.len(),
                    ms == manifests_of(found@),
                    m == found@[i as int].0,
                    !earlier ==> forall|k: int| 0 <= k < j ==> (#[trigger] ms[k]).id@ != m.id@,
                    earlier ==> exists|k: int| 0 <= k < i && (#[trigger] ms[k]).id@ == m.id@,
                decreases i - j,
            {
                if same_text(found[j].0.id.as_str(), m.id.as_str()) {
                    proof {
                        assert(ms[j as int].id@ == m.id@);
                    }
                    earlier = true;
                }
                j = j + 1;
            }
            if registered || earlier {
                proof {
                    if earlier {
                        let k = choose|k: int| 0 <= k < i && (#[trigger] ms[k]).id@ == m.id@;
                        assert(ms.take(i as int)[k] == ms[k]);
                    }
                }
                return Err(PluginError::DuplicatePluginId(owned(m.id.as_str())));
            }
            proof {
                assert forall|k: int| 0 <= k < ms.take(i as int).len() implies (#[trigger] ms.take(i as int)[k]).id@ != m.id@ by {
                    assert(ms.take(i as int)[k] == ms[k]);
                }
                assert forall|k: int| 0 <= k < i + 1 implies manifest_ok(v0, ms.take(i + 1).take(k), #[trigger] ms.take(i + 1)[k], host_api_version) by {
                    assert(ms.take(i + 1).take(k) =~= ms.take(i as int).take(k) || k == i);
                    if k < i {
                        assert(ms.take(i + 1).take(k) =~= ms.take(i as int).take(k));
                        assert(ms.take(i + 1)[k] == ms.take(i as int)[k]);
                    } else {
                        assert(ms.take(i + 1).take(k) =~= ms.take(i as int));
                        assert(ms.take(i + 1)[k] == ms[i as int]);
                    }
                }
            }
            i = i + 1;
        }
        proof {
            assert(ms.take(found@.len() as int) =~= ms);
        }
        Ok(())
    }

    /// Registers the plugins of all the manifests found, or none of them:
    /// the first manifest that discovery refuses (see `manifest_ok`) gives
    /// its error (see `refused_with`) and leaves the registry as it was;
    /// else every manifest is registered and their number is given.
    pub fn discover_all(&mut self, found: Vec<(PluginManifestInfo, String)>, host_api_version: u32) -> (r: Result<usize, PluginError>)
        ensures
            (r is Ok) == all_ok(old(self)@, manifests_of(found@), host_api_version),
            r is Err ==> final(self)@ == old(self)@ && exists|i: int|
                0 <= i < found@.len() && all_ok(old(self)@, manifests_of(found@).take(i), host_api_version)
                    && !manifest_ok(old(self)@, manifests_of(found@).take(i), found@[i].0, host_api_version)
                    && refused_with(r->Err_0, found@[i].0, host_api_version),
            r matches Ok(n) ==> n == found@.len() && final(self)@.len() == old(self)@.len() + found@.len()
                && final(self)@.to_set() == old(self)@.to_set() + Set::new(
                |h: HandleView| exists|i: int| 0 <= i < found@.len() && h == new_handle(found@[i].0, found@[i].1@),
            ),
    {
        let ghost ms = manifests_of(found@);
        let ghost v0 = self@;
        match self.check_manifests(&found, host_api_version) {
            Ok(()) => {},
            Err(e) => {
                return Err(e);
            },
        }
        let n = found.len();
        let ghost all = found@;
        let mut rest = found;
        while rest.len() > 0
            invariant
                rest@.len() <= all.len() == n,
                rest@ == all.take(rest@.len() as int),
                ms == manifests_of(all),
                all_ok(v0, ms, host_api_version),
                self@.len() == v0.len() + (n - rest@.len()),
                self@.to_set() == v0.to_set() + Set::new(
                    |h: HandleView| exists|k: int| rest@.len() <= k < n && h == new_handle(all[k].0, all[k].1@),
                ),
                forall|id: Seq<char>| has_id(self@, id) == (has_id(v0, id) || exists|k: int|
                    rest@.len() <= k < n && (#[trigger] all[k].0.id@) == id),
            decreases rest@.len(),
        {
            let ghost t = (rest@.len() - 1) as int;
            let ghost before = self@;
            let (m, path) = rest.pop().unwrap();
            proof {
                assert(rest@ =~= all.take(t));
                assert(all[t] == (m, path));
                assert(ms[t] == m);
                assert(manifest_ok(v0, ms.take(t), ms[t], host_api_version));
                assert forall|k: int| t < k < n implies (#[trigger] all[k].0.id@) != m.id@ by {
                    assert(manifest_ok(v0, ms.take(k), ms[k], host_api_version));
                    assert(ms.take(k)[t] == ms[t]);
                    assert(ms[k] == all[k].0);
                }
                assert(!has_id(before, m.id@));
            }
            let ghost h = new_handle(m, path@);
            let res = self.register(m, path, host_api_version);
            proof {
                let p = choose|p: int| 0 <= p <= before.len() && self@ == before.insert(p, h);
                lemma_insert_view(before, p, h);
                assert(self@.to_set() =~= v0.to_set() + Set::new(
                    |x: HandleView| exists|k: int| t <= k < n && x == new_handle(all[k].0, all[k].1@),
                )) by {
                    assert forall|x: HandleView| #![auto] self@.to_set().contains(x) == (v0.to_set() + Set::new(
                        |x: HandleView| exists|k: int| t <= k < n && x == new_handle(all[k].0, all[k].1@),
                    )).contains(x) by {
                        if x == h {
                            assert(new_handle(all[t].0, all[t].1@) == h);
                        }
                        if exists|k: int| t <= k < n && x == new_handle(all[k].0, all[k].1@) {
                            let k = choose|k: int| t <= k < n && x == new_handle(all[k].0, all[k].1@);
                            if k > t {
                                assert(exists|k2: int| t + 1 <= k2 < n && x == new_handle(all[k2].0, all[k2].1@));
                            }
                        }
                    }
                }
                assert forall|id: Seq<char>| has_id(self@, id) == (has_id(v0, id) || exists|k: int|
                    t <= k < n && (#[trigger] all[k].0.id@) == id) by {
                    assert(has_id(self@, id) == (has_id(before, id) || h.id == id));
                    assert(has_id(before, id) == (has_id(v0, id) || exists|k: int|
                        t + 1 <= k < n && (#[trigger] all[k].0.id@) == id));
                    if h.id == id {
                        assert(all[t].0.id@ == id);
                    }
                    if exists|k: int| t + 1 <= k < n && (#[trigger] all[k].0.id@) == id {
                        let k = choose|k: int| t + 1 <= k < n && (#[trigger] all[k].0.id@) == id;
                        assert(t <= k < n && all[k].0.id@ == id);
                    }
                    if exists|k: int| t <= k < n && (#[trigger] all[k].0.id@) == id {
                        let k = choose|k: int| t <= k < n && (#[trigger] all[k].0.id@) == id;
                        if k > t {
                            assert(exists|k2: int| t + 1 <= k2 < n && (#[trigger] all[k2].0.id@) == id);
                        }
                    }
                }
            }
        }
        Ok(n)
    }
}

/// One record of the audit trail: trace, stage, input hash, output summary
/// and the rule applied (`success` or `error` when the call ended).
#[derive(Debug, Clone)]
pub struct AuditRecord {
    pub trace_id: String,
    pub stage: String,
    pub inputs_hash: Option<String>,
    pub output_summary: Option<String>,
    pub applied_rule: Option<String>,
}

/// The plain value of an audit record.
pub open spec fn record_view(a: AuditRecord) -> (Seq<char>, Seq<char>, Option<Seq<char>>, Option<Seq<char>>, Option<Seq<char>>) {
    (a.trace_id@, a.stage@, opt_view(a.inputs_hash), opt_view(a.output_summary), opt_view(a.applied_rule))
}

pub open spec fn opt_view(o: Option<String>) -> Option<Seq<char>> {
    match o {
        Some(s) => Some(s@),
        None => None,
    }
}

/// A call ready to go out: the plugin, the method, the audit stage
/// `plugin.{id}.{method}`, the hash of the parameters and the record that
/// opens the call in the audit trail.
#[derive(Debug, Clone)]
pub struct CallPlan {
    pub plugin_id: String,
    pub method: String,
    pub trace_id: String,
    pub stage: String,
    pub inputs_hash: String,
    pub begin: AuditRecord,
}

/// The audit stage of a call.
pub open spec fn stage_spec(id: Seq<char>, method: Seq<char>) -> Seq<char> {
    "plugin."@ + id + "."@ + method
}

/// Plans a call of `method` on the plugin `plugin_id` with the parameters
/// serialised as `params` (JSON bytes): refused with `PluginNotFound` when no
/// plugin has the id, before anything else; else the stage, the first 16 hex
/// digits of the SHA-256 of the parameters, and the opening audit record
/// (no summary, no rule).
pub fn call_plan(reg: &PluginRegistry, plugin_id: &str, method: &str, params: &[u8], trace_id: &str) -> (r: Result<CallPlan, PluginError>)
    ensures
        match r {
            Err(e) => !has_id(reg@, plugin_id@) && (e matches PluginError::PluginNotFound(id) && id@ == plugin_id@),
            Ok(p) => has_id(reg@, plugin_id@) && p.plugin_id@ == plugin_id@ && p.method@ == method@ && p.trace_id@ == trace_id@
                && p.stage@ == stage_spec(plugin_id@, method@) && p.inputs_hash@ == hex_bytes(sha256(params@)).take(16)
                && record_view(p.begin) == (trace_id@, stage_spec(plugin_id@, method@), Some(p.inputs_hash@), None::<Seq<char>>, None::<Seq<char>>),
        },
{
    match reg.get(plugin_id) {
        None => Err(PluginError::PluginNotFound(owned(plugin_id))),
        Some(_) => {
            let mut stage = owned("plugin.");
            push_str(&mut stage, plugin_id);
            push_str(&mut stage, ".");
            push_str(&mut stage, method);
            let hash = input_hash_prefix(params);
            let begin = AuditRecord {
                trace_id: owned(trace_id),
                stage: stage.clone(),
                inputs_hash: Some(hash.clone()),
                output_summary: None,
                applied_rule: None,
            };
            Ok(CallPlan {
                plugin_id: owned(plugin_id),
                method: owned(method),
                trace_id: owned(trace_id),
                stage,
                inputs_hash: hash,
                begin,
            })
        },
    }
}

/// What came back from the plugin's process.
#[derive(Debug, Clone)]
pub enum TransportReply {
    /// No connection could be made; the cause.
    NotRunning(String),
    /// The plugin answered with a result (as JSON text).
    Answer(String),
    /// The plugin answered with an error message.
    Refused(String),
    /// Sending or receiving failed; the transport's message.
    Failed(String),
}

/// The text of a `NotRunning` error.
pub open spec fn not_running_text(id: Seq<char>, cause: Seq<char>) -> Seq<char> {
    "plugin 프로세스 미실행 (plugin_id="@ + id + "): "@ + cause
}

/// The result of a call and its audit trail: the opening record, then the
/// closing record with the summary and rule. A connection failure gives
/// `NotRunning` (summary `not_running: ` and the error text, not cut); an
/// answer gives `Ok` with its text (summary cut, rule `success`); a refusal
/// gives `IpcProtocol` with the message (summary cut, rule `error`); a
/// transport failure gives `IpcTransport` (summary cut, rule `error`) and
/// asks for the cached connection to be dropped (`true`).
pub fn call_outcome(plan: &CallPlan, reply: TransportReply) -> (r: (Result<String, PluginError>, Vec<AuditRecord>, bool))
    ensures
        r.1@.len() == 2,
        record_view(r.1@[0]) == record_view(plan.begin),
        record_view(r.1@[1]).0 == plan.trace_id@,
        record_view(r.1@[1]).1 == plan.stage@,
        record_view(r.1@[1]).2 == Some(plan.inputs_hash@),
        match reply {
            TransportReply::NotRunning(cause) => r.2 == false && (r.0 matches Err(PluginError::NotRunning { plugin_id, cause: c })
                && plugin_id@ == plan.plugin_id@ && c@ == cause@) && record_view(r.1@[1]).3 == Some(
                "not_running: "@ + not_running_text(plan.plugin_id@, cause@),
            ) && record_view(r.1@[1]).4 == Some("error"@),
            TransportReply::Answer(text) => r.2 == false && (r.0 matches Ok(t) && t@ == text@) && record_view(r.1@[1]).3
                == Some(summary_spec(text@)) && record_view(r.1@[1]).4 == Some("success"@),
            TransportReply::Refused(message) => r.2 == false && (r.0 matches Err(PluginError::IpcProtocol(m))
                && m@ == message@) && record_view(r.1@[1]).3 == Some(summary_spec(message@)) && record_view(r.1@[1]).4
                == Some("error"@),
            TransportReply::Failed(message) => r.2 == true && (r.0 matches Err(PluginError::IpcTransport(m))
                && m@ == message@) && record_view(r.1@[1]).3 == Some(summary_spec(message@)) && record_view(r.1@[1]).4
                == Some("error"@),
        },
{
    let (result, summary, rule, invalidate) = match reply {
        TransportReply::NotRunning(cause) => {
            let mut text = owned("not_running: ");
            push_str(&mut text, "plugin 프로세스 미실행 (plugin_id=");
            push_str(&mut text, plan.plugin_id.as_str());
            push_str(&mut text, "): ");
            push_str(&mut text, cause.as_str());
            proof {
                assert(text@ =~= "not_running: "@ + not_running_text(plan.plugin_id@, cause@));
            }
            (Err(PluginError::NotRunning { plugin_id: plan.plugin_id.clone(), cause }), text, owned("error"), false)
        },
        TransportReply::Answer(text) => {
            let sm = truncate_output_summary(text.as_str());
            (Ok(text), sm, owned("success"), false)
        },
        TransportReply::Refused(message) => {
            let sm = truncate_output_summary(message.as_str());
            (Err(PluginError::IpcProtocol(message)), sm, owned("error"), false)
        },
        TransportReply::Failed(message) => {
            let sm = truncate_output_summary(message.as_str());
            (Err(PluginError::IpcTransport(message)), sm, owned("error"), true)
        },
    };
    let end = AuditRecord {
        trace_id: plan.trace_id.clone(),
        stage: plan.stage.clone(),
        inputs_hash: Some(plan.inputs_hash.clone()),
        output_summary: Some(summary),
        applied_rule: Some(rule),
    };
    let begin = AuditRecord {
        trace_id: plan.begin.trace_id.clone(),
        stage: plan.begin.stage.clone(),
        inputs_hash: match &plan.begin.inputs_hash {
            Some(h) => Some(h.clone()),
            None => None,
        },
        output_summary: match &plan.begin.output_summary {
            Some(h) => Some(h.clone()),
            None => None,
        },
        applied_rule: match &plan.begin.applied_rule {
            Some(h) => Some(h.clone()),
            None => None,
        },
    };
    let mut records: Vec<AuditRecord> = Vec::new();
    records.push(begin);
    records.push(end);
    (result, records, invalidate)
}


/// A manifest's permissions grant as many permissions as it names distinct
/// permission names (names that are all known): the grant count of a
/// registered plugin is its number of distinct permission names.
pub proof fn lemma_grant_count(ps: Seq<Seq<char>>)
    requires
        all_known(ps),
    ensures
        granted_by(ps).finite(),
        granted_by(ps).len() == ps.to_set().len(),
{
    let x = ps.to_set();
    let f = |n: Seq<char>| parse_spec(n).unwrap();
    vstd::seq_lib::seq_to_set_is_finite(ps);
    assert forall|a: Seq<char>, b: Seq<char>| x.contains(a) && x.contains(b) && #[trigger] f(a) == #[trigger] f(b) implies a == b by {
        let i = choose|i: int| 0 <= i < ps.len() && ps[i] == a;
        let j = choose|j: int| 0 <= j < ps.len() && ps[j] == b;
        assert(parse_spec(ps[i]) is Some);
        assert(parse_spec(ps[j]) is Some);
        crate::plugin::lemma_parsed_name(a);
        crate::plugin::lemma_parsed_name(b);
    }
    assert(vstd::relations::injective_on(f, x));
    assert(x.map(f) =~= granted_by(ps)) by {
        assert forall|p: KnownPermission| x.map(f).contains(p) <==> granted_by(ps).contains(p) by {
            if x.map(f).contains(p) {
                let a = choose|a: Seq<char>| x.contains(a) && f(a) == p;
                let i = choose|i: int| 0 <= i < ps.len() && ps[i] == a;
                assert(parse_spec(ps[i]) is Some);
                assert(parse_spec(ps[i]) == Some(p));
            }
            if granted_by(ps).contains(p) {
                let i = choose|i: int| 0 <= i < ps.len() && parse_spec(#[trigger] ps[i]) == Some(p);
                assert(x.contains(ps[i]));
                assert(f(ps[i]) == p);
            }
        }
    }
    vstd::set_lib::lemma_map_size(x, granted_by(ps), f);
}

} // verus!
