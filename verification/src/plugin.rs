//! Plugins: their known permissions, the checked set of permissions of one
//! plugin, and the states of a plugin.

use vstd::prelude::*;
use crate::text::{same_text, str_lt, strs, lemma_str_lt_trans};

verus! {

/// The state of a discovered plugin.
#[derive(Debug, Clone, Copy, PartialEq, Eq, Structural)]
pub enum PluginState {
    /// Found on disk, manifest loaded, not contributing to the host yet.
    Discovered,
    /// Enabled: its contributions are registered with the host.
    Enabled,
    /// Disabled by the user or after a failed enable.
    Disabled,
}

/// What can go wrong with plugins.
#[derive(Debug, Clone, PartialEq, Eq)]
pub enum PluginError {
    /// The plugin directory could not be read.
    Io(String),
    /// A manifest could not be parsed.
    ManifestParse { plugin_dir: String, source: String },
    /// The plugin speaks another protocol version than the host.
    ApiVersionMismatch { plugin_id: String, host: u32, plugin: u32 },
    /// A manifest asks for a permission that is not known.
    UnknownPermission { plugin_id: String, permission: String },
    /// Two plugins share one id.
    DuplicatePluginId(String),
    /// No plugin has this id.
    PluginNotFound(String),
    /// The plugin process is not running.
    NotRunning { plugin_id: String, cause: String },
    /// Sending or receiving over the channel failed.
    IpcTransport(String),
    /// The plugin answered with an error.
    IpcProtocol(String),
}

/// The permissions that a plugin manifest may ask for.
#[derive(Debug, Clone, Copy, PartialEq, Eq, Hash, Structural)]
pub enum KnownPermission {
    VectorDbRead,
    AuditWrite,
    ConfigRead,
    ConfigWrite,
    SnapshotWrite,
    SignalRead,
    TodoRead,
    TodoWrite,
    LlmCall,
    CacheRead,
    CacheWrite,
    FsWrite,
}

/// The name of each permission in a manifest.
pub open spec fn perm_name(p: KnownPermission) -> Seq<char> {
    match p {
        KnownPermission::VectorDbRead => "vector_db.read"@,
        KnownPermission::AuditWrite => "audit.write"@,
        KnownPermission::ConfigRead => "config.read"@,
        KnownPermission::ConfigWrite => "config.write"@,
        KnownPermission::SnapshotWrite => "snapshot.write"@,
        KnownPermission::SignalRead => "signal.read"@,
        KnownPermission::TodoRead => "todo.read"@,
        KnownPermission::TodoWrite => "todo.write"@,
        KnownPermission::LlmCall => "llm.call"@,
        KnownPermission::CacheRead => "cache.read"@,
        KnownPermission::CacheWrite => "cache.write"@,
        KnownPermission::FsWrite => "fs.write"@,
    }
}

/// The permission that a manifest name stands for, if any.
pub open spec fn parse_spec(name: Seq<char>) -> Option<KnownPermission> {
    if name == "vector_db.read"@ {
        Some(KnownPermission::VectorDbRead)
    } else if name == "audit.write"@ {
        Some(KnownPermission::AuditWrite)
    } else if name == "config.read"@ {
        Some(KnownPermission::ConfigRead)
    } else if name == "config.write"@ {
        Some(KnownPermission::ConfigWrite)
    } else if name == "snapshot.write"@ {
        Some(KnownPermission::SnapshotWrite)
    } else if name == "signal.read"@ {
        Some(KnownPermission::SignalRead)
    } else if name == "todo.read"@ {
        Some(KnownPermission::TodoRead)
    } else if name == "todo.write"@ {
        Some(KnownPermission::TodoWrite)
    } else if name == "llm.call"@ {
        Some(KnownPermission::LlmCall)
    } else if name == "cache.read"@ {
        Some(KnownPermission::CacheRead)
    } else if name == "cache.write"@ {
        Some(KnownPermission::CacheWrite)
    } else if name == "fs.write"@ {
        Some(KnownPermission::FsWrite)
    } else {
        None
    }
}

/// Every permission, in the order of their names.
pub open spec fn name_order() -> Seq<KnownPermission> {
    seq![
        KnownPermission::AuditWrite,
        KnownPermission::CacheRead,
        KnownPermission::CacheWrite,
        KnownPermission::ConfigRead,
        KnownPermission::ConfigWrite,
        KnownPermission::FsWrite,
        KnownPermission::LlmCall,
        KnownPermission::SignalRead,
        KnownPermission::SnapshotWrite,
        KnownPermission::TodoRead,
        KnownPermission::TodoWrite,
        KnownPermission::VectorDbRead,
    ]
}

/// Every permission, in the order of declaration.
pub open spec fn declared_order() -> Seq<KnownPermission> {
    seq![
        KnownPermission::VectorDbRead,
        KnownPermission::AuditWrite,
        KnownPermission::ConfigRead,
        KnownPermission::ConfigWrite,
        KnownPermission::SnapshotWrite,
        KnownPermission::SignalRead,
        KnownPermission::TodoRead,
        KnownPermission::TodoWrite,
        KnownPermission::LlmCall,
        KnownPermission::CacheRead,
        KnownPermission::CacheWrite,
        KnownPermission::FsWrite,
    ]
}

/// The permissions of `order` that are in `granted`, in the order of `order`.
pub open spec fn granted_in_order(order: Seq<KnownPermission>, granted: Set<KnownPermission>) -> Seq<
    KnownPermission,
>
    decreases order.len(),
{
    if order.len() == 0 {
        seq![]
    } else {
        let rest = granted_in_order(order.drop_last(), granted);
        if granted.contains(order.last()) {
            rest.push(order.last())
        } else {
            rest
        }
    }
}

/// The names of a sequence of permissions.
pub open spec fn perm_names(ps: Seq<KnownPermission>) -> Seq<Seq<char>> {
    Seq::new(ps.len(), |i: int| perm_name(ps[i]))
}

fn permission_at(i: usize) -> (p: KnownPermission)
    requires
        i < 12,
    ensures
        p == name_order()[i as int],
{
    match i {
        0 => KnownPermission::AuditWrite,
        1 => KnownPermission::CacheRead,
        2 => KnownPermission::CacheWrite,
        3 => KnownPermission::ConfigRead,
        4 => KnownPermission::ConfigWrite,
        5 => KnownPermission::FsWrite,
        6 => KnownPermission::LlmCall,
        7 => KnownPermission::SignalRead,
        8 => KnownPermission::SnapshotWrite,
        9 => KnownPermission::TodoRead,
        10 => KnownPermission::TodoWrite,
        _ => KnownPermission::VectorDbRead,
    }
}

impl KnownPermission {
    /// The permission named `name` in a manifest, if it is a known one.
    pub fn parse(name: &str) -> (r: Option<KnownPermission>)
        ensures
            r == parse_spec(name@),
    {
        if same_text(name, "vector_db.read") {
            Some(KnownPermission::VectorDbRead)
        } else if same_text(name, "audit.write") {
            Some(KnownPermission::AuditWrite)
        } else if same_text(name, "config.read") {
            Some(KnownPermission::ConfigRead)
        } else if same_text(name, "config.write") {
            Some(KnownPermission::ConfigWrite)
        } else if same_text(name, "snapshot.write") {
            Some(KnownPermission::SnapshotWrite)
        } else if same_text(name, "signal.read") {
            Some(KnownPermission::SignalRead)
        } else if same_text(name, "todo.read") {
            Some(KnownPermission::TodoRead)
        } else if same_text(name, "todo.write") {
            Some(KnownPermission::TodoWrite)
        } else if same_text(name, "llm.call") {
            Some(KnownPermission::LlmCall)
        } else if same_text(name, "cache.read") {
            Some(KnownPermission::CacheRead)
        } else if same_text(name, "cache.write") {
            Some(KnownPermission::CacheWrite)
        } else if same_text(name, "fs.write") {
            Some(KnownPermission::FsWrite)
        } else {
            None
        }
    }

    /// The name of the permission in a manifest.
    pub fn as_str(self) -> (r: &'static str)
        ensures
            r@ == perm_name(self),
    {
        match self {
            KnownPermission::VectorDbRead => "vector_db.read",
            KnownPermission::AuditWrite => "audit.write",
            KnownPermission::ConfigRead => "config.read",
            KnownPermission::ConfigWrite => "config.write",
            KnownPermission::SnapshotWrite => "snapshot.write",
            KnownPermission::SignalRead => "signal.read",
            KnownPermission::TodoRead => "todo.read",
            KnownPermission::TodoWrite => "todo.write",
            KnownPermission::LlmCall => "llm.call",
            KnownPermission::CacheRead => "cache.read",
            KnownPermission::CacheWrite => "cache.write",
            KnownPermission::FsWrite => "fs.write",
        }
    }

    /// Every known permission with its name, in the order of declaration.
    pub fn all() -> (r: Vec<(&'static str, KnownPermission)>)
        ensures
            r@.len() == 12,
            forall|i: int|
                0 <= i < 12 ==> (#[trigger] r@[i]).1 == declared_order()[i] && r@[i].0@
                    == perm_name(r@[i].1),
    {
        let mut v: Vec<(&'static str, KnownPermission)> = Vec::new();
        v.push(("vector_db.read", KnownPermission::VectorDbRead));
        v.push(("audit.write", KnownPermission::AuditWrite));
        v.push(("config.read", KnownPermission::ConfigRead));
        v.push(("config.write", KnownPermission::ConfigWrite));
        v.push(("snapshot.write", KnownPermission::SnapshotWrite));
        v.push(("signal.read", KnownPermission::SignalRead));
        v.push(("todo.read", KnownPermission::TodoRead));
        v.push(("todo.write", KnownPermission::TodoWrite));
        v.push(("llm.call", KnownPermission::LlmCall));
        v.push(("cache.read", KnownPermission::CacheRead));
        v.push(("cache.write", KnownPermission::CacheWrite));
        v.push(("fs.write", KnownPermission::FsWrite));
        v
    }
}

/// The permissions granted to one plugin, after its manifest was checked.
#[derive(Debug)]
pub struct PermissionGate {
    granted: Vec<KnownPermission>,
}

impl View for PermissionGate {
    type V = Set<KnownPermission>;

    closed spec fn view(&self) -> Set<KnownPermission> {
        self.granted@.to_set()
    }
}

impl PermissionGate {
    #[verifier::type_invariant]
    spec fn no_repeats(&self) -> bool {
        self.granted@.no_duplicates()
    }

    /// The grant of the permissions named in a plugin manifest; the first
    /// name that is not a known permission is refused.
    pub fn from_manifest_permissions(permissions: &[String], plugin_id: &str) -> (r: Result<
        PermissionGate,
        PluginError,
    >)
        ensures
            match r {
                Ok(g) => (forall|i: int|
                    0 <= i < permissions@.len() ==> parse_spec(#[trigger] permissions@[i]@) is Some)
                    && g@.len() == strs(permissions@).to_set().len()
                    && g@ == Set::new(
                    |p: KnownPermission|
                        exists|i: int|
                            0 <= i < permissions@.len() && parse_spec(#[trigger] permissions@[i]@)
                                == Some(p),
                ),
                Err(e) => exists|i: int|
                    0 <= i < permissions@.len() && parse_spec(#[trigger] permissions@[i]@) is None
                        && (forall|j: int|
                        0 <= j < i ==> parse_spec(#[trigger] permissions@[j]@) is Some) && (
                    e matches PluginError::UnknownPermission { plugin_id: id, permission: perm }
                        && id@ == plugin_id@ && perm@ == permissions@[i]@),
            },
    {
        let mut granted: Vec<KnownPermission> = Vec::new();
        let mut i: usize = 0;
        while i < permissions.len()
            invariant
                i <= permissions@.len(),
                granted@.no_duplicates(),
                forall|j: int| 0 <= j < i ==> parse_spec(#[trigger] permissions@[j]@) is Some,
                forall|p: KnownPermission|
                    granted@.contains(p) <==> exists|j: int|
                        0 <= j < i && parse_spec(#[trigger] permissions@[j]@) == Some(p),
            decreases permissions@.len() - i,
        {
            match KnownPermission::parse(permissions[i].as_str()) {
                Some(p) => {
                    let mut seen = false;
                    let mut k: usize = 0;
                    while k < granted.len()
                        invariant
                            k <= granted@.len(),
                            seen <==> exists|m: int| 0 <= m < k && granted@[m] == p,
                        decreases granted@.len() - k,
                    {
                        if granted[k] == p {
                            seen = true;
                        }
                        k = k + 1;
                    }
                    let ghost before = granted@;
                    if !seen {
                        granted.push(p);
                    }
                    proof {
                        assert forall|q: KnownPermission|
                            granted@.contains(q) <==> exists|j: int|
                                0 <= j < i + 1 && parse_spec(#[trigger] permissions@[j]@) == Some(
                                    q,
                                ) by {
                            if q == p {
                                assert(parse_spec(permissions@[i as int]@) == Some(q));
                                if seen {
                                    let m = choose|m: int| 0 <= m < k && before[m] == p;
                                    assert(granted@[m] == p);
                                } else {
                                    assert(granted@[granted@.len() - 1] == p);
                                }
                            } else {
                                if granted@.contains(q) {
                                    let m = choose|m: int| 0 <= m < granted@.len() && granted@[m] == q;
                                    assert(before[m] == q);
                                    assert(before.contains(q));
                                }
                                if exists|j: int|
                                    0 <= j < i + 1 && parse_spec(#[trigger] permissions@[j]@)
                                        == Some(q) {
                                    let j = choose|j: int|
                                        0 <= j < i + 1 && parse_spec(#[trigger] permissions@[j]@)
                                            == Some(q);
                                    assert(j < i);
                                    assert(before.contains(q));
                                    let m = choose|m: int| 0 <= m < before.len() && before[m] == q;
                                    assert(granted@[m] == q);
                                }
                            }
                        }
                        if !seen {
                            assert(!before.contains(p));
                        }
                    }
                },
                None => {
                    return Err(
                        PluginError::UnknownPermission {
                            plugin_id: plugin_id.to_owned(),
                            permission: permissions[i].clone(),
                        },
                    );
                },
            }
            i = i + 1;
        }
        let g = PermissionGate { granted };
        proof {
            assert(g@ =~= Set::new(
                |p: KnownPermission|
                    exists|i: int|
                        0 <= i < permissions@.len() && parse_spec(#[trigger] permissions@[i]@)
                            == Some(p),
            ));
            let names = strs(permissions@);
            assert forall|j: int| 0 <= j < names.len() implies parse_spec(#[trigger] names[j]) is Some by {
                assert(names[j] == permissions@[j]@);
            }
            crate::plugin_registry::lemma_grant_count(names);
            assert(g@ =~= crate::plugin_registry::granted_by(names)) by {
                assert forall|p: KnownPermission| g@.contains(p) <==> crate::plugin_registry::granted_by(names).contains(p) by {
                    if g@.contains(p) {
                        let k = choose|k: int| 0 <= k < permissions@.len() && parse_spec(#[trigger] permissions@[k]@) == Some(p);
                        assert(names[k] == permissions@[k]@);
                    }
                    if crate::plugin_registry::granted_by(names).contains(p) {
                        let k = choose|k: int| 0 <= k < names.len() && parse_spec(#[trigger] names[k]) == Some(p);
                        assert(names[k] == permissions@[k]@);
                    }
                }
            }
        }
        Ok(g)
    }

    /// Whether the permission is granted.
    pub fn has(&self, permission: KnownPermission) -> (r: bool)
        ensures
            r == self@.contains(permission),
    {
        let mut k: usize = 0;
        while k < self.granted.len()
            invariant
                k <= self.granted@.len(),
                forall|m: int| 0 <= m < k ==> self.granted@[m] != permission,
            decreases self.granted@.len() - k,
        {
            if self.granted[k] == permission {
                proof {
                    assert(self.granted@.contains(permission));
                }
                return true;
            }
            k = k + 1;
        }
        false
    }

    /// The number of granted permissions.
    pub fn count(&self) -> (r: usize)
        ensures
            r == self@.len(),
    {
        proof {
            use_type_invariant(self);
            self.granted@.unique_seq_to_set();
        }
        self.granted.len()
    }

    /// The names of the granted permissions, in name order.
    pub fn list(&self) -> (r: Vec<&'static str>)
        ensures
            r@.len() == granted_in_order(name_order(), self@).len(),
            forall|i: int|
                0 <= i < r@.len() ==> (#[trigger] r@[i])@ == perm_names(
                    granted_in_order(name_order(), self@),
                )[i],
    {
        let mut r: Vec<&'static str> = Vec::new();
        let ghost mut ps: Seq<KnownPermission> = seq![];
        let mut i: usize = 0;
        while i < 12
            invariant
                i <= 12,
                ps == granted_in_order(name_order().take(i as int), self@),
                r@.len() == ps.len(),
                forall|k: int| 0 <= k < r@.len() ==> (#[trigger] r@[k])@ == perm_name(ps[k]),
            decreases 12 - i,
        {
            let p = permission_at(i);
            proof {
                assert(name_order().take(i + 1).drop_last() =~= name_order().take(i as int));
                assert(name_order().take(i + 1).last() == p);
            }
            if self.has(p) {
                r.push(p.as_str());
                proof {
                    ps = ps.push(p);
                }
            }
            i = i + 1;
        }
        proof {
            assert(name_order().take(12) =~= name_order());
        }
        r
    }
}

impl Default for PermissionGate {
    fn default() -> (r: Self)
        ensures
            r@ == Set::<KnownPermission>::empty(),
    {
        let r = PermissionGate { granted: Vec::new() };
        proof {
            assert(r@ =~= Set::<KnownPermission>::empty());
        }
        r
    }
}

// ---------------------------------------------------------------------------
// Laws
// ---------------------------------------------------------------------------

/// A permission's name parses back to the permission.
pub proof fn lemma_parse_name_round_trip(p: KnownPermission)
    ensures
        parse_spec(perm_name(p)) == Some(p),
{
    reveal_strlit("vector_db.read");
    reveal_strlit("audit.write");
    reveal_strlit("config.read");
    reveal_strlit("config.write");
    reveal_strlit("snapshot.write");
    reveal_strlit("signal.read");
    reveal_strlit("todo.read");
    reveal_strlit("todo.write");
    reveal_strlit("llm.call");
    reveal_strlit("cache.read");
    reveal_strlit("cache.write");
    reveal_strlit("fs.write");
    match p {
        KnownPermission::VectorDbRead => {},
        KnownPermission::AuditWrite => {
            assert("audit.write"@.len() != "vector_db.read"@.len());
        },
        KnownPermission::ConfigRead => {
            assert("config.read"@.len() != "vector_db.read"@.len());
            assert("config.read"@[0] != "audit.write"@[0]);
        },
        KnownPermission::ConfigWrite => {
            assert("config.write"@.len() != "vector_db.read"@.len());
            assert("config.write"@.len() != "audit.write"@.len());
            assert("config.write"@.len() != "config.read"@.len());
        },
        KnownPermission::SnapshotWrite => {
            assert("snapshot.write"@[0] != "vector_db.read"@[0]);
            assert("snapshot.write"@.len() != "audit.write"@.len());
            assert("snapshot.write"@.len() != "config.read"@.len());
            assert("snapshot.write"@.len() != "config.write"@.len());
        },
        KnownPermission::SignalRead => {
            assert("signal.read"@.len() != "vector_db.read"@.len());
            assert("signal.read"@[0] != "audit.write"@[0]);
            assert("signal.read"@[0] != "config.read"@[0]);
            assert("signal.read"@.len() != "config.write"@.len());
            assert("signal.read"@.len() != "snapshot.write"@.len());
        },
        KnownPermission::TodoRead => {
            assert("todo.read"@.len() != "vector_db.read"@.len());
            assert("todo.read"@.len() != "audit.write"@.len());
            assert("todo.read"@.len() != "config.read"@.len());
            assert("todo.read"@.len() != "config.write"@.len());
            assert("todo.read"@.len() != "snapshot.write"@.len());
            assert("todo.read"@.len() != "signal.read"@.len());
        },
        KnownPermission::TodoWrite => {
            assert("todo.write"@.len() != "vector_db.read"@.len());
            assert("todo.write"@.len() != "audit.write"@.len());
            assert("todo.write"@.len() != "config.read"@.len());
            assert("todo.write"@.len() != "config.write"@.len());
            assert("todo.write"@.len() != "snapshot.write"@.len());
            assert("todo.write"@.len() != "signal.read"@.len());
            assert("todo.write"@.len() != "todo.read"@.len());
        },
        KnownPermission::LlmCall => {
            assert("llm.call"@.len() != "vector_db.read"@.len());
            assert("llm.call"@.len() != "audit.write"@.len());
            assert("llm.call"@.len() != "config.read"@.len());
            assert("llm.call"@.len() != "config.write"@.len());
            assert("llm.call"@.len() != "snapshot.write"@.len());
            assert("llm.call"@.len() != "signal.read"@.len());
            assert("llm.call"@.len() != "todo.read"@.len());
            assert("llm.call"@.len() != "todo.write"@.len());
        },
        KnownPermission::CacheRead => {
            assert("cache.read"@.len() != "vector_db.read"@.len());
            assert("cache.read"@.len() != "audit.write"@.len());
            assert("cache.read"@.len() != "config.read"@.len());
            assert("cache.read"@.len() != "config.write"@.len());
            assert("cache.read"@.len() != "snapshot.write"@.len());
            assert("cache.read"@.len() != "signal.read"@.len());
            assert("cache.read"@.len() != "todo.read"@.len());
            assert("cache.read"@[0] != "todo.write"@[0]);
            assert("cache.read"@.len() != "llm.call"@.len());
        },
        KnownPermission::CacheWrite => {
            assert("cache.write"@.len() != "vector_db.read"@.len());
            assert("cache.write"@[0] != "audit.write"@[0]);
            assert("cache.write"@[1] != "config.read"@[1]);
            assert("cache.write"@.len() != "config.write"@.len());
            assert("cache.write"@.len() != "snapshot.write"@.len());
            assert("cache.write"@[0] != "signal.read"@[0]);
            assert("cache.write"@.len() != "todo.read"@.len());
            assert("cache.write"@.len() != "todo.write"@.len());
            assert("cache.write"@.len() != "llm.call"@.len());
            assert("cache.write"@.len() != "cache.read"@.len());
        },
        KnownPermission::FsWrite => {
            assert("fs.write"@.len() != "vector_db.read"@.len());
            assert("fs.write"@.len() != "audit.write"@.len());
            assert("fs.write"@.len() != "config.read"@.len());
            assert("fs.write"@.len() != "config.write"@.len());
            assert("fs.write"@.len() != "snapshot.write"@.len());
            assert("fs.write"@.len() != "signal.read"@.len());
            assert("fs.write"@.len() != "todo.read"@.len());
            assert("fs.write"@.len() != "todo.write"@.len());
            assert("fs.write"@[0] != "llm.call"@[0]);
            assert("fs.write"@.len() != "cache.read"@.len());
            assert("fs.write"@.len() != "cache.write"@.len());
        },
    }
}

/// A name that parses is the name of the permission it parses to.
pub proof fn lemma_parsed_name(name: Seq<char>)
    ensures
        parse_spec(name) matches Some(p) ==> perm_name(p) == name,
{
}


/// A common prefix of length `k` followed by a smaller character (or the end
/// of `a`) puts `a` before `b`.
proof fn lemma_str_lt_at(a: Seq<char>, b: Seq<char>, k: int)
    requires
        0 <= k <= a.len(),
        k < b.len(),
        a.take(k) == b.take(k),
        k == a.len() || (a[k] as int) < (b[k] as int),
    ensures
        str_lt(a, b),
    decreases k,
{
    if k > 0 {
        assert(a[0] == a.take(k)[0]);
        assert(b[0] == b.take(k)[0]);
        assert forall|i: int| 0 <= i < k - 1 implies #[trigger] a.drop_first().take(k - 1)[i]
            == b.drop_first().take(k - 1)[i] by {
            assert(a.take(k)[i + 1] == b.take(k)[i + 1]);
            assert(a.take(k)[i + 1] == a[i + 1]);
            assert(b.take(k)[i + 1] == b[i + 1]);
            assert(a.drop_first().take(k - 1)[i] == a[i + 1]);
            assert(b.drop_first().take(k - 1)[i] == b[i + 1]);
        }
        assert(a.drop_first().take(k - 1) =~= b.drop_first().take(k - 1));
        lemma_str_lt_at(a.drop_first(), b.drop_first(), k - 1);
    }
}

/// Neighbours in name order are in the order of their names.
proof fn lemma_name_order_adjacent()
    ensures
        forall|i: int| 0 <= i < 11 ==> str_lt(perm_name(#[trigger] name_order()[i]), perm_name(name_order()[i + 1])),
{
    reveal_strlit("audit.write");
    reveal_strlit("cache.read");
    reveal_strlit("cache.write");
    reveal_strlit("config.read");
    reveal_strlit("config.write");
    reveal_strlit("fs.write");
    reveal_strlit("llm.call");
    reveal_strlit("signal.read");
    reveal_strlit("snapshot.write");
    reveal_strlit("todo.read");
    reveal_strlit("todo.write");
    reveal_strlit("vector_db.read");
    assert("audit.write"@.take(0) =~= "cache.read"@.take(0));
    lemma_str_lt_at("audit.write"@, "cache.read"@, 0);
    assert("cache.read"@.take(6) =~= "cache.write"@.take(6));
    lemma_str_lt_at("cache.read"@, "cache.write"@, 6);
    assert("cache.write"@.take(1) =~= "config.read"@.take(1));
    lemma_str_lt_at("cache.write"@, "config.read"@, 1);
    assert("config.read"@.take(7) =~= "config.write"@.take(7));
    lemma_str_lt_at("config.read"@, "config.write"@, 7);
    assert("config.write"@.take(0) =~= "fs.write"@.take(0));
    lemma_str_lt_at("config.write"@, "fs.write"@, 0);
    assert("fs.write"@.take(0) =~= "llm.call"@.take(0));
    lemma_str_lt_at("fs.write"@, "llm.call"@, 0);
    assert("llm.call"@.take(0) =~= "signal.read"@.take(0));
    lemma_str_lt_at("llm.call"@, "signal.read"@, 0);
    assert("signal.read"@.take(1) =~= "snapshot.write"@.take(1));
    lemma_str_lt_at("signal.read"@, "snapshot.write"@, 1);
    assert("snapshot.write"@.take(0) =~= "todo.read"@.take(0));
    lemma_str_lt_at("snapshot.write"@, "todo.read"@, 0);
    assert("todo.read"@.take(5) =~= "todo.write"@.take(5));
    lemma_str_lt_at("todo.read"@, "todo.write"@, 5);
    assert("todo.write"@.take(0) =~= "vector_db.read"@.take(0));
    lemma_str_lt_at("todo.write"@, "vector_db.read"@, 0);
}

/// Every two permissions of `name_order` are in the order of their names.
proof fn lemma_name_order_sorted()
    ensures
        forall|i: int, j: int|
            0 <= i < j < 12 ==> str_lt(perm_name(#[trigger] name_order()[i]), perm_name(#[trigger] name_order()[j])),
{
    lemma_name_order_adjacent();
    assert forall|i: int, j: int|
        0 <= i < j < 12 implies str_lt(perm_name(#[trigger] name_order()[i]), perm_name(#[trigger] name_order()[j])) by {
        lemma_sorted_from(i, j);
    }
}

proof fn lemma_sorted_from(i: int, j: int)
    requires
        0 <= i < j < 12,
        forall|k: int| 0 <= k < 11 ==> str_lt(perm_name(#[trigger] name_order()[k]), perm_name(name_order()[k + 1])),
    ensures
        str_lt(perm_name(name_order()[i]), perm_name(name_order()[j])),
    decreases j - i,
{
    if j > i + 1 {
        lemma_sorted_from(i, j - 1);
        assert(str_lt(perm_name(name_order()[j - 1]), perm_name(name_order()[j])));
        lemma_str_lt_trans(perm_name(name_order()[i]), perm_name(name_order()[j - 1]), perm_name(name_order()[j]));
    }
}

/// Filtering a sequence of permissions sorted by name keeps it sorted, and
/// keeps only its own elements.
proof fn lemma_granted_in_order_sorted(order: Seq<KnownPermission>, granted: Set<KnownPermission>)
    requires
        forall|i: int, j: int| 0 <= i < j < order.len() ==> str_lt(perm_name(#[trigger] order[i]), perm_name(#[trigger] order[j])),
    ensures
        forall|i: int, j: int|
            0 <= i < j < granted_in_order(order, granted).len() ==> str_lt(
                perm_name(#[trigger] granted_in_order(order, granted)[i]),
                perm_name(#[trigger] granted_in_order(order, granted)[j]),
            ),
        forall|i: int| 0 <= i < granted_in_order(order, granted).len() ==> exists|k: int|
            0 <= k < order.len() && order[k] == #[trigger] granted_in_order(order, granted)[i],
    decreases order.len(),
{
    if order.len() > 0 {
        let pre = order.drop_last();
        lemma_granted_in_order_sorted(pre, granted);
        let rest = granted_in_order(pre, granted);
        let res = granted_in_order(order, granted);
        assert forall|i: int| 0 <= i < res.len() implies exists|k: int|
            0 <= k < order.len() && order[k] == #[trigger] res[i] by {
            if i < rest.len() {
                let k = choose|k: int| 0 <= k < pre.len() && pre[k] == rest[i];
                assert(order[k] == res[i]);
            } else {
                assert(order[order.len() - 1] == res[i]);
            }
        }
        assert forall|i: int, j: int|
            0 <= i < j < res.len() implies str_lt(perm_name(#[trigger] res[i]), perm_name(#[trigger] res[j])) by {
            if j >= rest.len() {
                let k = choose|k: int| 0 <= k < pre.len() && pre[k] == rest[i];
                assert(order[k] == res[i]);
                assert(order[order.len() - 1] == res[j]);
            }
        }
    }
}

/// The names listed by a gate are in strictly increasing order, whatever it
/// grants.
pub proof fn lemma_gate_list_sorted(granted: Set<KnownPermission>)
    ensures
        forall|i: int, j: int|
            0 <= i < j < perm_names(granted_in_order(name_order(), granted)).len() ==> str_lt(
                #[trigger] perm_names(granted_in_order(name_order(), granted))[i],
                #[trigger] perm_names(granted_in_order(name_order(), granted))[j],
            ),
{
    lemma_name_order_sorted();
    lemma_granted_in_order_sorted(name_order(), granted);
}

} // verus!
