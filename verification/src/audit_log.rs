//! In-memory audit log with a bounded number of entries.

use vstd::prelude::*;
use crate::clock::now_rfc3339;
use crate::text::owned;

verus! {

#[derive(Debug, Clone)]
pub struct AuditEntry {
    pub timestamp: String,
    pub event: String,
    pub details: String,
    /// info, warning, error or security.
    pub severity: String,
}

/// The audit entries kept in memory (at most `max_entries`, oldest dropped
/// a hundred at a time).
pub struct AuditLog {
    entries: Vec<AuditEntry>,
    max_entries: usize,
}

impl View for AuditLog {
    type V = Seq<AuditEntry>;

    closed spec fn view(&self) -> Seq<AuditEntry> {
        self.entries@
    }
}

impl AuditLog {
    /// The bound is never below the hundred entries dropped at a time.
    #[verifier::type_invariant]
    spec fn bound_ok(&self) -> bool {
        self.max_entries >= 100
    }

    /// The bound on the number of entries.
    pub closed spec fn limit(&self) -> nat {
        self.max_entries as nat
    }

    /// An empty log holding up to 1000 entries.
    pub fn new() -> (r: Self)
        ensures
            r@ == Seq::<AuditEntry>::empty(),
            r.limit() == 1000,
    {
        AuditLog { entries: Vec::new(), max_entries: 1000 }
    }

    /// Records an event with the current time. When the log then holds more
    /// than its bound, the 100 oldest entries are dropped.
    pub fn record(&mut self, event: &str, details: &str, severity: &str)
        ensures
            final(self).limit() == old(self).limit(),
            final(self).limit() >= 100,
            ({
                let grown: int = old(self)@.len() as int + 1;
                &&& final(self)@.len() == if grown > old(self).limit() as int { grown - 100 } else { grown }
                &&& final(self)@.last().event@ == event@
                &&& final(self)@.last().details@ == details@
                &&& final(self)@.last().severity@ == severity@
                &&& forall|i: int|
                    0 <= i < final(self)@.len() - 1 ==> #[trigger] final(self)@[i] == old(self)@[i
                        + (grown - final(self)@.len())]
            }),
    {
        proof {
            use_type_invariant(&*self);
        }
        let entry = AuditEntry {
            timestamp: now_rfc3339(),
            event: owned(event),
            details: owned(details),
            severity: owned(severity),
        };
        let mut entries: Vec<AuditEntry> = Vec::new();
        std::mem::swap(&mut entries, &mut self.entries);
        entries.push(entry);
        if entries.len() > self.max_entries {
            let rest = entries.split_off(100);
            entries = rest;
        }
        self.entries = entries;
    }

    /// The last `limit` entries (all of them when there are fewer).
    pub fn recent(&self, limit: usize) -> (r: &[AuditEntry])
        ensures
            r@ == self@.subrange(
                if self@.len() >= limit { self@.len() - limit } else { 0 },
                self@.len() as int,
            ),
    {
        let start = if self.entries.len() >= limit {
            self.entries.len() - limit
        } else {
            0
        };
        vstd::slice::slice_subrange(self.entries.as_slice(), start, self.entries.len())
    }
}

impl Default for AuditLog {
    fn default() -> (r: Self)
        ensures
            r@ == Seq::<AuditEntry>::empty(),
            r.limit() == 1000,
    {
        Self::new()
    }
}

} // verus!
