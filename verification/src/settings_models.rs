//! Rows and inputs of the settings store.

use vstd::prelude::*;

verus! {

/// One recorded decision of the audit trail.
#[derive(Debug, Clone)]
pub struct AuditEventRow {
    pub stage: String,
    pub inputs_hash: Option<String>,
    pub output_summary: Option<String>,
    pub applied_rule: Option<String>,
    pub created_at: String,
}

/// A new to-do item, borrowed from its source.
pub struct NewTodo<'a> {
    pub title: &'a str,
    pub category: &'a str,
    pub doc_id: Option<&'a str>,
    pub doc_description: Option<&'a str>,
    pub fingerprint: &'a str,
    pub source_line: Option<i64>,
    pub source_text: Option<&'a str>,
    pub due_date: Option<&'a str>,
}

/// A cached LLM result.
#[derive(Debug, Clone)]
pub struct LlmCacheEntry {
    pub file_hash: String,
    pub content_hash: String,
    pub result_json: String,
    pub doc_types: String,
    pub hits: u64,
    pub created_at: String,
    pub last_hit_at: Option<String>,
}

/// A cached detection of a host tool.
#[derive(Debug, Clone)]
pub struct HostToolCacheRow {
    pub tool: String,
    pub version: String,
    pub detected_at: String,
    pub not_found: bool,
    pub install_hint: Option<String>,
}

/// One entry of the decision log.
#[derive(Debug, Clone)]
pub struct DecisionLogEntry {
    pub id: Option<i64>,
    pub decided_at: String,
    pub source: String,
    pub snapshot_id: Option<String>,
    pub path: String,
    pub decision: String,
    pub before_value: Option<String>,
    pub after_value: Option<String>,
    pub priority: Option<String>,
    pub risk: Option<String>,
    pub evidence: Option<String>,
    pub confidence: Option<String>,
    pub reason: Option<String>,
    pub context: Option<String>,
}

impl Default for DecisionLogEntry {
    fn default() -> (r: Self)
        ensures
            r.id is None,
            r.decided_at@.len() == 0,
            r.source@.len() == 0,
            r.snapshot_id is None,
            r.path@.len() == 0,
            r.decision@.len() == 0,
            r.before_value is None,
            r.after_value is None,
            r.priority is None,
            r.risk is None,
            r.evidence is None,
            r.confidence is None,
            r.reason is None,
            r.context is None,
    {
        DecisionLogEntry {
            id: None,
            decided_at: String::new(),
            source: String::new(),
            snapshot_id: None,
            path: String::new(),
            decision: String::new(),
            before_value: None,
            after_value: None,
            priority: None,
            risk: None,
            evidence: None,
            confidence: None,
            reason: None,
            context: None,
        }
    }
}

} // verus!
