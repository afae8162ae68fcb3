//! What passes through the raw transport channels, and the categories of
//! outbound adapters with their settings keys.

use vstd::prelude::*;

verus! {

/// What goes with one raw transport call, whatever the channel.
#[derive(Debug, Clone)]
pub struct TransportMeta {
    /// Who calls (an outbound id, attached to the audit trail).
    pub source_id: String,
    /// A mode that the channel passes on without reading it.
    pub mode: Option<String>,
}

impl Default for TransportMeta {
    fn default() -> (r: Self)
        ensures
            r.source_id@.len() == 0,
            r.mode is None,
    {
        TransportMeta { source_id: String::new(), mode: None }
    }
}

/// A raw HTTP response: status, headers and body bytes.
#[derive(Debug, Clone)]
pub struct HttpResponse {
    pub status: u16,
    pub headers: Vec<(String, String)>,
    pub body: Vec<u8>,
}

/// The six categories of outbound adapters.
#[derive(Debug, Clone, Copy, PartialEq, Eq, Hash, Structural)]
pub enum OutboundCategory {
    /// Remote storage.
    Storage,
    /// Embeddings.
    Embedding,
    /// Language models.
    Llm,
    /// Notifications.
    Notify,
    /// Reranking.
    Rerank,
    /// Checks.
    Verify,
}

/// The key of each category, as outbound ids spell it.
pub open spec fn category_key(c: OutboundCategory) -> Seq<char> {
    match c {
        OutboundCategory::Storage => "storage"@,
        OutboundCategory::Embedding => "embedding"@,
        OutboundCategory::Llm => "llm"@,
        OutboundCategory::Notify => "notify"@,
        OutboundCategory::Rerank => "rerank"@,
        OutboundCategory::Verify => "verify"@,
    }
}

impl OutboundCategory {
    /// The key of the category (`fp-outbound-{key}-{name}`).
    pub fn as_key(&self) -> (r: &'static str)
        ensures
            r@ == category_key(*self),
    {
        match self {
            OutboundCategory::Storage => "storage",
            OutboundCategory::Embedding => "embedding",
            OutboundCategory::Llm => "llm",
            OutboundCategory::Notify => "notify",
            OutboundCategory::Rerank => "rerank",
            OutboundCategory::Verify => "verify",
        }
    }
}

/// One settings key of an adapter.
#[derive(Debug, Clone)]
pub struct ConfigKey {
    /// The path in the configuration file.
    pub path: &'static str,
    /// The label shown.
    pub label: &'static str,
    /// Whether a value must be given.
    pub required: bool,
    /// Whether the value is a secret (masked, never logged).
    pub secret: bool,
}

} // verus!
