//! The core logic of a document pipeline: how documents are split into
//! chunks and sections, which files are sensitive, the work queue and the
//! incremental compile state, cross references, topic pages, the wiki export,
//! corpus checks and diagnostics. Every function states its behaviour in a
//! contract that Verus proves; calls into outside crates stand behind
//! trusted items with contracts of their own.

pub mod text;
pub mod clock;
pub mod audit;
pub mod chunking;
pub mod sections;
pub mod paragraphs;
pub mod audit_log;
pub mod error_log;
pub mod paths;
pub mod models;
pub mod wikilink;
pub mod verification;
pub mod reasoning;
pub mod pattern;
pub mod classifier;
pub mod plugin;
pub mod plugin_registry;
pub mod digest;
pub mod work_queue;
pub mod chunking_quality;
pub mod config_models;
pub mod settings_models;
pub mod transport;
pub mod search;
pub mod purge;
pub mod diagnostics;
pub mod wiki_export;
pub mod topic_merger;
pub mod cross_reference;
pub mod incremental;
pub mod lint;
pub mod hooks;
pub mod deduplicator;
pub mod auto_reindexer;
pub mod triage;
pub mod vec_file;
pub mod pipeline;
