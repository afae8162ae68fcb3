//! The pipeline configuration: its sections as plain data, with the default
//! of every setting.

use vstd::prelude::*;
use crate::text::{dec_digits, dec_of, join_sep, owned, opt_str, push_str, same_text, strs, sort_dedup, strictly_sorted};
use crate::audit::{format_hex, hex_padded};
use crate::clock::now_nanos;

verus! {

/// Days since the last access within which a document is hot.
pub fn default_hot_days() -> (r: u32)
    ensures
        r == 7,
{
    7
}

/// Days within which a document is warm.
pub fn default_warm_days() -> (r: u32)
    ensures
        r == 30,
{
    30
}

/// Days within which a document is cold (older ones are archived).
pub fn default_cold_days() -> (r: u32)
    ensures
        r == 90,
{
    90
}

/// Idle seconds before a batch summary is sent.
pub fn default_batch_summary_interval() -> (r: u64)
    ensures
        r == 30,
{
    30
}

/// Days that purgeable files are kept.
pub fn default_retention_days() -> (r: u32)
    ensures
        r == 90,
{
    90
}

/// Hours between automatic purges.
pub fn default_retention_interval() -> (r: u32)
    ensures
        r == 24,
{
    24
}

/// The chunking strategy used when none is set.
pub fn default_chunking_strategy() -> (r: String)
    ensures
        r@ == "semantic"@,
{
    owned("semantic")
}

/// Target chunk size in bytes.
pub fn default_target_bytes() -> (r: usize)
    ensures
        r == 1500,
{
    1500
}

/// Largest chunk size in bytes.
pub fn default_max_bytes() -> (r: usize)
    ensures
        r == 2500,
{
    2500
}

/// Lines repeated between chunks.
pub fn default_overlap() -> (r: usize)
    ensures
        r == 2,
{
    2
}

/// The reranking provider.
pub fn default_rerank_provider() -> (r: String)
    ensures
        r@ == "fastembed"@,
{
    owned("fastembed")
}

/// Results passed to the reranker.
pub fn default_rerank_top_n() -> (r: usize)
    ensures
        r == 20,
{
    20
}

/// Files processed at once.
pub fn default_max_workers() -> (r: usize)
    ensures
        r == 4,
{
    4
}

/// Texts up to this many characters skip the LLM.
pub fn default_fragment_threshold() -> (r: usize)
    ensures
        r == 100,
{
    100
}

/// Fragments that trigger grouping.
pub fn default_fragment_group_trigger() -> (r: usize)
    ensures
        r == 5,
{
    5
}

/// Hours between basic lint runs.
pub fn default_lint_hours() -> (r: u64)
    ensures
        r == 6,
{
    6
}

/// Hours between weekly lint runs (seven days).
pub fn default_lint_weekly_hours() -> (r: u64)
    ensures
        r == 168,
{
    168
}

/// Hours between monthly lint runs (thirty days).
pub fn default_lint_monthly_hours() -> (r: u64)
    ensures
        r == 720,
{
    720
}

/// Hours between automatic suggestions.
pub fn default_auto_suggest_hours() -> (r: u64)
    ensures
        r == 4,
{
    4
}

/// The configuration format version.
pub fn default_version() -> (r: String)
    ensures
        r@ == "1"@,
{
    owned("1")
}

/// The Zstandard compression level.
pub fn default_zstd_level() -> (r: i32)
    ensures
        r == 3,
{
    3
}

/// Days that originals are kept.
pub fn default_ttl() -> (r: u64)
    ensures
        r == 30,
{
    30
}

/// A setting that is on unless turned off.
pub fn default_true() -> (r: bool)
    ensures
        r == true,
{
    true
}

/// The embedding model.
pub fn default_embed_model() -> (r: String)
    ensures
        r@ == "fastembed"@,
{
    owned("fastembed")
}

/// Reprocessing attempts after a failed check, when the field is missing.
pub fn default_max_retry() -> (r: u32)
    ensures
        r == 3,
{
    3
}

/// What happens when the last check fails.
pub fn default_on_fail() -> (r: String)
    ensures
        r@ == "quarantine_with_notify"@,
{
    owned("quarantine_with_notify")
}

/// The model that classifies.
pub fn default_classify_model() -> (r: String)
    ensures
        r@ == "sonnet"@,
{
    owned("sonnet")
}

/// The model that processes.
pub fn default_process_model() -> (r: String)
    ensures
        r@ == "sonnet"@,
{
    owned("sonnet")
}

/// The model that checks.
pub fn default_verify_model() -> (r: String)
    ensures
        r@ == "sonnet"@,
{
    owned("sonnet")
}

/// The LLM provider.
pub fn default_llm_provider() -> (r: String)
    ensures
        r@ == "claude_cli"@,
{
    owned("claude_cli")
}

/// Whether LLM results are cached.
pub fn default_llm_cache_enabled() -> (r: bool)
    ensures
        r == true,
{
    true
}

/// Largest number of cached LLM results (0 for no limit).
pub fn default_llm_cache_max_entries() -> (r: u64)
    ensures
        r == 10000,
{
    10000
}

/// The Ollama server.
pub fn default_ollama_url() -> (r: String)
    ensures
        r@ == "http://localhost:11434"@,
{
    owned("http://localhost:11434")
}

/// The Ollama model.
pub fn default_ollama_model() -> (r: String)
    ensures
        r@ == "llama3"@,
{
    owned("llama3")
}

/// The OpenAI chat model.
pub fn default_openai_model() -> (r: String)
    ensures
        r@ == "gpt-4o"@,
{
    owned("gpt-4o")
}

/// The Gemini model.
pub fn default_gemini_model() -> (r: String)
    ensures
        r@ == "gemini-2.0-flash"@,
{
    owned("gemini-2.0-flash")
}

/// The PDF conversion tool.
pub fn default_pdf_tool() -> (r: String)
    ensures
        r@ == "none"@,
{
    owned("none")
}

/// The OCR tool.
pub fn default_ocr_tool() -> (r: String)
    ensures
        r@ == "none"@,
{
    owned("none")
}

/// The conversion tool for office documents.
pub fn default_auto_tool() -> (r: String)
    ensures
        r@ == "none"@,
{
    owned("none")
}

/// Documents of one type that trigger a topic merge.
pub fn default_auto_merge_threshold() -> (r: usize)
    ensures
        r == 5,
{
    5
}

/// Largest topic summary in characters.
pub fn default_max_topic_chars() -> (r: usize)
    ensures
        r == 10000,
{
    10000
}

/// The log level.
pub fn default_log_level() -> (r: String)
    ensures
        r@ == "info"@,
{
    owned("info")
}

/// Largest log file in megabytes.
pub fn default_max_mb() -> (r: u64)
    ensures
        r == 100,
{
    100
}

/// The remote storage provider.
pub fn default_remote_provider() -> (r: String)
    ensures
        r@ == "network"@,
{
    owned("network")
}

/// How files go to Notion.
pub fn default_notion_mode() -> (r: String)
    ensures
        r@ == "attach"@,
{
    owned("attach")
}

/// The directories purged by default.
pub fn default_retention_targets() -> (r: Vec<String>)
    ensures
        r@.len() == 1,
        r@[0]@ == "originals"@,
{
    let mut v: Vec<String> = Vec::new();
    v.push(owned("originals"));
    v
}

/// Thresholds of the memory tiers.
#[derive(Debug, Clone)]
pub struct MemoryTierConfig {
    /// Hot: accessed within this many days.
    pub hot_days: u32,
    /// Warm: accessed within this many days.
    pub warm_days: u32,
    /// Cold: accessed within this many days; older documents are archived.
    pub cold_days: u32,
}

/// The values that `MemoryTierConfig::default` gives.
pub open spec fn is_default_memory_tier(c: MemoryTierConfig) -> bool {
    &&& c.hot_days == 7
    &&& c.warm_days == 30
    &&& c.cold_days == 90
}

impl Default for MemoryTierConfig {
    fn default() -> (r: Self)
        ensures
            is_default_memory_tier(r),
    {
        MemoryTierConfig {
            hot_days: 7,
            warm_days: 30,
            cold_days: 90,
        }
    }
}

/// How often batched notifications are summarised.
#[derive(Debug, Clone)]
pub struct NotificationBatchConfig {
    /// Idle seconds before a batch summary is sent.
    pub summary_interval_secs: u64,
}

/// The values that `NotificationBatchConfig::default` gives.
pub open spec fn is_default_notification_batch(c: NotificationBatchConfig) -> bool {
    &&& c.summary_interval_secs == 30
}

impl Default for NotificationBatchConfig {
    fn default() -> (r: Self)
        ensures
            is_default_notification_batch(r),
    {
        NotificationBatchConfig {
            summary_interval_secs: 30,
        }
    }
}

/// Retention and purging.
#[derive(Debug, Clone)]
pub struct RetentionConfig {
    /// Purge automatically.
    pub enabled: bool,
    /// Days that files are kept.
    pub days: u32,
    /// Directories purged ("originals", "processed", "quarantine").
    pub targets: Vec<String>,
    /// Hours between automatic purges.
    pub interval_hours: u32,
}

impl Default for RetentionConfig {
    fn default() -> (r: Self)
        ensures
            r.enabled == false,
            r.days == 90,
            r.targets@.len() == 1,
            r.targets@[0]@ == "originals"@,
            r.interval_hours == 24,
    {
        RetentionConfig {
            enabled: false,
            days: default_retention_days(),
            targets: default_retention_targets(),
            interval_hours: default_retention_interval(),
        }
    }
}

/// Chunking.
#[derive(Debug, Clone)]
pub struct ChunkingConfig {
    /// Chunk by meaning (else by fixed byte counts).
    pub semantic_enabled: bool,
    /// Target chunk size in bytes (about four bytes per token).
    pub target_bytes: usize,
    /// Largest chunk size in bytes.
    pub max_bytes: usize,
    /// Lines repeated between chunks.
    pub overlap_sentences: usize,
    /// Never cut inside a code fence.
    pub preserve_code_blocks: bool,
    /// Never cut inside a table.
    pub preserve_tables: bool,
    /// Compute the chunking quality measures.
    pub compute_quality: bool,
    /// The strategy: "semantic", "fixed", "recursive" or "adaptive".
    pub strategy: String,
}

/// The values that `ChunkingConfig::default` gives.
pub open spec fn is_default_chunking(c: ChunkingConfig) -> bool {
    &&& c.semantic_enabled == true
    &&& c.target_bytes == 1500
    &&& c.max_bytes == 2500
    &&& c.overlap_sentences == 2
    &&& c.preserve_code_blocks == true
    &&& c.preserve_tables == false
    &&& c.compute_quality == false
    &&& c.strategy@ == "semantic"@
}

impl Default for ChunkingConfig {
    fn default() -> (r: Self)
        ensures
            is_default_chunking(r),
    {
        ChunkingConfig {
            semantic_enabled: true,
            target_bytes: 1500,
            max_bytes: 2500,
            overlap_sentences: 2,
            preserve_code_blocks: true,
            preserve_tables: false,
            compute_quality: false,
            strategy: owned("semantic"),
        }
    }
}

/// Reranking.
#[derive(Debug, Clone)]
pub struct RerankConfig {
    /// Rerank results.
    pub enabled: bool,
    /// The reranking provider.
    pub provider: String,
    /// Results passed to the reranker.
    pub top_n: usize,
}

/// The values that `RerankConfig::default` gives.
pub open spec fn is_default_rerank(c: RerankConfig) -> bool {
    &&& c.enabled == true
    &&& c.provider@ == "fastembed"@
    &&& c.top_n == 20
}

impl Default for RerankConfig {
    fn default() -> (r: Self)
        ensures
            is_default_rerank(r),
    {
        RerankConfig {
            enabled: true,
            provider: default_rerank_provider(),
            top_n: default_rerank_top_n(),
        }
    }
}

/// Periodic work.
#[derive(Debug, Clone)]
pub struct ScheduleConfig {
    /// Kept for older files; retention now has its own section.
    pub retention_days: u64,
    /// Hours between basic lint runs (0 turns them off).
    pub lint_interval_hours: u64,
    /// Hours between duplicate and orphan checks (0 turns them off).
    pub lint_weekly_hours: u64,
    /// Hours between stale and conflict checks (0 turns them off).
    pub lint_monthly_hours: u64,
    /// Texts up to this many characters skip the LLM.
    pub fragment_threshold: usize,
    /// Fragments that trigger grouping.
    pub fragment_group_trigger: usize,
    /// Hours between automatic suggestions (0 turns them off).
    pub auto_suggest_interval_hours: u64,
}

/// The values that `ScheduleConfig::default` gives.
pub open spec fn is_default_schedule(c: ScheduleConfig) -> bool {
    &&& c.retention_days == 0
    &&& c.lint_interval_hours == 6
    &&& c.lint_weekly_hours == 168
    &&& c.lint_monthly_hours == 720
    &&& c.fragment_threshold == 100
    &&& c.fragment_group_trigger == 5
    &&& c.auto_suggest_interval_hours == 4
}

impl Default for ScheduleConfig {
    fn default() -> (r: Self)
        ensures
            is_default_schedule(r),
    {
        ScheduleConfig {
            retention_days: 0,
            lint_interval_hours: default_lint_hours(),
            lint_weekly_hours: default_lint_weekly_hours(),
            lint_monthly_hours: default_lint_monthly_hours(),
            fragment_threshold: default_fragment_threshold(),
            fragment_group_trigger: default_fragment_group_trigger(),
            auto_suggest_interval_hours: default_auto_suggest_hours(),
        }
    }
}

/// Directories, as configured (unset ones are derived later).
#[derive(Debug, Clone)]
pub struct PathsConfig {
    pub base: Option<String>,
    pub inbox: Option<String>,
    /// Further inboxes to watch.
    pub extra_inboxes: Vec<String>,
    pub processed: Option<String>,
    pub originals: Option<String>,
    pub sensitive: Option<String>,
    pub todo: Option<String>,
}

impl Default for PathsConfig {
    fn default() -> (r: Self)
        ensures
            r.base is None,
            r.inbox is None,
            r.extra_inboxes@.len() == 0,
            r.processed is None,
            r.originals is None,
            r.sensitive is None,
            r.todo is None,
    {
        PathsConfig {
            base: None,
            inbox: None,
            extra_inboxes: Vec::new(),
            processed: None,
            originals: None,
            sensitive: None,
            todo: None,
        }
    }
}

/// Compression.
#[derive(Debug, Clone)]
pub struct CompressionConfig {
    /// The Zstandard level.
    pub zstd_level: i32,
    /// Days that originals are kept.
    pub original_ttl_days: u64,
    /// Compress processed files too.
    pub compress_processed: bool,
    /// Encrypt sensitive files.
    pub encrypt_sensitive: bool,
}

/// The values that `CompressionConfig::default` gives.
pub open spec fn is_default_compression(c: CompressionConfig) -> bool {
    &&& c.zstd_level == 3
    &&& c.original_ttl_days == 30
    &&& c.compress_processed == true
    &&& c.encrypt_sensitive == false
}

impl Default for CompressionConfig {
    fn default() -> (r: Self)
        ensures
            is_default_compression(r),
    {
        CompressionConfig {
            zstd_level: 3,
            original_ttl_days: 30,
            compress_processed: true,
            encrypt_sensitive: false,
        }
    }
}

/// Embeddings.
#[derive(Debug, Clone)]
pub struct EmbeddingConfig {
    /// The embedding model.
    pub default_model: String,
    /// A prefix added to every embedded text.
    pub instruction_prefix: Option<String>,
    /// The model cache directory.
    pub onnx_model_dir: Option<String>,
}

impl Default for EmbeddingConfig {
    fn default() -> (r: Self)
        ensures
            r.default_model@ == "fastembed"@,
            r.instruction_prefix is None,
            r.onnx_model_dir is None,
    {
        EmbeddingConfig {
            default_model: default_embed_model(),
            instruction_prefix: None,
            onnx_model_dir: None,
        }
    }
}

/// Telegram notifications.
#[derive(Debug, Clone, PartialEq, Eq)]
pub struct TelegramConfig {
    pub bot_token: Option<String>,
    pub chat_id: Option<String>,
}

/// Slack notifications.
#[derive(Debug, Clone, PartialEq, Eq)]
pub struct SlackConfig {
    pub bot_token: Option<String>,
    pub channel: Option<String>,
}

/// Notifications.
#[derive(Debug, Clone, PartialEq, Eq)]
pub struct NotificationConfig {
    pub telegram: Option<TelegramConfig>,
    pub slack: Option<SlackConfig>,
}

impl Default for NotificationConfig {
    fn default() -> (r: Self)
        ensures
            r.telegram is None,
            r.slack is None,
    {
        NotificationConfig {
            telegram: None,
            slack: None,
        }
    }
}

/// Checks on processed documents.
#[derive(Debug, Clone)]
pub struct VerificationConfig {
    /// Check processed documents.
    pub enabled: bool,
    /// Ask the LLM to look for hallucinations.
    pub llm_hallucination_check: bool,
    /// Reprocessing attempts after a failed check.
    pub max_retry: u32,
    /// What happens when the last check fails.
    pub on_fail: String,
}

/// The values that `VerificationConfig::default` gives.
pub open spec fn is_default_verification(c: VerificationConfig) -> bool {
    &&& c.enabled == true
    &&& c.llm_hallucination_check == false
    &&& c.max_retry == 1
    &&& c.on_fail@ == "quarantine_with_notify"@
}

impl Default for VerificationConfig {
    fn default() -> (r: Self)
        ensures
            is_default_verification(r),
    {
        VerificationConfig {
            enabled: true,
            llm_hallucination_check: false,
            max_retry: 1,
            on_fail: default_on_fail(),
        }
    }
}

/// The models used for each task.
#[derive(Debug, Clone)]
pub struct ModelsConfig {
    /// Classification (cheap, fast).
    pub classify_model: String,
    /// Processing (accurate).
    pub process_model: String,
    /// Checking.
    pub verify_model: String,
}

/// The values that `ModelsConfig::default` gives.
pub open spec fn is_default_models(c: ModelsConfig) -> bool {
    &&& c.classify_model@ == "sonnet"@
    &&& c.process_model@ == "sonnet"@
    &&& c.verify_model@ == "sonnet"@
}

impl Default for ModelsConfig {
    fn default() -> (r: Self)
        ensures
            is_default_models(r),
    {
        ModelsConfig {
            classify_model: default_classify_model(),
            process_model: default_process_model(),
            verify_model: default_verify_model(),
        }
    }
}

/// The LLM provider and its settings.
#[derive(Debug, Clone)]
pub struct LlmConfig {
    /// claude_cli, anthropic_api, openai_api, ollama or gemini.
    pub provider: String,
    pub anthropic_api_key: Option<String>,
    pub openai_api_key: Option<String>,
    pub gemini_api_key: Option<String>,
    /// The Ollama server.
    pub ollama_url: String,
    /// The Ollama model.
    pub ollama_model: String,
    /// The OpenAI chat model.
    pub openai_model: String,
    /// The Gemini model.
    pub gemini_model: String,
    /// Providers tried in turn when the first fails.
    pub fallback_providers: Vec<String>,
    /// The credential used by default.
    pub default_credential: Option<String>,
    /// Cache LLM results.
    pub llm_cache_enabled: bool,
    /// Largest number of cached results (0 for no limit).
    pub llm_cache_max_entries: u64,
}

/// The values that `LlmConfig::default` gives.
pub open spec fn is_default_llm(c: LlmConfig) -> bool {
    &&& c.provider@ == "claude_cli"@
    &&& c.anthropic_api_key is None
    &&& c.openai_api_key is None
    &&& c.gemini_api_key is None
    &&& c.ollama_url@ == "http://localhost:11434"@
    &&& c.ollama_model@ == "llama3"@
    &&& c.openai_model@ == "gpt-4o"@
    &&& c.gemini_model@ == "gemini-2.0-flash"@
    &&& c.fallback_providers@.len() == 0
    &&& c.default_credential is None
    &&& c.llm_cache_enabled == true
    &&& c.llm_cache_max_entries == 10000
}

impl Default for LlmConfig {
    fn default() -> (r: Self)
        ensures
            is_default_llm(r),
    {
        LlmConfig {
            provider: default_llm_provider(),
            anthropic_api_key: None,
            openai_api_key: None,
            gemini_api_key: None,
            ollama_url: default_ollama_url(),
            ollama_model: default_ollama_model(),
            openai_model: default_openai_model(),
            gemini_model: default_gemini_model(),
            fallback_providers: Vec::new(),
            default_credential: None,
            llm_cache_enabled: default_llm_cache_enabled(),
            llm_cache_max_entries: default_llm_cache_max_entries(),
        }
    }
}

/// A credential for an LLM provider.
#[derive(Debug, Clone)]
pub struct LlmCredential {
    /// Unique id.
    pub id: String,
    /// The name the user gave it.
    pub name: String,
    /// claude_cli, ollama, anthropic_api, openai_api or gemini.
    pub provider: String,
    pub api_key: Option<String>,
    pub url: Option<String>,
    pub model: Option<String>,
    /// The profile directory of the command-line client.
    pub profile_path: Option<String>,
}

/// Conversion of documents before processing.
#[derive(Debug, Clone)]
pub struct PreprocessingConfig {
    pub pdf_tool: String,
    pub ocr_tool: String,
    pub docx_tool: String,
    pub xlsx_tool: String,
    pub pptx_tool: String,
    /// Documents of one type that trigger a topic merge.
    pub auto_merge_threshold: usize,
    /// Largest topic summary in characters.
    pub max_topic_chars: usize,
}

/// The values that `PreprocessingConfig::default` gives.
pub open spec fn is_default_preprocessing(c: PreprocessingConfig) -> bool {
    &&& c.pdf_tool@ == "none"@
    &&& c.ocr_tool@ == "none"@
    &&& c.docx_tool@ == "none"@
    &&& c.xlsx_tool@ == "none"@
    &&& c.pptx_tool@ == "none"@
    &&& c.auto_merge_threshold == 5
    &&& c.max_topic_chars == 10000
}

impl Default for PreprocessingConfig {
    fn default() -> (r: Self)
        ensures
            is_default_preprocessing(r),
    {
        PreprocessingConfig {
            pdf_tool: default_pdf_tool(),
            ocr_tool: default_ocr_tool(),
            docx_tool: default_auto_tool(),
            xlsx_tool: default_auto_tool(),
            pptx_tool: default_auto_tool(),
            auto_merge_threshold: 5,
            max_topic_chars: 10000,
        }
    }
}

/// Logging.
#[derive(Debug, Clone)]
pub struct LoggingConfig {
    pub level: String,
    pub file: bool,
    pub console: bool,
    pub max_mb: u64,
}

/// The values that `LoggingConfig::default` gives.
pub open spec fn is_default_logging(c: LoggingConfig) -> bool {
    &&& c.level@ == "info"@
    &&& c.file == true
    &&& c.console == true
    &&& c.max_mb == 100
}

impl Default for LoggingConfig {
    fn default() -> (r: Self)
        ensures
            is_default_logging(r),
    {
        LoggingConfig {
            level: default_log_level(),
            file: true,
            console: true,
            max_mb: 100,
        }
    }
}

/// Remote storage.
#[derive(Debug, Clone)]
pub struct RemoteStorageConfig {
    pub enabled: bool,
    pub provider: String,
    pub network_path: Option<String>,
    pub webdav_url: Option<String>,
    pub webdav_user: Option<String>,
    pub webdav_password: Option<String>,
    pub webdav_prefix: Option<String>,
    pub s3_endpoint: Option<String>,
    pub s3_bucket: Option<String>,
    pub s3_region: Option<String>,
    pub s3_access_key: Option<String>,
    pub s3_secret_key: Option<String>,
    pub s3_prefix: Option<String>,
    pub notion_token: Option<String>,
    pub notion_parent_page_id: Option<String>,
    /// "attach" (upload the file) or "page" (a page with the processed text).
    pub notion_mode: String,
    pub notion_database_id: Option<String>,
}

impl Default for RemoteStorageConfig {
    fn default() -> (r: Self)
        ensures
            r.enabled == false,
            r.provider@ == "network"@,
            r.network_path is None,
            r.webdav_url is None,
            r.webdav_user is None,
            r.webdav_password is None,
            r.webdav_prefix is None,
            r.s3_endpoint is None,
            r.s3_bucket is None,
            r.s3_region is None,
            r.s3_access_key is None,
            r.s3_secret_key is None,
            r.s3_prefix is None,
            r.notion_token is None,
            r.notion_parent_page_id is None,
            r.notion_mode@ == "attach"@,
            r.notion_database_id is None,
    {
        RemoteStorageConfig {
            enabled: false,
            provider: default_remote_provider(),
            network_path: None,
            webdav_url: None,
            webdav_user: None,
            webdav_password: None,
            webdav_prefix: None,
            s3_endpoint: None,
            s3_bucket: None,
            s3_region: None,
            s3_access_key: None,
            s3_secret_key: None,
            s3_prefix: None,
            notion_token: None,
            notion_parent_page_id: None,
            notion_mode: default_notion_mode(),
            notion_database_id: None,
        }
    }
}

/// The directories after resolution.
#[derive(Debug, Clone)]
pub struct ResolvedPaths {
    pub base: String,
    pub inbox: String,
    /// Further inboxes.
    pub extra_inboxes: Vec<String>,
    pub processed: String,
    pub originals: String,
    pub sensitive: String,
    pub todo: String,
    pub temp: String,
    pub logs: String,
    pub models: String,
    /// Where plugin binaries are placed.
    pub plugins: String,
}

/// Whether a configuration change should be rolled back, and why.
#[derive(Debug, Clone)]
pub struct RollbackEvaluation {
    pub should_rollback: bool,
    pub triggers: Vec<String>,
}

/// A saved configuration, before a change was applied.
#[derive(Debug, Clone)]
pub struct ConfigSnapshot {
    /// Sixteen hexadecimal digits.
    pub id: String,
    /// RFC 3339.
    pub created_at: String,
    /// Sixteen hexadecimal digits of the SHA-256 of the configuration file.
    pub config_hash: String,
    /// The configuration file before the change.
    pub config_backup: String,
    /// The profile applied, as JSON.
    pub profile_json: Option<String>,
    /// The settings changed.
    pub applied_paths: Vec<String>,
    /// Measurements, as JSON.
    pub metrics_json: Option<String>,
    pub rolled_back: bool,
    pub rollback_reason: Option<String>,
}


/// The default notification settings (none configured).
pub fn default_notification() -> (r: NotificationConfig)
    ensures
        r.telegram is None,
        r.slack is None,
{
    NotificationConfig::default()
}

/// Sensitive keywords and extensions, with the fields that older
/// configurations used for them.
#[derive(Debug, Clone)]
pub struct SensitiveConfig {
    /// Keywords that mark a file as sensitive.
    pub keywords: Vec<String>,
    /// Extensions that mark a file as sensitive.
    pub extensions: Vec<String>,
    extra_keywords: Vec<String>,
    custom_keywords: Vec<String>,
    extra_extensions: Vec<String>,
}

impl SensitiveConfig {
    /// A configuration with the current fields and the older ones.
    pub fn with_legacy(
        keywords: Vec<String>,
        extensions: Vec<String>,
        extra_keywords: Vec<String>,
        custom_keywords: Vec<String>,
        extra_extensions: Vec<String>,
    ) -> (r: Self)
        ensures
            r.current_keywords() == strs(keywords@),
            r.current_extensions() == strs(extensions@),
            r.legacy_keywords() == strs(extra_keywords@) + strs(custom_keywords@),
            r.legacy_extensions() == strs(extra_extensions@),
    {
        let r = SensitiveConfig { keywords, extensions, extra_keywords, custom_keywords, extra_extensions };
        r
    }

    /// The keywords of the current field.
    pub closed spec fn current_keywords(&self) -> Seq<Seq<char>> {
        strs(self.keywords@)
    }

    /// The extensions of the current field.
    pub closed spec fn current_extensions(&self) -> Seq<Seq<char>> {
        strs(self.extensions@)
    }

    /// The keywords of the older fields.
    pub closed spec fn legacy_keywords(&self) -> Seq<Seq<char>> {
        strs(self.extra_keywords@) + strs(self.custom_keywords@)
    }

    /// The extensions of the older field.
    pub closed spec fn legacy_extensions(&self) -> Seq<Seq<char>> {
        strs(self.extra_extensions@)
    }

    /// The older fields of the configuration.
    pub fn legacy_fields(&self) -> (r: (Vec<String>, Vec<String>, Vec<String>))
        ensures
            strs(r.0@) + strs(r.1@) == self.legacy_keywords(),
            strs(r.2@) == self.legacy_extensions(),
    {
        (self.extra_keywords.clone(), self.custom_keywords.clone(), self.extra_extensions.clone())
    }

    /// Every keyword, the older fields merged in: sorted, each once.
    pub fn merged_keywords(&self) -> (r: Vec<String>)
        ensures
            strictly_sorted(strs(r@)),
            strs(r@).to_set() == (self.current_keywords() + self.legacy_keywords()).to_set(),
    {
        let mut all = self.keywords.clone();
        let mut a = self.extra_keywords.clone();
        let mut b = self.custom_keywords.clone();
        all.append(&mut a);
        all.append(&mut b);
        proof {
            assert(strs(all@) =~= strs(self.keywords@) + self.legacy_keywords());
        }
        sort_dedup(&all)
    }

    /// Every extension, the older field merged in: sorted, each once.
    pub fn merged_extensions(&self) -> (r: Vec<String>)
        ensures
            strictly_sorted(strs(r@)),
            strs(r@).to_set() == (self.current_extensions() + self.legacy_extensions()).to_set(),
    {
        let mut all = self.extensions.clone();
        let mut a = self.extra_extensions.clone();
        all.append(&mut a);
        proof {
            assert(strs(all@) =~= strs(self.extensions@) + self.legacy_extensions());
        }
        sort_dedup(&all)
    }
}

impl Default for SensitiveConfig {
    fn default() -> (r: Self)
        ensures
            r.current_keywords().len() == 0,
            r.current_extensions().len() == 0,
            r.legacy_keywords().len() == 0,
            r.legacy_extensions().len() == 0,
    {
        let r = SensitiveConfig {
            keywords: Vec::new(),
            extensions: Vec::new(),
            extra_keywords: Vec::new(),
            custom_keywords: Vec::new(),
            extra_extensions: Vec::new(),
        };
        r
    }
}

/// The id made from a time in nanoseconds: its low 64 bits in sixteen
/// hexadecimal digits.
pub open spec fn credential_id_text(nanos: u128) -> Seq<char> {
    hex_padded((nanos % 0x1_0000_0000_0000_0000) as nat, 16)
}

/// A credential id from the time `nanos` (nanoseconds since the epoch):
/// the low 64 bits in sixteen hexadecimal digits.
pub fn credential_id_from(nanos: u128) -> (r: String)
    ensures
        r@ == credential_id_text(nanos),
{
    let low: u64 = (nanos % 0x1_0000_0000_0000_0000) as u64;
    format_hex(low as u128, 16)
}

/// A new credential id from the current time.
pub fn generate_credential_id() -> (r: String)
    ensures
        exists|n: u128| r@ == #[trigger] credential_id_text(n),
{
    let n = now_nanos();
    credential_id_from(n)
}

/// The id given to a credential that has none.
pub fn generate_uuid() -> (r: String)
    ensures
        exists|n: u128| r@ == #[trigger] credential_id_text(n),
{
    generate_credential_id()
}

/// The lowercase hexadecimal digit of `d < 16`.
pub open spec fn hex_lower(d: nat) -> char {
    if d < 10 {
        ((d + 48) as u32) as char
    } else {
        ((d + 87) as u32) as char
    }
}

/// How JSON writes one character inside a string: `"` and `\` behind a
/// backslash, the five control characters with a short name by that name,
/// the other characters below U+0020 as `\u00` and two lowercase hex digits,
/// every other character as it is.
pub open spec fn json_escape_char(c: char) -> Seq<char> {
    if c == '"' {
        seq!['\\', '"']
    } else if c == '\\' {
        seq!['\\', '\\']
    } else if c == '\u{8}' {
        seq!['\\', 'b']
    } else if c == '\t' {
        seq!['\\', 't']
    } else if c == '\n' {
        seq!['\\', 'n']
    } else if c == '\u{c}' {
        seq!['\\', 'f']
    } else if c == '\r' {
        seq!['\\', 'r']
    } else if (c as u32) < 0x20 {
        seq!['\\', 'u', '0', '0', hex_lower((c as u32 / 16) as nat), hex_lower((c as u32 % 16) as nat)]
    } else {
        seq![c]
    }
}

/// The characters of `s`, each written as inside a JSON string.
pub open spec fn json_escape(s: Seq<char>) -> Seq<char>
    decreases s.len(),
{
    if s.len() == 0 {
        seq![]
    } else {
        json_escape(s.drop_last()) + json_escape_char(s.last())
    }
}

/// `s` as a JSON string: escaped, between double quotes.
pub open spec fn json_quoted(s: Seq<char>) -> Seq<char> {
    seq!['"'] + json_escape(s) + seq!['"']
}

/// The compact JSON text of a list of strings: the quoted strings between
/// brackets, separated by commas.
pub open spec fn json_string_list(v: Seq<Seq<char>>) -> Seq<char> {
    seq!['['] + join_sep(v.map_values(|x: Seq<char>| json_quoted(x)), seq![',']) + seq![']']
}

/// `serde_json::to_string` of a list of strings, with its compact formatter:
/// each string escaped as `format_escaped_str_contents` in `ser.rs` does
/// (the `ESCAPE` table and `write_char_escape`), the items joined by `,`
/// inside `[` and `]`. Writing into a `Vec` cannot fail for a list of strings.
#[verifier::external_body]
fn to_json_list(v: &Vec<String>) -> (r: String)
    ensures
        r@ == json_string_list(strs(v@)),
{
    serde_json::to_string(v).unwrap_or_else(|_| String::from("[]"))
}

impl ConfigSnapshot {
    /// The changed settings as a JSON array.
    pub fn applied_paths_json(&self) -> (r: String)
        ensures
            r@ == json_string_list(strs(self.applied_paths@)),
    {
        to_json_list(&self.applied_paths)
    }
}

// ---------------------------------------------------------------------------
// Field descriptions for the settings screen
// ---------------------------------------------------------------------------

/// What the settings screen shows of one field.
#[derive(Debug)]
pub struct FieldMeta {
    pub description: &'static str,
    pub field_type: &'static str,
    pub default_value: &'static str,
    pub requires_restart: bool,
}

/// (name, description, type, default text, whether a change needs a restart)
/// of each field of a group.
pub open spec fn field_layout(v: Seq<(&'static str, FieldMeta)>) -> Seq<(Seq<char>, Seq<char>, Seq<char>, Seq<char>, bool)> {
    Seq::new(
        v.len(),
        |i: int| (v[i].0@, v[i].1.description@, v[i].1.field_type@, v[i].1.default_value@, v[i].1.requires_restart),
    )
}

/// The groups with the layout of their fields.
pub open spec fn meta_layout(v: Seq<(&'static str, Vec<(&'static str, FieldMeta)>)>) -> Seq<
    (Seq<char>, Seq<(Seq<char>, Seq<char>, Seq<char>, Seq<char>, bool)>),
> {
    Seq::new(v.len(), |i: int| (v[i].0@, field_layout(v[i].1@)))
}

/// The groups of the settings screen, in order, with their fields.
pub open spec fn metadata_layout() -> Seq<(Seq<char>, Seq<(Seq<char>, Seq<char>, Seq<char>, Seq<char>, bool)>)> {
    seq![
        ("compression"@, seq![("zstd_level"@, "Zstandard 압축 레벨 (1=빠름, 22=최대압축)"@, "integer"@, "3"@, false), ("original_ttl_days"@, "원본 파일 보관 일수 (0=무제한)"@, "integer"@, "30"@, false), ("compress_processed"@, "가공본도 zstd 압축 적용"@, "boolean"@, "true"@, false)]),
        ("vector_db"@, seq![("semantic_dup_threshold"@, "의미 중복 판별 기준. 낮을수록 엄격하게 중복 판정합니다."@, "select:0.01=거의 동일한 문서만|0.03=높은 유사도 (권장)|0.05=보통 유사도|0.10=느슨한 유사도|0.20=넓은 범위 중복"@, "0.03"@, false), ("search_top_k"@, "검색 결과 최대 반환 수"@, "integer"@, "5"@, false)]),
        ("search"@, seq![("expand_kg_hops"@, "KG 1-hop 확장 개수 (0=비활성). 검색 결과 seed의 find_related 호출로 관련 문서를 score=0.0으로 append. 5K 코퍼스 측정 후 권장값 결정."@, "integer"@, "0"@, false), ("diversity_threshold"@, "동일 doc_type 결과 임계값 (0=비활성). 초과 시 범위 밖 non-dominant 결과와 swap. 단순 swap (full MMR 아님)."@, "integer"@, "0"@, false), ("hyde_enabled"@, "HyDE 폴백 검색 활성. 첫 패스 결과 부족(< hyde_min_results) 시 LLM 가상 답변 임베딩으로 재검색 (트리거 #6 인프라, 디폴트 비활성)."@, "boolean"@, "false"@, false), ("hyde_min_results"@, "HyDE 폴백 발동 임계. 첫 패스 결과가 이 개수 미만이면 LLM 폴백 시도."@, "integer"@, "3"@, false)]),
        ("verification"@, seq![("enabled"@, "문서 가공 후 품질 검증 활성화"@, "boolean"@, "true"@, false), ("llm_hallucination_check"@, "LLM 환각 탐지 (claude_cli 추가 호출)"@, "boolean"@, "false"@, false), ("max_retry"@, "검증 실패 시 재가공 최대 횟수"@, "integer"@, "1"@, false), ("on_fail"@, "최종 실패 시 처리 (skip_with_notify / quarantine)"@, "string"@, "skip_with_notify"@, false)]),
        ("verification.thresholds"@, seq![("structure_min"@, "LLM 가공 결과의 구조 완전성 최소 비율. sections 키 기반 검사."@, "float"@, "0.5"@, false), ("compression_min"@, "LLM 가공 결과의 최소 길이 비율 (가공본/원본). zstd와 무관."@, "float"@, "0.05"@, false), ("compression_max"@, "LLM 가공 결과의 최대 길이 비율 (가공본/원본). zstd와 무관."@, "float"@, "1.5"@, false), ("keyword_coverage_min"@, "키워드 커버리지 최소 비율 (환각 탐지)"@, "float"@, "0.5"@, false), ("keyword_completeness_min"@, "키워드 완전성 최소 비율 (누락 탐지)"@, "float"@, "0.3"@, false), ("rouge_l_min"@, "ROUGE-L 최소 점수"@, "float"@, "0.1"@, false), ("entity_preservation_min"@, "개체(날짜/금액/URL) 보존 최소 비율"@, "float"@, "0.5"@, false)]),
        ("models"@, seq![("classify_model"@, "분류용 LLM 모델"@, "string"@, "sonnet"@, false), ("process_model"@, "가공용 LLM 모델"@, "string"@, "sonnet"@, false), ("verify_model"@, "검증용 LLM 모델"@, "string"@, "sonnet"@, false)]),
        ("llm"@, seq![("provider"@, "LLM 프로바이더 (claude_cli / anthropic_api / openai_api / ollama / gemini)"@, "string"@, "claude_cli"@, true), ("anthropic_api_key"@, "Anthropic API 키"@, "secret"@, ""@, true), ("openai_api_key"@, "OpenAI API 키 (LLM용)"@, "secret"@, ""@, true), ("gemini_api_key"@, "Google Gemini API 키"@, "secret"@, ""@, true), ("ollama_url"@, "Ollama 서버 URL"@, "string"@, "http://localhost:11434"@, true), ("ollama_model"@, "Ollama 모델명"@, "string"@, "llama3"@, true), ("openai_model"@, "OpenAI Chat 모델명"@, "string"@, "gpt-4o"@, true), ("gemini_model"@, "Gemini 모델명"@, "string"@, "gemini-2.0-flash"@, true), ("llm_cache_enabled"@, "LLM 결과 캐시 활성화 (Ruflo A1). 동일 파일 재가공 시 claude_cli 호출 회피."@, "boolean"@, "true"@, false), ("llm_cache_max_entries"@, "LLM 캐시 최대 엔트리 (0=무제한). 초과 시 last_hit_at 오래된 순으로 LRU 삭제."@, "integer"@, "10000"@, false)]),
        ("preprocessing"@, seq![("pdf_tool"@, "PDF 변환 도구. none=claude_cli 직접, marker=마크다운(pip install marker-pdf), pymupdf4llm=빠른 변환(pip install pymupdf4llm)"@, "select:none=변환 안 함|marker=Marker (pip install marker-pdf)|pymupdf4llm=PyMuPDF4LLM (pip install pymupdf4llm)"@, "none"@, false), ("ocr_tool"@, "OCR 도구. none=비활성, tesseract=로컬(apt install tesseract-ocr), claude_vision=claude_vision"@, "select:none=비활성|tesseract=Tesseract (apt install tesseract-ocr)|claude_vision=claude_vision"@, "none"@, false), ("docx_tool"@, "DOCX 변환 도구. auto=자동 감지, pandoc=범용(https://pandoc.org), python=python-docx(pip install python-docx), libreoffice=LibreOffice(https://libreoffice.org)"@, "select:auto=자동 감지|pandoc=Pandoc (https://pandoc.org)|python=python-docx (pip install python-docx)|libreoffice=LibreOffice (https://libreoffice.org)|none=비활성"@, "auto"@, false), ("xlsx_tool"@, "XLSX 변환 도구. auto=자동 감지, pandoc=범용, python=openpyxl(pip install openpyxl), libreoffice=LibreOffice"@, "select:auto=자동 감지|pandoc=Pandoc|python=openpyxl (pip install openpyxl)|libreoffice=LibreOffice|none=비활성"@, "auto"@, false), ("pptx_tool"@, "PPTX 변환 도구. auto=자동 감지, pandoc=범용, libreoffice=LibreOffice"@, "select:auto=자동 감지|pandoc=Pandoc|libreoffice=LibreOffice|none=비활성"@, "auto"@, false), ("auto_merge_threshold"@, "자동 토픽 병합 트리거 문서 수"@, "integer"@, "5"@, false), ("max_topic_chars"@, "토픽 요약 최대 글자 수"@, "integer"@, "10000"@, false)]),
        ("sensitive"@, seq![("keywords"@, "민감 키워드 목록. 파일 내용에 이 키워드가 포함되면 민감 파일로 분류되어 별도 보관됩니다. 예: 비밀번호, 주민등록번호, 계좌번호. 기본 키워드(password, secret, private_key 등) 외에 추가할 키워드를 입력하세요."@, "string_array"@, ""@, false), ("extensions"@, "민감 확장자 목록. 해당 확장자 파일은 내용과 무관하게 민감 파일로 분류됩니다. 예: .pem, .key, .pfx. 기본 확장자(.env, .pem, .key 등) 외에 추가할 확장자를 입력하세요."@, "string_array"@, ""@, false)]),
        ("logging"@, seq![("level"@, "로그 레벨"@, "select:trace=Trace (전체)|debug=Debug (상세)|info=Info (일반)|warn=Warn (경고만)|error=Error (에러만)"@, "info"@, false), ("file"@, "파일 로그 출력"@, "boolean"@, "true"@, false), ("console"@, "콘솔 로그 출력"@, "boolean"@, "true"@, false), ("max_mb"@, "로그 파일 최대 크기 (MB)"@, "integer"@, "100"@, false)]),
        ("schedule"@, seq![("lint_interval_hours"@, "기본 lint 주기 — 색인 정합성/상한 검사 (시간, 0=비활성). Phase 87 다층 lint 도입 (wikidocs 353407 매일 색인 확인)."@, "integer"@, "6"@, false), ("lint_weekly_hours"@, "주 1회 lint — 중복·미연결 문서 검사 (시간, 0=비활성, 기본 168=7일)."@, "integer"@, "168"@, false), ("lint_monthly_hours"@, "월 1회 lint — 오래된·상충 정보 검사 (시간, 0=비활성, 기본 720=30일)."@, "integer"@, "720"@, false), ("auto_suggest_interval_hours"@, "자동 추천 주기 (시간, 0=비활성). 누적 카운터 분석 → decision_log 자동 INSERT."@, "integer"@, "4"@, false)]),
        ("paths"@, seq![("extra_inboxes"@, "추가 감시 폴더 경로. 기본 inbox 외에 감시할 절대 경로 목록. + 추가 버튼으로 행을 추가하고 각 행에 한 경로씩 입력. 등록된 모든 폴더에 동일한 파이프라인이 적용됩니다."@, "string_array"@, ""@, false)]),
        ("max_workers"@, seq![("max_workers"@, "동시 처리 워커 수"@, "integer"@, "4"@, true)]),
        ("rerank"@, seq![("enabled"@, "리랭킹 활성화 (BGE-Reranker-v2-M3 Cross-Encoder, 로컬)"@, "boolean"@, "true"@, false), ("top_n"@, "리랭킹 상위 N개 결과"@, "integer"@, "20"@, false)]),
        ("chunking"@, seq![("semantic_enabled"@, "의미 단위 청킹 사용. false일 경우 기존 40KB 바이트 분할"@, "boolean"@, "true"@, false), ("target_bytes"@, "목표 청크 크기 (바이트). 대략 토큰수×4"@, "integer"@, "1500"@, false), ("max_bytes"@, "최대 청크 크기 (바이트). 초과 시 강제 분할"@, "integer"@, "2500"@, false), ("overlap_sentences"@, "청크 간 오버랩 문장 수. 맥락 유지를 위한 중첩"@, "integer"@, "2"@, false), ("preserve_code_blocks"@, "코드 펜스(```) 블록을 분할하지 않고 보존"@, "boolean"@, "true"@, false), ("preserve_tables"@, "표 마크다운(`|...|`) 블록을 분할하지 않고 보존. 표 비중 높은 도메인에서 활성화 권장 (트리거 #8 인프라)"@, "boolean"@, "false"@, false)]),
        ("crossref"@, seq![("enabled"@, "교차참조 활성화"@, "boolean"@, "true"@, false), ("mode"@, "교차참조 모드"@, "select:auto=자동 (LLM 없음)|llm=LLM 보강|off=비활성"@, "auto"@, false), ("similarity_threshold"@, "유사도 임계값. 이 이상이면 관계 생성. Phase 64 디폴트 0.8 (관계 노이즈 감소). HashEmbedder/BGE-M3 모두 0.8 권장"@, "float"@, "0.8"@, false), ("supersedes_threshold"@, "Supersedes 판정 임계값 (같은 유형 + 이 이상이면 대체)"@, "float"@, "0.95"@, false), ("keyword_overlap_min"@, "RelatedTopic 최소 키워드 겹침 수"@, "integer"@, "3"@, false), ("cap_supersedes"@, "outgoing Supersedes 최대 수 (문서당)"@, "integer"@, "2"@, false), ("cap_updates"@, "outgoing Updates 최대 수 (문서당)"@, "integer"@, "5"@, false), ("cap_related"@, "outgoing RelatedTopic 최대 수 (문서당)"@, "integer"@, "20"@, false), ("cap_references"@, "outgoing References 최대 수 (문서당)"@, "integer"@, "10"@, false), ("cap_incoming"@, "incoming 관계 최대 수 (0=무제한)"@, "integer"@, "0"@, false), ("minhash_force_enable"@, "MinHash LSH 강제 활성 (자동 임계치 무시)"@, "boolean"@, "false"@, false), ("minhash_min_docs"@, "MinHash LSH 자동 활성 최소 문서 수"@, "integer"@, "3000"@, false), ("metadata_blocking"@, "메타데이터 블로킹 (doc_type 또는 키워드 1개 이상 겹침 필요)"@, "boolean"@, "false"@, false), ("flush_interval_secs"@, "flush_crossref 비동기 큐 처리 주기 (초)"@, "integer"@, "30"@, false)]),
        ("memory_tier"@, seq![("hot_days"@, "hot 분류 기준 (마지막 접근 후 N일 이내)"@, "integer"@, "7"@, false), ("warm_days"@, "warm 분류 기준"@, "integer"@, "30"@, false), ("cold_days"@, "cold 분류 기준 (이후는 archived)"@, "integer"@, "90"@, false)]),
        ("search"@, seq![("window_lines"@, "Sentence Window: 매칭 위치 ±N 줄"@, "integer"@, "5"@, false), ("mmr_lambda"@, "MMR λ (0.0~1.0). 낮을수록 다양성, 높을수록 관련도 우선"@, "float"@, "0.5"@, false), ("sparse_weight"@, "Sparse(BM25) 가중치 (Hybrid Match에서 dense 대비 비율)"@, "float"@, "1.0"@, false), ("time_weight"@, "시간 가중 비율 (recent 모드 boost, 0.10 = +10%)"@, "float"@, "0.10"@, false)]),
        ("notification_batch"@, seq![("summary_interval_secs"@, "배치 요약 flush 유휴 시간 (초)"@, "integer"@, "30"@, false)]),
    ]
}

fn meta_group_0() -> (r: Vec<(&'static str, FieldMeta)>)
    ensures
        field_layout(r@) == seq![("zstd_level"@, "Zstandard 압축 레벨 (1=빠름, 22=최대압축)"@, "integer"@, "3"@, false), ("original_ttl_days"@, "원본 파일 보관 일수 (0=무제한)"@, "integer"@, "30"@, false), ("compress_processed"@, "가공본도 zstd 압축 적용"@, "boolean"@, "true"@, false)],
{
    let mut v: Vec<(&'static str, FieldMeta)> = Vec::new();
    v.push(("zstd_level", FieldMeta { description: "Zstandard 압축 레벨 (1=빠름, 22=최대압축)", field_type: "integer", default_value: "3", requires_restart: false }));
    v.push(("original_ttl_days", FieldMeta { description: "원본 파일 보관 일수 (0=무제한)", field_type: "integer", default_value: "30", requires_restart: false }));
    v.push(("compress_processed", FieldMeta { description: "가공본도 zstd 압축 적용", field_type: "boolean", default_value: "true", requires_restart: false }));
    proof {
        assert(field_layout(v@) =~= seq![("zstd_level"@, "Zstandard 압축 레벨 (1=빠름, 22=최대압축)"@, "integer"@, "3"@, false), ("original_ttl_days"@, "원본 파일 보관 일수 (0=무제한)"@, "integer"@, "30"@, false), ("compress_processed"@, "가공본도 zstd 압축 적용"@, "boolean"@, "true"@, false)]);
    }
    v
}

fn meta_group_1() -> (r: Vec<(&'static str, FieldMeta)>)
    ensures
        field_layout(r@) == seq![("semantic_dup_threshold"@, "의미 중복 판별 기준. 낮을수록 엄격하게 중복 판정합니다."@, "select:0.01=거의 동일한 문서만|0.03=높은 유사도 (권장)|0.05=보통 유사도|0.10=느슨한 유사도|0.20=넓은 범위 중복"@, "0.03"@, false), ("search_top_k"@, "검색 결과 최대 반환 수"@, "integer"@, "5"@, false)],
{
    let mut v: Vec<(&'static str, FieldMeta)> = Vec::new();
    v.push(("semantic_dup_threshold", FieldMeta { description: "의미 중복 판별 기준. 낮을수록 엄격하게 중복 판정합니다.", field_type: "select:0.01=거의 동일한 문서만|0.03=높은 유사도 (권장)|0.05=보통 유사도|0.10=느슨한 유사도|0.20=넓은 범위 중복", default_value: "0.03", requires_restart: false }));
    v.push(("search_top_k", FieldMeta { description: "검색 결과 최대 반환 수", field_type: "integer", default_value: "5", requires_restart: false }));
    proof {
        assert(field_layout(v@) =~= seq![("semantic_dup_threshold"@, "의미 중복 판별 기준. 낮을수록 엄격하게 중복 판정합니다."@, "select:0.01=거의 동일한 문서만|0.03=높은 유사도 (권장)|0.05=보통 유사도|0.10=느슨한 유사도|0.20=넓은 범위 중복"@, "0.03"@, false), ("search_top_k"@, "검색 결과 최대 반환 수"@, "integer"@, "5"@, false)]);
    }
    v
}

fn meta_group_2() -> (r: Vec<(&'static str, FieldMeta)>)
    ensures
        field_layout(r@) == seq![("expand_kg_hops"@, "KG 1-hop 확장 개수 (0=비활성). 검색 결과 seed의 find_related 호출로 관련 문서를 score=0.0으로 append. 5K 코퍼스 측정 후 권장값 결정."@, "integer"@, "0"@, false), ("diversity_threshold"@, "동일 doc_type 결과 임계값 (0=비활성). 초과 시 범위 밖 non-dominant 결과와 swap. 단순 swap (full MMR 아님)."@, "integer"@, "0"@, false), ("hyde_enabled"@, "HyDE 폴백 검색 활성. 첫 패스 결과 부족(< hyde_min_results) 시 LLM 가상 답변 임베딩으로 재검색 (트리거 #6 인프라, 디폴트 비활성)."@, "boolean"@, "false"@, false), ("hyde_min_results"@, "HyDE 폴백 발동 임계. 첫 패스 결과가 이 개수 미만이면 LLM 폴백 시도."@, "integer"@, "3"@, false)],
{
    let mut v: Vec<(&'static str, FieldMeta)> = Vec::new();
    v.push(("expand_kg_hops", FieldMeta { description: "KG 1-hop 확장 개수 (0=비활성). 검색 결과 seed의 find_related 호출로 관련 문서를 score=0.0으로 append. 5K 코퍼스 측정 후 권장값 결정.", field_type: "integer", default_value: "0", requires_restart: false }));
    v.push(("diversity_threshold", FieldMeta { description: "동일 doc_type 결과 임계값 (0=비활성). 초과 시 범위 밖 non-dominant 결과와 swap. 단순 swap (full MMR 아님).", field_type: "integer", default_value: "0", requires_restart: false }));
    v.push(("hyde_enabled", FieldMeta { description: "HyDE 폴백 검색 활성. 첫 패스 결과 부족(< hyde_min_results) 시 LLM 가상 답변 임베딩으로 재검색 (트리거 #6 인프라, 디폴트 비활성).", field_type: "boolean", default_value: "false", requires_restart: false }));
    v.push(("hyde_min_results", FieldMeta { description: "HyDE 폴백 발동 임계. 첫 패스 결과가 이 개수 미만이면 LLM 폴백 시도.", field_type: "integer", default_value: "3", requires_restart: false }));
    proof {
        assert(field_layout(v@) =~= seq![("expand_kg_hops"@, "KG 1-hop 확장 개수 (0=비활성). 검색 결과 seed의 find_related 호출로 관련 문서를 score=0.0으로 append. 5K 코퍼스 측정 후 권장값 결정."@, "integer"@, "0"@, false), ("diversity_threshold"@, "동일 doc_type 결과 임계값 (0=비활성). 초과 시 범위 밖 non-dominant 결과와 swap. 단순 swap (full MMR 아님)."@, "integer"@, "0"@, false), ("hyde_enabled"@, "HyDE 폴백 검색 활성. 첫 패스 결과 부족(< hyde_min_results) 시 LLM 가상 답변 임베딩으로 재검색 (트리거 #6 인프라, 디폴트 비활성)."@, "boolean"@, "false"@, false), ("hyde_min_results"@, "HyDE 폴백 발동 임계. 첫 패스 결과가 이 개수 미만이면 LLM 폴백 시도."@, "integer"@, "3"@, false)]);
    }
    v
}

fn meta_group_3() -> (r: Vec<(&'static str, FieldMeta)>)
    ensures
        field_layout(r@) == seq![("enabled"@, "문서 가공 후 품질 검증 활성화"@, "boolean"@, "true"@, false), ("llm_hallucination_check"@, "LLM 환각 탐지 (claude_cli 추가 호출)"@, "boolean"@, "false"@, false), ("max_retry"@, "검증 실패 시 재가공 최대 횟수"@, "integer"@, "1"@, false), ("on_fail"@, "최종 실패 시 처리 (skip_with_notify / quarantine)"@, "string"@, "skip_with_notify"@, false)],
{
    let mut v: Vec<(&'static str, FieldMeta)> = Vec::new();
    v.push(("enabled", FieldMeta { description: "문서 가공 후 품질 검증 활성화", field_type: "boolean", default_value: "true", requires_restart: false }));
    v.push(("llm_hallucination_check", FieldMeta { description: "LLM 환각 탐지 (claude_cli 추가 호출)", field_type: "boolean", default_value: "false", requires_restart: false }));
    v.push(("max_retry", FieldMeta { description: "검증 실패 시 재가공 최대 횟수", field_type: "integer", default_value: "1", requires_restart: false }));
    v.push(("on_fail", FieldMeta { description: "최종 실패 시 처리 (skip_with_notify / quarantine)", field_type: "string", default_value: "skip_with_notify", requires_restart: false }));
    proof {
        assert(field_layout(v@) =~= seq![("enabled"@, "문서 가공 후 품질 검증 활성화"@, "boolean"@, "true"@, false), ("llm_hallucination_check"@, "LLM 환각 탐지 (claude_cli 추가 호출)"@, "boolean"@, "false"@, false), ("max_retry"@, "검증 실패 시 재가공 최대 횟수"@, "integer"@, "1"@, false), ("on_fail"@, "최종 실패 시 처리 (skip_with_notify / quarantine)"@, "string"@, "skip_with_notify"@, false)]);
    }
    v
}

fn meta_group_4() -> (r: Vec<(&'static str, FieldMeta)>)
    ensures
        field_layout(r@) == seq![("structure_min"@, "LLM 가공 결과의 구조 완전성 최소 비율. sections 키 기반 검사."@, "float"@, "0.5"@, false), ("compression_min"@, "LLM 가공 결과의 최소 길이 비율 (가공본/원본). zstd와 무관."@, "float"@, "0.05"@, false), ("compression_max"@, "LLM 가공 결과의 최대 길이 비율 (가공본/원본). zstd와 무관."@, "float"@, "1.5"@, false), ("keyword_coverage_min"@, "키워드 커버리지 최소 비율 (환각 탐지)"@, "float"@, "0.5"@, false), ("keyword_completeness_min"@, "키워드 완전성 최소 비율 (누락 탐지)"@, "float"@, "0.3"@, false), ("rouge_l_min"@, "ROUGE-L 최소 점수"@, "float"@, "0.1"@, false), ("entity_preservation_min"@, "개체(날짜/금액/URL) 보존 최소 비율"@, "float"@, "0.5"@, false)],
{
    let mut v: Vec<(&'static str, FieldMeta)> = Vec::new();
    v.push(("structure_min", FieldMeta { description: "LLM 가공 결과의 구조 완전성 최소 비율. sections 키 기반 검사.", field_type: "float", default_value: "0.5", requires_restart: false }));
    v.push(("compression_min", FieldMeta { description: "LLM 가공 결과의 최소 길이 비율 (가공본/원본). zstd와 무관.", field_type: "float", default_value: "0.05", requires_restart: false }));
    v.push(("compression_max", FieldMeta { description: "LLM 가공 결과의 최대 길이 비율 (가공본/원본). zstd와 무관.", field_type: "float", default_value: "1.5", requires_restart: false }));
    v.push(("keyword_coverage_min", FieldMeta { description: "키워드 커버리지 최소 비율 (환각 탐지)", field_type: "float", default_value: "0.5", requires_restart: false }));
    v.push(("keyword_completeness_min", FieldMeta { description: "키워드 완전성 최소 비율 (누락 탐지)", field_type: "float", default_value: "0.3", requires_restart: false }));
    v.push(("rouge_l_min", FieldMeta { description: "ROUGE-L 최소 점수", field_type: "float", default_value: "0.1", requires_restart: false }));
    v.push(("entity_preservation_min", FieldMeta { description: "개체(날짜/금액/URL) 보존 최소 비율", field_type: "float", default_value: "0.5", requires_restart: false }));
    proof {
        assert(field_layout(v@) =~= seq![("structure_min"@, "LLM 가공 결과의 구조 완전성 최소 비율. sections 키 기반 검사."@, "float"@, "0.5"@, false), ("compression_min"@, "LLM 가공 결과의 최소 길이 비율 (가공본/원본). zstd와 무관."@, "float"@, "0.05"@, false), ("compression_max"@, "LLM 가공 결과의 최대 길이 비율 (가공본/원본). zstd와 무관."@, "float"@, "1.5"@, false), ("keyword_coverage_min"@, "키워드 커버리지 최소 비율 (환각 탐지)"@, "float"@, "0.5"@, false), ("keyword_completeness_min"@, "키워드 완전성 최소 비율 (누락 탐지)"@, "float"@, "0.3"@, false), ("rouge_l_min"@, "ROUGE-L 최소 점수"@, "float"@, "0.1"@, false), ("entity_preservation_min"@, "개체(날짜/금액/URL) 보존 최소 비율"@, "float"@, "0.5"@, false)]);
    }
    v
}

fn meta_group_5() -> (r: Vec<(&'static str, FieldMeta)>)
    ensures
        field_layout(r@) == seq![("classify_model"@, "분류용 LLM 모델"@, "string"@, "sonnet"@, false), ("process_model"@, "가공용 LLM 모델"@, "string"@, "sonnet"@, false), ("verify_model"@, "검증용 LLM 모델"@, "string"@, "sonnet"@, false)],
{
    let mut v: Vec<(&'static str, FieldMeta)> = Vec::new();
    v.push(("classify_model", FieldMeta { description: "분류용 LLM 모델", field_type: "string", default_value: "sonnet", requires_restart: false }));
    v.push(("process_model", FieldMeta { description: "가공용 LLM 모델", field_type: "string", default_value: "sonnet", requires_restart: false }));
    v.push(("verify_model", FieldMeta { description: "검증용 LLM 모델", field_type: "string", default_value: "sonnet", requires_restart: false }));
    proof {
        assert(field_layout(v@) =~= seq![("classify_model"@, "분류용 LLM 모델"@, "string"@, "sonnet"@, false), ("process_model"@, "가공용 LLM 모델"@, "string"@, "sonnet"@, false), ("verify_model"@, "검증용 LLM 모델"@, "string"@, "sonnet"@, false)]);
    }
    v
}

fn meta_group_6() -> (r: Vec<(&'static str, FieldMeta)>)
    ensures
        field_layout(r@) == seq![("provider"@, "LLM 프로바이더 (claude_cli / anthropic_api / openai_api / ollama / gemini)"@, "string"@, "claude_cli"@, true), ("anthropic_api_key"@, "Anthropic API 키"@, "secret"@, ""@, true), ("openai_api_key"@, "OpenAI API 키 (LLM용)"@, "secret"@, ""@, true), ("gemini_api_key"@, "Google Gemini API 키"@, "secret"@, ""@, true), ("ollama_url"@, "Ollama 서버 URL"@, "string"@, "http://localhost:11434"@, true), ("ollama_model"@, "Ollama 모델명"@, "string"@, "llama3"@, true), ("openai_model"@, "OpenAI Chat 모델명"@, "string"@, "gpt-4o"@, true), ("gemini_model"@, "Gemini 모델명"@, "string"@, "gemini-2.0-flash"@, true), ("llm_cache_enabled"@, "LLM 결과 캐시 활성화 (Ruflo A1). 동일 파일 재가공 시 claude_cli 호출 회피."@, "boolean"@, "true"@, false), ("llm_cache_max_entries"@, "LLM 캐시 최대 엔트리 (0=무제한). 초과 시 last_hit_at 오래된 순으로 LRU 삭제."@, "integer"@, "10000"@, false)],
{
    let mut v: Vec<(&'static str, FieldMeta)> = Vec::new();
    v.push(("provider", FieldMeta { description: "LLM 프로바이더 (claude_cli / anthropic_api / openai_api / ollama / gemini)", field_type: "string", default_value: "claude_cli", requires_restart: true }));
    v.push(("anthropic_api_key", FieldMeta { description: "Anthropic API 키", field_type: "secret", default_value: "", requires_restart: true }));
    v.push(("openai_api_key", FieldMeta { description: "OpenAI API 키 (LLM용)", field_type: "secret", default_value: "", requires_restart: true }));
    v.push(("gemini_api_key", FieldMeta { description: "Google Gemini API 키", field_type: "secret", default_value: "", requires_restart: true }));
    v.push(("ollama_url", FieldMeta { description: "Ollama 서버 URL", field_type: "string", default_value: "http://localhost:11434", requires_restart: true }));
    v.push(("ollama_model", FieldMeta { description: "Ollama 모델명", field_type: "string", default_value: "llama3", requires_restart: true }));
    v.push(("openai_model", FieldMeta { description: "OpenAI Chat 모델명", field_type: "string", default_value: "gpt-4o", requires_restart: true }));
    v.push(("gemini_model", FieldMeta { description: "Gemini 모델명", field_type: "string", default_value: "gemini-2.0-flash", requires_restart: true }));
    v.push(("llm_cache_enabled", FieldMeta { description: "LLM 결과 캐시 활성화 (Ruflo A1). 동일 파일 재가공 시 claude_cli 호출 회피.", field_type: "boolean", default_value: "true", requires_restart: false }));
    v.push(("llm_cache_max_entries", FieldMeta { description: "LLM 캐시 최대 엔트리 (0=무제한). 초과 시 last_hit_at 오래된 순으로 LRU 삭제.", field_type: "integer", default_value: "10000", requires_restart: false }));
    proof {
        assert(field_layout(v@) =~= seq![("provider"@, "LLM 프로바이더 (claude_cli / anthropic_api / openai_api / ollama / gemini)"@, "string"@, "claude_cli"@, true), ("anthropic_api_key"@, "Anthropic API 키"@, "secret"@, ""@, true), ("openai_api_key"@, "OpenAI API 키 (LLM용)"@, "secret"@, ""@, true), ("gemini_api_key"@, "Google Gemini API 키"@, "secret"@, ""@, true), ("ollama_url"@, "Ollama 서버 URL"@, "string"@, "http://localhost:11434"@, true), ("ollama_model"@, "Ollama 모델명"@, "string"@, "llama3"@, true), ("openai_model"@, "OpenAI Chat 모델명"@, "string"@, "gpt-4o"@, true), ("gemini_model"@, "Gemini 모델명"@, "string"@, "gemini-2.0-flash"@, true), ("llm_cache_enabled"@, "LLM 결과 캐시 활성화 (Ruflo A1). 동일 파일 재가공 시 claude_cli 호출 회피."@, "boolean"@, "true"@, false), ("llm_cache_max_entries"@, "LLM 캐시 최대 엔트리 (0=무제한). 초과 시 last_hit_at 오래된 순으로 LRU 삭제."@, "integer"@, "10000"@, false)]);
    }
    v
}

fn meta_group_7() -> (r: Vec<(&'static str, FieldMeta)>)
    ensures
        field_layout(r@) == seq![("pdf_tool"@, "PDF 변환 도구. none=claude_cli 직접, marker=마크다운(pip install marker-pdf), pymupdf4llm=빠른 변환(pip install pymupdf4llm)"@, "select:none=변환 안 함|marker=Marker (pip install marker-pdf)|pymupdf4llm=PyMuPDF4LLM (pip install pymupdf4llm)"@, "none"@, false), ("ocr_tool"@, "OCR 도구. none=비활성, tesseract=로컬(apt install tesseract-ocr), claude_vision=claude_vision"@, "select:none=비활성|tesseract=Tesseract (apt install tesseract-ocr)|claude_vision=claude_vision"@, "none"@, false), ("docx_tool"@, "DOCX 변환 도구. auto=자동 감지, pandoc=범용(https://pandoc.org), python=python-docx(pip install python-docx), libreoffice=LibreOffice(https://libreoffice.org)"@, "select:auto=자동 감지|pandoc=Pandoc (https://pandoc.org)|python=python-docx (pip install python-docx)|libreoffice=LibreOffice (https://libreoffice.org)|none=비활성"@, "auto"@, false), ("xlsx_tool"@, "XLSX 변환 도구. auto=자동 감지, pandoc=범용, python=openpyxl(pip install openpyxl), libreoffice=LibreOffice"@, "select:auto=자동 감지|pandoc=Pandoc|python=openpyxl (pip install openpyxl)|libreoffice=LibreOffice|none=비활성"@, "auto"@, false), ("pptx_tool"@, "PPTX 변환 도구. auto=자동 감지, pandoc=범용, libreoffice=LibreOffice"@, "select:auto=자동 감지|pandoc=Pandoc|libreoffice=LibreOffice|none=비활성"@, "auto"@, false), ("auto_merge_threshold"@, "자동 토픽 병합 트리거 문서 수"@, "integer"@, "5"@, false), ("max_topic_chars"@, "토픽 요약 최대 글자 수"@, "integer"@, "10000"@, false)],
{
    let mut v: Vec<(&'static str, FieldMeta)> = Vec::new();
    v.push(("pdf_tool", FieldMeta { description: "PDF 변환 도구. none=claude_cli 직접, marker=마크다운(pip install marker-pdf), pymupdf4llm=빠른 변환(pip install pymupdf4llm)", field_type: "select:none=변환 안 함|marker=Marker (pip install marker-pdf)|pymupdf4llm=PyMuPDF4LLM (pip install pymupdf4llm)", default_value: "none", requires_restart: false }));
    v.push(("ocr_tool", FieldMeta { description: "OCR 도구. none=비활성, tesseract=로컬(apt install tesseract-ocr), claude_vision=claude_vision", field_type: "select:none=비활성|tesseract=Tesseract (apt install tesseract-ocr)|claude_vision=claude_vision", default_value: "none", requires_restart: false }));
    v.push(("docx_tool", FieldMeta { description: "DOCX 변환 도구. auto=자동 감지, pandoc=범용(https://pandoc.org), python=python-docx(pip install python-docx), libreoffice=LibreOffice(https://libreoffice.org)", field_type: "select:auto=자동 감지|pandoc=Pandoc (https://pandoc.org)|python=python-docx (pip install python-docx)|libreoffice=LibreOffice (https://libreoffice.org)|none=비활성", default_value: "auto", requires_restart: false }));
    v.push(("xlsx_tool", FieldMeta { description: "XLSX 변환 도구. auto=자동 감지, pandoc=범용, python=openpyxl(pip install openpyxl), libreoffice=LibreOffice", field_type: "select:auto=자동 감지|pandoc=Pandoc|python=openpyxl (pip install openpyxl)|libreoffice=LibreOffice|none=비활성", default_value: "auto", requires_restart: false }));
    v.push(("pptx_tool", FieldMeta { description: "PPTX 변환 도구. auto=자동 감지, pandoc=범용, libreoffice=LibreOffice", field_type: "select:auto=자동 감지|pandoc=Pandoc|libreoffice=LibreOffice|none=비활성", default_value: "auto", requires_restart: false }));
    v.push(("auto_merge_threshold", FieldMeta { description: "자동 토픽 병합 트리거 문서 수", field_type: "integer", default_value: "5", requires_restart: false }));
    v.push(("max_topic_chars", FieldMeta { description: "토픽 요약 최대 글자 수", field_type: "integer", default_value: "10000", requires_restart: false }));
    proof {
        assert(field_layout(v@) =~= seq![("pdf_tool"@, "PDF 변환 도구. none=claude_cli 직접, marker=마크다운(pip install marker-pdf), pymupdf4llm=빠른 변환(pip install pymupdf4llm)"@, "select:none=변환 안 함|marker=Marker (pip install marker-pdf)|pymupdf4llm=PyMuPDF4LLM (pip install pymupdf4llm)"@, "none"@, false), ("ocr_tool"@, "OCR 도구. none=비활성, tesseract=로컬(apt install tesseract-ocr), claude_vision=claude_vision"@, "select:none=비활성|tesseract=Tesseract (apt install tesseract-ocr)|claude_vision=claude_vision"@, "none"@, false), ("docx_tool"@, "DOCX 변환 도구. auto=자동 감지, pandoc=범용(https://pandoc.org), python=python-docx(pip install python-docx), libreoffice=LibreOffice(https://libreoffice.org)"@, "select:auto=자동 감지|pandoc=Pandoc (https://pandoc.org)|python=python-docx (pip install python-docx)|libreoffice=LibreOffice (https://libreoffice.org)|none=비활성"@, "auto"@, false), ("xlsx_tool"@, "XLSX 변환 도구. auto=자동 감지, pandoc=범용, python=openpyxl(pip install openpyxl), libreoffice=LibreOffice"@, "select:auto=자동 감지|pandoc=Pandoc|python=openpyxl (pip install openpyxl)|libreoffice=LibreOffice|none=비활성"@, "auto"@, false), ("pptx_tool"@, "PPTX 변환 도구. auto=자동 감지, pandoc=범용, libreoffice=LibreOffice"@, "select:auto=자동 감지|pandoc=Pandoc|libreoffice=LibreOffice|none=비활성"@, "auto"@, false), ("auto_merge_threshold"@, "자동 토픽 병합 트리거 문서 수"@, "integer"@, "5"@, false), ("max_topic_chars"@, "토픽 요약 최대 글자 수"@, "integer"@, "10000"@, false)]);
    }
    v
}

fn meta_group_8() -> (r: Vec<(&'static str, FieldMeta)>)
    ensures
        field_layout(r@) == seq![("keywords"@, "민감 키워드 목록. 파일 내용에 이 키워드가 포함되면 민감 파일로 분류되어 별도 보관됩니다. 예: 비밀번호, 주민등록번호, 계좌번호. 기본 키워드(password, secret, private_key 등) 외에 추가할 키워드를 입력하세요."@, "string_array"@, ""@, false), ("extensions"@, "민감 확장자 목록. 해당 확장자 파일은 내용과 무관하게 민감 파일로 분류됩니다. 예: .pem, .key, .pfx. 기본 확장자(.env, .pem, .key 등) 외에 추가할 확장자를 입력하세요."@, "string_array"@, ""@, false)],
{
    let mut v: Vec<(&'static str, FieldMeta)> = Vec::new();
    v.push(("keywords", FieldMeta { description: "민감 키워드 목록. 파일 내용에 이 키워드가 포함되면 민감 파일로 분류되어 별도 보관됩니다. 예: 비밀번호, 주민등록번호, 계좌번호. 기본 키워드(password, secret, private_key 등) 외에 추가할 키워드를 입력하세요.", field_type: "string_array", default_value: "", requires_restart: false }));
    v.push(("extensions", FieldMeta { description: "민감 확장자 목록. 해당 확장자 파일은 내용과 무관하게 민감 파일로 분류됩니다. 예: .pem, .key, .pfx. 기본 확장자(.env, .pem, .key 등) 외에 추가할 확장자를 입력하세요.", field_type: "string_array", default_value: "", requires_restart: false }));
    proof {
        assert(field_layout(v@) =~= seq![("keywords"@, "민감 키워드 목록. 파일 내용에 이 키워드가 포함되면 민감 파일로 분류되어 별도 보관됩니다. 예: 비밀번호, 주민등록번호, 계좌번호. 기본 키워드(password, secret, private_key 등) 외에 추가할 키워드를 입력하세요."@, "string_array"@, ""@, false), ("extensions"@, "민감 확장자 목록. 해당 확장자 파일은 내용과 무관하게 민감 파일로 분류됩니다. 예: .pem, .key, .pfx. 기본 확장자(.env, .pem, .key 등) 외에 추가할 확장자를 입력하세요."@, "string_array"@, ""@, false)]);
    }
    v
}

fn meta_group_9() -> (r: Vec<(&'static str, FieldMeta)>)
    ensures
        field_layout(r@) == seq![("level"@, "로그 레벨"@, "select:trace=Trace (전체)|debug=Debug (상세)|info=Info (일반)|warn=Warn (경고만)|error=Error (에러만)"@, "info"@, false), ("file"@, "파일 로그 출력"@, "boolean"@, "true"@, false), ("console"@, "콘솔 로그 출력"@, "boolean"@, "true"@, false), ("max_mb"@, "로그 파일 최대 크기 (MB)"@, "integer"@, "100"@, false)],
{
    let mut v: Vec<(&'static str, FieldMeta)> = Vec::new();
    v.push(("level", FieldMeta { description: "로그 레벨", field_type: "select:trace=Trace (전체)|debug=Debug (상세)|info=Info (일반)|warn=Warn (경고만)|error=Error (에러만)", default_value: "info", requires_restart: false }));
    v.push(("file", FieldMeta { description: "파일 로그 출력", field_type: "boolean", default_value: "true", requires_restart: false }));
    v.push(("console", FieldMeta { description: "콘솔 로그 출력", field_type: "boolean", default_value: "true", requires_restart: false }));
    v.push(("max_mb", FieldMeta { description: "로그 파일 최대 크기 (MB)", field_type: "integer", default_value: "100", requires_restart: false }));
    proof {
        assert(field_layout(v@) =~= seq![("level"@, "로그 레벨"@, "select:trace=Trace (전체)|debug=Debug (상세)|info=Info (일반)|warn=Warn (경고만)|error=Error (에러만)"@, "info"@, false), ("file"@, "파일 로그 출력"@, "boolean"@, "true"@, false), ("console"@, "콘솔 로그 출력"@, "boolean"@, "true"@, false), ("max_mb"@, "로그 파일 최대 크기 (MB)"@, "integer"@, "100"@, false)]);
    }
    v
}

fn meta_group_10() -> (r: Vec<(&'static str, FieldMeta)>)
    ensures
        field_layout(r@) == seq![("lint_interval_hours"@, "기본 lint 주기 — 색인 정합성/상한 검사 (시간, 0=비활성). Phase 87 다층 lint 도입 (wikidocs 353407 매일 색인 확인)."@, "integer"@, "6"@, false), ("lint_weekly_hours"@, "주 1회 lint — 중복·미연결 문서 검사 (시간, 0=비활성, 기본 168=7일)."@, "integer"@, "168"@, false), ("lint_monthly_hours"@, "월 1회 lint — 오래된·상충 정보 검사 (시간, 0=비활성, 기본 720=30일)."@, "integer"@, "720"@, false), ("auto_suggest_interval_hours"@, "자동 추천 주기 (시간, 0=비활성). 누적 카운터 분석 → decision_log 자동 INSERT."@, "integer"@, "4"@, false)],
{
    let mut v: Vec<(&'static str, FieldMeta)> = Vec::new();
    v.push(("lint_interval_hours", FieldMeta { description: "기본 lint 주기 — 색인 정합성/상한 검사 (시간, 0=비활성). Phase 87 다층 lint 도입 (wikidocs 353407 매일 색인 확인).", field_type: "integer", default_value: "6", requires_restart: false }));
    v.push(("lint_weekly_hours", FieldMeta { description: "주 1회 lint — 중복·미연결 문서 검사 (시간, 0=비활성, 기본 168=7일).", field_type: "integer", default_value: "168", requires_restart: false }));
    v.push(("lint_monthly_hours", FieldMeta { description: "월 1회 lint — 오래된·상충 정보 검사 (시간, 0=비활성, 기본 720=30일).", field_type: "integer", default_value: "720", requires_restart: false }));
    v.push(("auto_suggest_interval_hours", FieldMeta { description: "자동 추천 주기 (시간, 0=비활성). 누적 카운터 분석 → decision_log 자동 INSERT.", field_type: "integer", default_value: "4", requires_restart: false }));
    proof {
        assert(field_layout(v@) =~= seq![("lint_interval_hours"@, "기본 lint 주기 — 색인 정합성/상한 검사 (시간, 0=비활성). Phase 87 다층 lint 도입 (wikidocs 353407 매일 색인 확인)."@, "integer"@, "6"@, false), ("lint_weekly_hours"@, "주 1회 lint — 중복·미연결 문서 검사 (시간, 0=비활성, 기본 168=7일)."@, "integer"@, "168"@, false), ("lint_monthly_hours"@, "월 1회 lint — 오래된·상충 정보 검사 (시간, 0=비활성, 기본 720=30일)."@, "integer"@, "720"@, false), ("auto_suggest_interval_hours"@, "자동 추천 주기 (시간, 0=비활성). 누적 카운터 분석 → decision_log 자동 INSERT."@, "integer"@, "4"@, false)]);
    }
    v
}

fn meta_group_11() -> (r: Vec<(&'static str, FieldMeta)>)
    ensures
        field_layout(r@) == seq![("extra_inboxes"@, "추가 감시 폴더 경로. 기본 inbox 외에 감시할 절대 경로 목록. + 추가 버튼으로 행을 추가하고 각 행에 한 경로씩 입력. 등록된 모든 폴더에 동일한 파이프라인이 적용됩니다."@, "string_array"@, ""@, false)],
{
    let mut v: Vec<(&'static str, FieldMeta)> = Vec::new();
    v.push(("extra_inboxes", FieldMeta { description: "추가 감시 폴더 경로. 기본 inbox 외에 감시할 절대 경로 목록. + 추가 버튼으로 행을 추가하고 각 행에 한 경로씩 입력. 등록된 모든 폴더에 동일한 파이프라인이 적용됩니다.", field_type: "string_array", default_value: "", requires_restart: false }));
    proof {
        assert(field_layout(v@) =~= seq![("extra_inboxes"@, "추가 감시 폴더 경로. 기본 inbox 외에 감시할 절대 경로 목록. + 추가 버튼으로 행을 추가하고 각 행에 한 경로씩 입력. 등록된 모든 폴더에 동일한 파이프라인이 적용됩니다."@, "string_array"@, ""@, false)]);
    }
    v
}

fn meta_group_12() -> (r: Vec<(&'static str, FieldMeta)>)
    ensures
        field_layout(r@) == seq![("max_workers"@, "동시 처리 워커 수"@, "integer"@, "4"@, true)],
{
    let mut v: Vec<(&'static str, FieldMeta)> = Vec::new();
    v.push(("max_workers", FieldMeta { description: "동시 처리 워커 수", field_type: "integer", default_value: "4", requires_restart: true }));
    proof {
        assert(field_layout(v@) =~= seq![("max_workers"@, "동시 처리 워커 수"@, "integer"@, "4"@, true)]);
    }
    v
}

fn meta_group_13() -> (r: Vec<(&'static str, FieldMeta)>)
    ensures
        field_layout(r@) == seq![("enabled"@, "리랭킹 활성화 (BGE-Reranker-v2-M3 Cross-Encoder, 로컬)"@, "boolean"@, "true"@, false), ("top_n"@, "리랭킹 상위 N개 결과"@, "integer"@, "20"@, false)],
{
    let mut v: Vec<(&'static str, FieldMeta)> = Vec::new();
    v.push(("enabled", FieldMeta { description: "리랭킹 활성화 (BGE-Reranker-v2-M3 Cross-Encoder, 로컬)", field_type: "boolean", default_value: "true", requires_restart: false }));
    v.push(("top_n", FieldMeta { description: "리랭킹 상위 N개 결과", field_type: "integer", default_value: "20", requires_restart: false }));
    proof {
        assert(field_layout(v@) =~= seq![("enabled"@, "리랭킹 활성화 (BGE-Reranker-v2-M3 Cross-Encoder, 로컬)"@, "boolean"@, "true"@, false), ("top_n"@, "리랭킹 상위 N개 결과"@, "integer"@, "20"@, false)]);
    }
    v
}

fn meta_group_14() -> (r: Vec<(&'static str, FieldMeta)>)
    ensures
        field_layout(r@) == seq![("semantic_enabled"@, "의미 단위 청킹 사용. false일 경우 기존 40KB 바이트 분할"@, "boolean"@, "true"@, false), ("target_bytes"@, "목표 청크 크기 (바이트). 대략 토큰수×4"@, "integer"@, "1500"@, false), ("max_bytes"@, "최대 청크 크기 (바이트). 초과 시 강제 분할"@, "integer"@, "2500"@, false), ("overlap_sentences"@, "청크 간 오버랩 문장 수. 맥락 유지를 위한 중첩"@, "integer"@, "2"@, false), ("preserve_code_blocks"@, "코드 펜스(```) 블록을 분할하지 않고 보존"@, "boolean"@, "true"@, false), ("preserve_tables"@, "표 마크다운(`|...|`) 블록을 분할하지 않고 보존. 표 비중 높은 도메인에서 활성화 권장 (트리거 #8 인프라)"@, "boolean"@, "false"@, false)],
{
    let mut v: Vec<(&'static str, FieldMeta)> = Vec::new();
    v.push(("semantic_enabled", FieldMeta { description: "의미 단위 청킹 사용. false일 경우 기존 40KB 바이트 분할", field_type: "boolean", default_value: "true", requires_restart: false }));
    v.push(("target_bytes", FieldMeta { description: "목표 청크 크기 (바이트). 대략 토큰수×4", field_type: "integer", default_value: "1500", requires_restart: false }));
    v.push(("max_bytes", FieldMeta { description: "최대 청크 크기 (바이트). 초과 시 강제 분할", field_type: "integer", default_value: "2500", requires_restart: false }));
    v.push(("overlap_sentences", FieldMeta { description: "청크 간 오버랩 문장 수. 맥락 유지를 위한 중첩", field_type: "integer", default_value: "2", requires_restart: false }));
    v.push(("preserve_code_blocks", FieldMeta { description: "코드 펜스(```) 블록을 분할하지 않고 보존", field_type: "boolean", default_value: "true", requires_restart: false }));
    v.push(("preserve_tables", FieldMeta { description: "표 마크다운(`|...|`) 블록을 분할하지 않고 보존. 표 비중 높은 도메인에서 활성화 권장 (트리거 #8 인프라)", field_type: "boolean", default_value: "false", requires_restart: false }));
    proof {
        assert(field_layout(v@) =~= seq![("semantic_enabled"@, "의미 단위 청킹 사용. false일 경우 기존 40KB 바이트 분할"@, "boolean"@, "true"@, false), ("target_bytes"@, "목표 청크 크기 (바이트). 대략 토큰수×4"@, "integer"@, "1500"@, false), ("max_bytes"@, "최대 청크 크기 (바이트). 초과 시 강제 분할"@, "integer"@, "2500"@, false), ("overlap_sentences"@, "청크 간 오버랩 문장 수. 맥락 유지를 위한 중첩"@, "integer"@, "2"@, false), ("preserve_code_blocks"@, "코드 펜스(```) 블록을 분할하지 않고 보존"@, "boolean"@, "true"@, false), ("preserve_tables"@, "표 마크다운(`|...|`) 블록을 분할하지 않고 보존. 표 비중 높은 도메인에서 활성화 권장 (트리거 #8 인프라)"@, "boolean"@, "false"@, false)]);
    }
    v
}

fn meta_group_15() -> (r: Vec<(&'static str, FieldMeta)>)
    ensures
        field_layout(r@) == seq![("enabled"@, "교차참조 활성화"@, "boolean"@, "true"@, false), ("mode"@, "교차참조 모드"@, "select:auto=자동 (LLM 없음)|llm=LLM 보강|off=비활성"@, "auto"@, false), ("similarity_threshold"@, "유사도 임계값. 이 이상이면 관계 생성. Phase 64 디폴트 0.8 (관계 노이즈 감소). HashEmbedder/BGE-M3 모두 0.8 권장"@, "float"@, "0.8"@, false), ("supersedes_threshold"@, "Supersedes 판정 임계값 (같은 유형 + 이 이상이면 대체)"@, "float"@, "0.95"@, false), ("keyword_overlap_min"@, "RelatedTopic 최소 키워드 겹침 수"@, "integer"@, "3"@, false), ("cap_supersedes"@, "outgoing Supersedes 최대 수 (문서당)"@, "integer"@, "2"@, false), ("cap_updates"@, "outgoing Updates 최대 수 (문서당)"@, "integer"@, "5"@, false), ("cap_related"@, "outgoing RelatedTopic 최대 수 (문서당)"@, "integer"@, "20"@, false), ("cap_references"@, "outgoing References 최대 수 (문서당)"@, "integer"@, "10"@, false), ("cap_incoming"@, "incoming 관계 최대 수 (0=무제한)"@, "integer"@, "0"@, false), ("minhash_force_enable"@, "MinHash LSH 강제 활성 (자동 임계치 무시)"@, "boolean"@, "false"@, false), ("minhash_min_docs"@, "MinHash LSH 자동 활성 최소 문서 수"@, "integer"@, "3000"@, false), ("metadata_blocking"@, "메타데이터 블로킹 (doc_type 또는 키워드 1개 이상 겹침 필요)"@, "boolean"@, "false"@, false), ("flush_interval_secs"@, "flush_crossref 비동기 큐 처리 주기 (초)"@, "integer"@, "30"@, false)],
{
    let mut v: Vec<(&'static str, FieldMeta)> = Vec::new();
    v.push(("enabled", FieldMeta { description: "교차참조 활성화", field_type: "boolean", default_value: "true", requires_restart: false }));
    v.push(("mode", FieldMeta { description: "교차참조 모드", field_type: "select:auto=자동 (LLM 없음)|llm=LLM 보강|off=비활성", default_value: "auto", requires_restart: false }));
    v.push(("similarity_threshold", FieldMeta { description: "유사도 임계값. 이 이상이면 관계 생성. Phase 64 디폴트 0.8 (관계 노이즈 감소). HashEmbedder/BGE-M3 모두 0.8 권장", field_type: "float", default_value: "0.8", requires_restart: false }));
    v.push(("supersedes_threshold", FieldMeta { description: "Supersedes 판정 임계값 (같은 유형 + 이 이상이면 대체)", field_type: "float", default_value: "0.95", requires_restart: false }));
    v.push(("keyword_overlap_min", FieldMeta { description: "RelatedTopic 최소 키워드 겹침 수", field_type: "integer", default_value: "3", requires_restart: false }));
    v.push(("cap_supersedes", FieldMeta { description: "outgoing Supersedes 최대 수 (문서당)", field_type: "integer", default_value: "2", requires_restart: false }));
    v.push(("cap_updates", FieldMeta { description: "outgoing Updates 최대 수 (문서당)", field_type: "integer", default_value: "5", requires_restart: false }));
    v.push(("cap_related", FieldMeta { description: "outgoing RelatedTopic 최대 수 (문서당)", field_type: "integer", default_value: "20", requires_restart: false }));
    v.push(("cap_references", FieldMeta { description: "outgoing References 최대 수 (문서당)", field_type: "integer", default_value: "10", requires_restart: false }));
    v.push(("cap_incoming", FieldMeta { description: "incoming 관계 최대 수 (0=무제한)", field_type: "integer", default_value: "0", requires_restart: false }));
    v.push(("minhash_force_enable", FieldMeta { description: "MinHash LSH 강제 활성 (자동 임계치 무시)", field_type: "boolean", default_value: "false", requires_restart: false }));
    v.push(("minhash_min_docs", FieldMeta { description: "MinHash LSH 자동 활성 최소 문서 수", field_type: "integer", default_value: "3000", requires_restart: false }));
    v.push(("metadata_blocking", FieldMeta { description: "메타데이터 블로킹 (doc_type 또는 키워드 1개 이상 겹침 필요)", field_type: "boolean", default_value: "false", requires_restart: false }));
    v.push(("flush_interval_secs", FieldMeta { description: "flush_crossref 비동기 큐 처리 주기 (초)", field_type: "integer", default_value: "30", requires_restart: false }));
    proof {
        assert(field_layout(v@) =~= seq![("enabled"@, "교차참조 활성화"@, "boolean"@, "true"@, false), ("mode"@, "교차참조 모드"@, "select:auto=자동 (LLM 없음)|llm=LLM 보강|off=비활성"@, "auto"@, false), ("similarity_threshold"@, "유사도 임계값. 이 이상이면 관계 생성. Phase 64 디폴트 0.8 (관계 노이즈 감소). HashEmbedder/BGE-M3 모두 0.8 권장"@, "float"@, "0.8"@, false), ("supersedes_threshold"@, "Supersedes 판정 임계값 (같은 유형 + 이 이상이면 대체)"@, "float"@, "0.95"@, false), ("keyword_overlap_min"@, "RelatedTopic 최소 키워드 겹침 수"@, "integer"@, "3"@, false), ("cap_supersedes"@, "outgoing Supersedes 최대 수 (문서당)"@, "integer"@, "2"@, false), ("cap_updates"@, "outgoing Updates 최대 수 (문서당)"@, "integer"@, "5"@, false), ("cap_related"@, "outgoing RelatedTopic 최대 수 (문서당)"@, "integer"@, "20"@, false), ("cap_references"@, "outgoing References 최대 수 (문서당)"@, "integer"@, "10"@, false), ("cap_incoming"@, "incoming 관계 최대 수 (0=무제한)"@, "integer"@, "0"@, false), ("minhash_force_enable"@, "MinHash LSH 강제 활성 (자동 임계치 무시)"@, "boolean"@, "false"@, false), ("minhash_min_docs"@, "MinHash LSH 자동 활성 최소 문서 수"@, "integer"@, "3000"@, false), ("metadata_blocking"@, "메타데이터 블로킹 (doc_type 또는 키워드 1개 이상 겹침 필요)"@, "boolean"@, "false"@, false), ("flush_interval_secs"@, "flush_crossref 비동기 큐 처리 주기 (초)"@, "integer"@, "30"@, false)]);
    }
    v
}

fn meta_group_16() -> (r: Vec<(&'static str, FieldMeta)>)
    ensures
        field_layout(r@) == seq![("hot_days"@, "hot 분류 기준 (마지막 접근 후 N일 이내)"@, "integer"@, "7"@, false), ("warm_days"@, "warm 분류 기준"@, "integer"@, "30"@, false), ("cold_days"@, "cold 분류 기준 (이후는 archived)"@, "integer"@, "90"@, false)],
{
    let mut v: Vec<(&'static str, FieldMeta)> = Vec::new();
    v.push(("hot_days", FieldMeta { description: "hot 분류 기준 (마지막 접근 후 N일 이내)", field_type: "integer", default_value: "7", requires_restart: false }));
    v.push(("warm_days", FieldMeta { description: "warm 분류 기준", field_type: "integer", default_value: "30", requires_restart: false }));
    v.push(("cold_days", FieldMeta { description: "cold 분류 기준 (이후는 archived)", field_type: "integer", default_value: "90", requires_restart: false }));
    proof {
        assert(field_layout(v@) =~= seq![("hot_days"@, "hot 분류 기준 (마지막 접근 후 N일 이내)"@, "integer"@, "7"@, false), ("warm_days"@, "warm 분류 기준"@, "integer"@, "30"@, false), ("cold_days"@, "cold 분류 기준 (이후는 archived)"@, "integer"@, "90"@, false)]);
    }
    v
}

fn meta_group_17() -> (r: Vec<(&'static str, FieldMeta)>)
    ensures
        field_layout(r@) == seq![("window_lines"@, "Sentence Window: 매칭 위치 ±N 줄"@, "integer"@, "5"@, false), ("mmr_lambda"@, "MMR λ (0.0~1.0). 낮을수록 다양성, 높을수록 관련도 우선"@, "float"@, "0.5"@, false), ("sparse_weight"@, "Sparse(BM25) 가중치 (Hybrid Match에서 dense 대비 비율)"@, "float"@, "1.0"@, false), ("time_weight"@, "시간 가중 비율 (recent 모드 boost, 0.10 = +10%)"@, "float"@, "0.10"@, false)],
{
    let mut v: Vec<(&'static str, FieldMeta)> = Vec::new();
    v.push(("window_lines", FieldMeta { description: "Sentence Window: 매칭 위치 ±N 줄", field_type: "integer", default_value: "5", requires_restart: false }));
    v.push(("mmr_lambda", FieldMeta { description: "MMR λ (0.0~1.0). 낮을수록 다양성, 높을수록 관련도 우선", field_type: "float", default_value: "0.5", requires_restart: false }));
    v.push(("sparse_weight", FieldMeta { description: "Sparse(BM25) 가중치 (Hybrid Match에서 dense 대비 비율)", field_type: "float", default_value: "1.0", requires_restart: false }));
    v.push(("time_weight", FieldMeta { description: "시간 가중 비율 (recent 모드 boost, 0.10 = +10%)", field_type: "float", default_value: "0.10", requires_restart: false }));
    proof {
        assert(field_layout(v@) =~= seq![("window_lines"@, "Sentence Window: 매칭 위치 ±N 줄"@, "integer"@, "5"@, false), ("mmr_lambda"@, "MMR λ (0.0~1.0). 낮을수록 다양성, 높을수록 관련도 우선"@, "float"@, "0.5"@, false), ("sparse_weight"@, "Sparse(BM25) 가중치 (Hybrid Match에서 dense 대비 비율)"@, "float"@, "1.0"@, false), ("time_weight"@, "시간 가중 비율 (recent 모드 boost, 0.10 = +10%)"@, "float"@, "0.10"@, false)]);
    }
    v
}

fn meta_group_18() -> (r: Vec<(&'static str, FieldMeta)>)
    ensures
        field_layout(r@) == seq![("summary_interval_secs"@, "배치 요약 flush 유휴 시간 (초)"@, "integer"@, "30"@, false)],
{
    let mut v: Vec<(&'static str, FieldMeta)> = Vec::new();
    v.push(("summary_interval_secs", FieldMeta { description: "배치 요약 flush 유휴 시간 (초)", field_type: "integer", default_value: "30", requires_restart: false }));
    proof {
        assert(field_layout(v@) =~= seq![("summary_interval_secs"@, "배치 요약 flush 유휴 시간 (초)"@, "integer"@, "30"@, false)]);
    }
    v
}

/// The field descriptions of the settings screen, by group.
/// `"true"` or `"false"`, as the settings screen writes a flag.
pub open spec fn bool_text(b: bool) -> Seq<char> {
    if b {
        "true"@
    } else {
        "false"@
    }
}

/// The default texts of the fields of a group, in order.
pub open spec fn meta_defaults(fs: Seq<(Seq<char>, Seq<char>, Seq<char>, Seq<char>, bool)>) -> Seq<Seq<char>> {
    Seq::new(fs.len(), |j: int| fs[j].3)
}

/// The defaults that the settings screen shows for the compression fields are
/// the values that `CompressionConfig::default` gives.
pub proof fn lemma_compression_meta_defaults(d: CompressionConfig)
    requires
        is_default_compression(d),
    ensures
        metadata_layout()[0].0 == "compression"@,
        meta_defaults(metadata_layout()[0].1) == seq![
            dec_of(d.zstd_level as nat),
            dec_of(d.original_ttl_days as nat),
            bool_text(d.compress_processed),
        ],
{
    reveal_strlit("3");
    reveal_strlit("30");
    reveal_with_fuel(dec_digits, 3);
    assert(dec_of(3) =~= "3"@);
    assert(dec_of(30) =~= "30"@);
    assert(meta_defaults(metadata_layout()[0].1) =~= seq!["3"@, "30"@, "true"@]);
}

/// The defaults that the settings screen shows for the verification fields
/// are the values that `VerificationConfig::default` gives, except the
/// final-failure action: the screen shows `skip_with_notify`.
pub proof fn lemma_verification_meta_defaults(d: VerificationConfig)
    requires
        is_default_verification(d),
    ensures
        metadata_layout()[3].0 == "verification"@,
        meta_defaults(metadata_layout()[3].1).take(3) == seq![
            bool_text(d.enabled),
            bool_text(d.llm_hallucination_check),
            dec_of(d.max_retry as nat),
        ],
{
    reveal_strlit("1");
    reveal_with_fuel(dec_digits, 2);
    assert(dec_of(1) =~= "1"@);
    assert(meta_defaults(metadata_layout()[3].1).take(3) =~= seq!["true"@, "false"@, "1"@]);
}

/// The defaults that the settings screen shows for the model fields are the
/// values that `ModelsConfig::default` gives.
pub proof fn lemma_models_meta_defaults(d: ModelsConfig)
    requires
        is_default_models(d),
    ensures
        metadata_layout()[5].0 == "models"@,
        meta_defaults(metadata_layout()[5].1) == seq![d.classify_model@, d.process_model@, d.verify_model@],
{
    assert(meta_defaults(metadata_layout()[5].1) =~= seq!["sonnet"@, "sonnet"@, "sonnet"@]);
}

/// The defaults that the settings screen shows for the LLM fields are the
/// values that `LlmConfig::default` gives (the API keys, unset there, are
/// shown empty).
pub proof fn lemma_llm_meta_defaults(d: LlmConfig)
    requires
        is_default_llm(d),
    ensures
        metadata_layout()[6].0 == "llm"@,
        meta_defaults(metadata_layout()[6].1) == seq![
            d.provider@,
            Seq::<char>::empty(),
            Seq::<char>::empty(),
            Seq::<char>::empty(),
            d.ollama_url@,
            d.ollama_model@,
            d.openai_model@,
            d.gemini_model@,
            bool_text(d.llm_cache_enabled),
            dec_of(d.llm_cache_max_entries as nat),
        ],
        d.anthropic_api_key is None && d.openai_api_key is None && d.gemini_api_key is None,
{
    reveal_strlit("10000");
    reveal_strlit("");
    reveal_with_fuel(dec_digits, 6);
    assert(dec_of(10000) =~= "10000"@);
    assert(""@ =~= Seq::<char>::empty());
    assert(meta_defaults(metadata_layout()[6].1) =~= seq![
        "claude_cli"@,
        ""@,
        ""@,
        ""@,
        "http://localhost:11434"@,
        "llama3"@,
        "gpt-4o"@,
        "gemini-2.0-flash"@,
        "true"@,
        "10000"@,
    ]);
}

/// The defaults that the settings screen shows for the preprocessing fields
/// are the values that `PreprocessingConfig::default` gives, except the
/// DOCX, XLSX and PPTX tools: the screen shows `auto`.
pub proof fn lemma_preprocessing_meta_defaults(d: PreprocessingConfig)
    requires
        is_default_preprocessing(d),
    ensures
        metadata_layout()[7].0 == "preprocessing"@,
        meta_defaults(metadata_layout()[7].1)[0] == d.pdf_tool@,
        meta_defaults(metadata_layout()[7].1)[1] == d.ocr_tool@,
        meta_defaults(metadata_layout()[7].1)[5] == dec_of(d.auto_merge_threshold as nat),
        meta_defaults(metadata_layout()[7].1)[6] == dec_of(d.max_topic_chars as nat),
{
    reveal_strlit("5");
    reveal_strlit("10000");
    reveal_with_fuel(dec_digits, 6);
    assert(dec_of(5) =~= "5"@);
    assert(dec_of(10000) =~= "10000"@);
}

/// The defaults that the settings screen shows for the logging fields are the
/// values that `LoggingConfig::default` gives.
pub proof fn lemma_logging_meta_defaults(d: LoggingConfig)
    requires
        is_default_logging(d),
    ensures
        metadata_layout()[9].0 == "logging"@,
        meta_defaults(metadata_layout()[9].1) == seq![
            d.level@,
            bool_text(d.file),
            bool_text(d.console),
            dec_of(d.max_mb as nat),
        ],
{
    reveal_strlit("100");
    reveal_with_fuel(dec_digits, 4);
    assert(dec_of(100) =~= "100"@);
    assert(meta_defaults(metadata_layout()[9].1) =~= seq!["info"@, "true"@, "true"@, "100"@]);
}

/// The defaults that the settings screen shows for the schedule fields are the
/// values that `ScheduleConfig::default` gives.
pub proof fn lemma_schedule_meta_defaults(d: ScheduleConfig)
    requires
        is_default_schedule(d),
    ensures
        metadata_layout()[10].0 == "schedule"@,
        meta_defaults(metadata_layout()[10].1) == seq![
            dec_of(d.lint_interval_hours as nat),
            dec_of(d.lint_weekly_hours as nat),
            dec_of(d.lint_monthly_hours as nat),
            dec_of(d.auto_suggest_interval_hours as nat),
        ],
{
    reveal_strlit("6");
    reveal_strlit("168");
    reveal_strlit("720");
    reveal_strlit("4");
    reveal_with_fuel(dec_digits, 4);
    assert(dec_of(6) =~= "6"@);
    assert(dec_of(168) =~= "168"@);
    assert(dec_of(720) =~= "720"@);
    assert(dec_of(4) =~= "4"@);
    assert(meta_defaults(metadata_layout()[10].1) =~= seq!["6"@, "168"@, "720"@, "4"@]);
}

/// The defaults that the settings screen shows for the reranking fields are
/// the values that `RerankConfig::default` gives.
pub proof fn lemma_rerank_meta_defaults(d: RerankConfig)
    requires
        is_default_rerank(d),
    ensures
        metadata_layout()[13].0 == "rerank"@,
        meta_defaults(metadata_layout()[13].1) == seq![bool_text(d.enabled), dec_of(d.top_n as nat)],
{
    reveal_strlit("20");
    reveal_with_fuel(dec_digits, 3);
    assert(dec_of(20) =~= "20"@);
    assert(meta_defaults(metadata_layout()[13].1) =~= seq!["true"@, "20"@]);
}

/// The defaults that the settings screen shows for the chunking fields are
/// the values that `ChunkingConfig::default` gives.
pub proof fn lemma_chunking_meta_defaults(d: ChunkingConfig)
    requires
        is_default_chunking(d),
    ensures
        metadata_layout()[14].0 == "chunking"@,
        meta_defaults(metadata_layout()[14].1) == seq![
            bool_text(d.semantic_enabled),
            dec_of(d.target_bytes as nat),
            dec_of(d.max_bytes as nat),
            dec_of(d.overlap_sentences as nat),
            bool_text(d.preserve_code_blocks),
            bool_text(d.preserve_tables),
        ],
{
    reveal_strlit("1500");
    reveal_strlit("2500");
    reveal_strlit("2");
    reveal_with_fuel(dec_digits, 5);
    assert(dec_of(1500) =~= "1500"@);
    assert(dec_of(2500) =~= "2500"@);
    assert(dec_of(2) =~= "2"@);
    assert(meta_defaults(metadata_layout()[14].1) =~= seq!["true"@, "1500"@, "2500"@, "2"@, "true"@, "false"@]);
}

/// The defaults that the settings screen shows for the memory tier fields are
/// the values that `MemoryTierConfig::default` gives.
pub proof fn lemma_memory_tier_meta_defaults(d: MemoryTierConfig)
    requires
        is_default_memory_tier(d),
    ensures
        metadata_layout()[16].0 == "memory_tier"@,
        meta_defaults(metadata_layout()[16].1) == seq![
            dec_of(d.hot_days as nat),
            dec_of(d.warm_days as nat),
            dec_of(d.cold_days as nat),
        ],
{
    reveal_strlit("7");
    reveal_strlit("30");
    reveal_strlit("90");
    reveal_with_fuel(dec_digits, 3);
    assert(dec_of(7) =~= "7"@);
    assert(dec_of(30) =~= "30"@);
    assert(dec_of(90) =~= "90"@);
    assert(meta_defaults(metadata_layout()[16].1) =~= seq!["7"@, "30"@, "90"@]);
}

/// The default that the settings screen shows for the notification batch
/// interval is the value that `NotificationBatchConfig::default` gives.
pub proof fn lemma_notification_batch_meta_defaults(d: NotificationBatchConfig)
    requires
        is_default_notification_batch(d),
    ensures
        metadata_layout()[18].0 == "notification_batch"@,
        meta_defaults(metadata_layout()[18].1) == seq![dec_of(d.summary_interval_secs as nat)],
{
    reveal_strlit("30");
    reveal_with_fuel(dec_digits, 3);
    assert(dec_of(30) =~= "30"@);
    assert(meta_defaults(metadata_layout()[18].1) =~= seq!["30"@]);
}

pub fn config_metadata() -> (r: Vec<(&'static str, Vec<(&'static str, FieldMeta)>)>)
    ensures
        meta_layout(r@) == metadata_layout(),
{
    let mut v: Vec<(&'static str, Vec<(&'static str, FieldMeta)>)> = Vec::new();
    v.push(("compression", meta_group_0()));
    v.push(("vector_db", meta_group_1()));
    v.push(("search", meta_group_2()));
    v.push(("verification", meta_group_3()));
    v.push(("verification.thresholds", meta_group_4()));
    v.push(("models", meta_group_5()));
    v.push(("llm", meta_group_6()));
    v.push(("preprocessing", meta_group_7()));
    v.push(("sensitive", meta_group_8()));
    v.push(("logging", meta_group_9()));
    v.push(("schedule", meta_group_10()));
    v.push(("paths", meta_group_11()));
    v.push(("max_workers", meta_group_12()));
    v.push(("rerank", meta_group_13()));
    v.push(("chunking", meta_group_14()));
    v.push(("crossref", meta_group_15()));
    v.push(("memory_tier", meta_group_16()));
    v.push(("search", meta_group_17()));
    v.push(("notification_batch", meta_group_18()));
    proof {
        assert(meta_layout(v@) =~= metadata_layout());
    }
    v
}


// ---------------------------------------------------------------------------
// Defaults of the search, cross-reference and vector store sections
// ---------------------------------------------------------------------------

/// Lines shown around a match in a result snippet.
pub fn default_window_lines() -> (r: u32)
    ensures
        r == 5,
{
    5
}

/// Knowledge-graph neighbours added per match (0 turns it off).
pub fn default_expand_kg_hops() -> (r: usize)
    ensures
        r == 0,
{
    0
}

/// Results of one type above which another type is mixed in (0 turns it off).
pub fn default_diversity_threshold() -> (r: usize)
    ensures
        r == 0,
{
    0
}

/// Results below which the hypothetical-answer retry runs.
pub fn default_hyde_min_results() -> (r: usize)
    ensures
        r == 3,
{
    3
}

/// Shared keywords that make two documents related.
pub fn default_keyword_overlap() -> (r: usize)
    ensures
        r == 3,
{
    3
}

/// Candidates examined per document.
pub fn default_crossref_top_k() -> (r: usize)
    ensures
        r == 3,
{
    3
}

/// Outgoing `supersedes` relations kept per document.
pub fn default_cap_supersedes() -> (r: usize)
    ensures
        r == 2,
{
    2
}

/// Outgoing `updates` relations kept per document.
pub fn default_cap_updates() -> (r: usize)
    ensures
        r == 5,
{
    5
}

/// Outgoing `related_topic` relations kept per document.
pub fn default_cap_related() -> (r: usize)
    ensures
        r == 20,
{
    20
}

/// Outgoing `references` relations kept per document.
pub fn default_cap_references() -> (r: usize)
    ensures
        r == 10,
{
    10
}

/// Documents from which MinHash blocking turns on by itself.
pub fn default_minhash_min_docs() -> (r: usize)
    ensures
        r == 3000,
{
    3000
}

/// Idle seconds before queued cross-references are flushed.
pub fn default_flush_interval_secs() -> (r: u64)
    ensures
        r == 30,
{
    30
}

/// Dimension of the embedding vectors.
pub fn default_dim() -> (r: u64)
    ensures
        r == 1024,
{
    1024
}

/// Factor of `top_k` fetched before rank fusion.
pub fn default_rrf_multiplier() -> (r: usize)
    ensures
        r == 3,
{
    3
}

/// Results of a vector search.
pub fn default_top_k() -> (r: usize)
    ensures
        r == 5,
{
    5
}

/// Search results have PII masked on output.
pub fn default_output_pii_mask() -> (r: bool)
    ensures
        r,
{
    true
}

/// The cross-reference mode: `auto` (keywords and embeddings, no model).
pub fn default_crossref_mode() -> (r: String)
    ensures
        r@ == "auto"@,
{
    owned("auto")
}

/// The vector store backend: `sqlite`.
pub fn default_backend() -> (r: String)
    ensures
        r@ == "sqlite"@,
{
    owned("sqlite")
}

// ---------------------------------------------------------------------------
// Validation and restart
// ---------------------------------------------------------------------------

/// What the validation of a configuration reads: the compression level, the
/// vector store backend, the log level, the pipeline's steps, the embedding
/// model and its directory, and whether the model files are present there.
#[derive(Debug, Clone)]
pub struct ConfigFacts {
    pub zstd_level: i32,
    pub backend: String,
    pub log_level: String,
    /// Number of steps of the pipeline.
    pub step_count: usize,
    /// The pipeline has a model step.
    pub has_llm_step: bool,
    pub default_model: String,
    pub onnx_model_dir: Option<String>,
    /// `model.onnx` exists in `onnx_model_dir`.
    pub onnx_model_present: bool,
    /// `tokenizer.json` exists in `onnx_model_dir`.
    pub tokenizer_present: bool,
}

/// The accepted log levels.
pub open spec fn log_levels() -> Seq<Seq<char>> {
    seq!["trace"@, "debug"@, "info"@, "warn"@, "error"@]
}

/// The errors found in a configuration, in the order they are checked.
pub open spec fn config_errors(f: ConfigFacts) -> Seq<Seq<char>> {
    let e1: Seq<Seq<char>> = if f.zstd_level < 1 || f.zstd_level > 22 {
        seq!["compression.zstd_level: 1~22 범위여야 합니다"@]
    } else {
        seq![]
    };
    let e2: Seq<Seq<char>> = if f.backend@ != "sqlite"@ {
        seq!["vector_db.backend: [\"sqlite\"] 중 하나여야 합니다"@]
    } else {
        seq![]
    };
    let e3: Seq<Seq<char>> = if !log_levels().contains(f.log_level@) {
        seq!["logging.level: [\"trace\", \"debug\", \"info\", \"warn\", \"error\"] 중 하나여야 합니다"@]
    } else {
        seq![]
    };
    let e4: Seq<Seq<char>> = if !f.has_llm_step && f.step_count > 0 {
        seq!["pipelines: LLM 스텝이 최소 1개 필요합니다"@]
    } else {
        seq![]
    };
    let onnx = f.default_model@ == "onnx"@ || f.default_model@ == "bge_m3"@;
    let e5: Seq<Seq<char>> = match f.onnx_model_dir {
        Some(d) => if onnx && !f.onnx_model_present {
            seq!["embedding.onnx_model_dir: model.onnx 파일을 찾을 수 없습니다: "@ + d@ + "/model.onnx"@]
        } else {
            seq![]
        },
        None => seq![],
    };
    let e6: Seq<Seq<char>> = match f.onnx_model_dir {
        Some(d) => if onnx && !f.tokenizer_present {
            seq!["embedding.onnx_model_dir: tokenizer.json 파일을 찾을 수 없습니다: "@ + d@ + "/tokenizer.json"@]
        } else {
            seq![]
        },
        None => seq![],
    };
    e1 + e2 + e3 + e4 + e5 + e6
}

impl ConfigFacts {
    /// Checks the configuration: `Ok` when nothing is wrong, else every error
    /// found, in order.
    pub fn validate(&self) -> (r: Result<(), Vec<String>>)
        ensures
            match r {
                Ok(()) => config_errors(*self).len() == 0,
                Err(es) => config_errors(*self).len() > 0 && strs(es@) == config_errors(*self),
            },
    {
        let mut errors: Vec<String> = Vec::new();
        let ghost f = *self;
        if self.zstd_level < 1 || self.zstd_level > 22 {
            errors.push(owned("compression.zstd_level: 1~22 범위여야 합니다"));
        }
        let ghost g1 = strs(errors@);
        if !same_text(self.backend.as_str(), "sqlite") {
            errors.push(owned("vector_db.backend: [\"sqlite\"] 중 하나여야 합니다"));
        }
        let ghost g2 = strs(errors@);
        let l = self.log_level.as_str();
        let known = same_text(l, "trace") || same_text(l, "debug") || same_text(l, "info") || same_text(
            l,
            "warn",
        ) || same_text(l, "error");
        proof {
            let ls = log_levels();
            assert(ls[0] == "trace"@ && ls[1] == "debug"@ && ls[2] == "info"@ && ls[3] == "warn"@
                && ls[4] == "error"@);
            if ls.contains(l@) {
                let k = choose|k: int| 0 <= k < ls.len() && ls[k] == l@;
                assert(known);
            }
            if known {
                assert(ls.contains(l@));
            }
        }
        if !known {
            errors.push(owned("logging.level: [\"trace\", \"debug\", \"info\", \"warn\", \"error\"] 중 하나여야 합니다"));
        }
        let ghost g3 = strs(errors@);
        if !self.has_llm_step && self.step_count > 0 {
            errors.push(owned("pipelines: LLM 스텝이 최소 1개 필요합니다"));
        }
        let ghost g4 = strs(errors@);
        let onnx = same_text(self.default_model.as_str(), "onnx") || same_text(
            self.default_model.as_str(),
            "bge_m3",
        );
        if let Some(d) = &self.onnx_model_dir {
            if onnx {
                if !self.onnx_model_present {
                    let mut e = owned("embedding.onnx_model_dir: model.onnx 파일을 찾을 수 없습니다: ");
                    push_str(&mut e, d.as_str());
                    push_str(&mut e, "/model.onnx");
                    errors.push(e);
                }
                if !self.tokenizer_present {
                    let mut e = owned("embedding.onnx_model_dir: tokenizer.json 파일을 찾을 수 없습니다: ");
                    push_str(&mut e, d.as_str());
                    push_str(&mut e, "/tokenizer.json");
                    errors.push(e);
                }
            }
        }
        proof {
            assert(strs(errors@) =~= config_errors(f));
        }
        if errors.len() == 0 {
            Ok(())
        } else {
            Err(errors)
        }
    }
}

/// The settings whose change needs a restart: the vector store backend, the
/// embedding model, the Telegram and Slack settings, and the model provider.
#[derive(Debug, Clone)]
pub struct RestartKeys {
    pub backend: String,
    pub embedding_model: String,
    pub telegram: Option<TelegramConfig>,
    pub slack: Option<SlackConfig>,
    pub llm_provider: String,
}

/// The plain value of optional Telegram settings.
pub open spec fn telegram_view(t: Option<TelegramConfig>) -> Option<(Option<Seq<char>>, Option<Seq<char>>)> {
    match t {
        Some(c) => Some((opt_str(c.bot_token), opt_str(c.chat_id))),
        None => None,
    }
}

/// The plain value of optional Slack settings.
pub open spec fn slack_view(t: Option<SlackConfig>) -> Option<(Option<Seq<char>>, Option<Seq<char>>)> {
    match t {
        Some(c) => Some((opt_str(c.bot_token), opt_str(c.channel))),
        None => None,
    }
}

/// Whether two optional strings hold the same text.
fn same_opt(a: &Option<String>, b: &Option<String>) -> (r: bool)
    ensures
        r == (opt_str(*a) == opt_str(*b)),
{
    match (a, b) {
        (Some(x), Some(y)) => same_text(x.as_str(), y.as_str()),
        (None, None) => true,
        _ => false,
    }
}

impl RestartKeys {
    /// Whether moving from these settings to `other` needs a restart: any of
    /// the keyed settings differs.
    pub fn needs_restart(&self, other: &Self) -> (r: bool)
        ensures
            r == (self.backend@ != other.backend@ || self.embedding_model@ != other.embedding_model@
                || telegram_view(self.telegram) != telegram_view(other.telegram) || slack_view(
                self.slack,
            ) != slack_view(other.slack) || self.llm_provider@ != other.llm_provider@),
    {
        let tg = match (&self.telegram, &other.telegram) {
            (Some(x), Some(y)) => same_opt(&x.bot_token, &y.bot_token) && same_opt(&x.chat_id, &y.chat_id),
            (None, None) => true,
            _ => false,
        };
        let sl = match (&self.slack, &other.slack) {
            (Some(x), Some(y)) => same_opt(&x.bot_token, &y.bot_token) && same_opt(&x.channel, &y.channel),
            (None, None) => true,
            _ => false,
        };
        !same_text(self.backend.as_str(), other.backend.as_str()) || !same_text(
            self.embedding_model.as_str(),
            other.embedding_model.as_str(),
        ) || !tg || !sl || !same_text(self.llm_provider.as_str(), other.llm_provider.as_str())
    }
}


// ---------------------------------------------------------------------------
// Processing pipelines
// ---------------------------------------------------------------------------

/// One step of a processing pipeline.
#[derive(Debug, Clone)]
pub enum PipelineStep {
    /// Text extraction with the given PDF and OCR tools.
    Preprocess { pdf_tool: String, ocr_tool: String },
    /// Classification and processing by the language model (with the named
    /// credential, or the default one).
    Llm { credential: Option<String> },
    /// Verification of the processed text, when enabled; without thresholds
    /// of its own it uses those of the document types or the global ones.
    Verify { enabled: bool, credential: Option<String> },
    /// Embedding, with another model when given.
    Embedding { model: Option<String> },
    /// Storage with the given compression level.
    Storage { zstd_level: i32 },
}

/// The steps of a processing pipeline, and the credential of the post
/// processing (the default one when none).
#[derive(Debug, Clone)]
pub struct PipelineDefinition {
    pub steps: Vec<PipelineStep>,
    pub postprocess_credential: Option<String>,
}

/// The default pipeline: preprocessing without PDF or OCR tool, the
/// language model with the default credential, and verification on.
pub fn default_pipeline() -> (r: PipelineDefinition)
    ensures
        r.steps@.len() == 3,
        r.steps@[0] matches PipelineStep::Preprocess { pdf_tool, ocr_tool } && pdf_tool@ == "none"@ && ocr_tool@ == "none"@,
        r.steps@[1] matches PipelineStep::Llm { credential } && credential is None,
        r.steps@[2] matches PipelineStep::Verify { enabled, credential } && enabled && credential is None,
        r.postprocess_credential is None,
{
    let mut steps: Vec<PipelineStep> = Vec::new();
    steps.push(PipelineStep::Preprocess { pdf_tool: owned("none"), ocr_tool: owned("none") });
    steps.push(PipelineStep::Llm { credential: None });
    steps.push(PipelineStep::Verify { enabled: true, credential: None });
    PipelineDefinition { steps, postprocess_credential: None }
}

} // verus!
