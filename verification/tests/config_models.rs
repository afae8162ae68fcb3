use file_pipeline_core::config_models::{
    config_metadata, credential_id_from, default_backend, default_cap_related, default_crossref_mode,
    default_dim, default_output_pii_mask, default_top_k, default_window_lines, ConfigFacts, ConfigSnapshot,
    RestartKeys, SensitiveConfig, SlackConfig, TelegramConfig, ChunkingConfig, MemoryTierConfig,
    VerificationConfig,
};

fn facts() -> ConfigFacts {
    ConfigFacts {
        zstd_level: 3,
        backend: "sqlite".to_string(),
        log_level: "info".to_string(),
        step_count: 3,
        has_llm_step: true,
        default_model: "fastembed".to_string(),
        onnx_model_dir: None,
        onnx_model_present: false,
        tokenizer_present: false,
    }
}

#[test]
fn a_sound_configuration_validates() {
    assert_eq!(facts().validate(), Ok(()));
    let mut f = facts();
    f.step_count = 0;
    f.has_llm_step = false;
    assert_eq!(f.validate(), Ok(()));
}

#[test]
fn every_error_is_reported_in_order() {
    let f = ConfigFacts {
        zstd_level: 23,
        backend: "qdrant".to_string(),
        log_level: "verbose".to_string(),
        step_count: 1,
        has_llm_step: false,
        default_model: "bge_m3".to_string(),
        onnx_model_dir: Some("/models".to_string()),
        onnx_model_present: false,
        tokenizer_present: true,
    };
    assert_eq!(
        f.validate(),
        Err(vec![
            "compression.zstd_level: 1~22 범위여야 합니다".to_string(),
            "vector_db.backend: [\"sqlite\"] 중 하나여야 합니다".to_string(),
            "logging.level: [\"trace\", \"debug\", \"info\", \"warn\", \"error\"] 중 하나여야 합니다".to_string(),
            "pipelines: LLM 스텝이 최소 1개 필요합니다".to_string(),
            "embedding.onnx_model_dir: model.onnx 파일을 찾을 수 없습니다: /models/model.onnx".to_string(),
        ])
    );
    let mut g = facts();
    g.zstd_level = 0;
    assert_eq!(g.validate().unwrap_err().len(), 1);
    let mut h = facts();
    h.default_model = "onnx".to_string();
    h.onnx_model_dir = Some("d".to_string());
    h.onnx_model_present = true;
    assert_eq!(
        h.validate(),
        Err(vec!["embedding.onnx_model_dir: tokenizer.json 파일을 찾을 수 없습니다: d/tokenizer.json".to_string()])
    );
}

fn keys() -> RestartKeys {
    RestartKeys {
        backend: "sqlite".to_string(),
        embedding_model: "fastembed".to_string(),
        telegram: Some(TelegramConfig { bot_token: Some("t".to_string()), chat_id: None }),
        slack: None,
        llm_provider: "claude_cli".to_string(),
    }
}

#[test]
fn restart_follows_the_keyed_settings() {
    assert!(!keys().needs_restart(&keys()));
    let mut k = keys();
    k.telegram = Some(TelegramConfig { bot_token: Some("t".to_string()), chat_id: Some("c".to_string()) });
    assert!(keys().needs_restart(&k));
    let mut k = keys();
    k.slack = Some(SlackConfig { bot_token: None, channel: None });
    assert!(keys().needs_restart(&k));
    let mut k = keys();
    k.llm_provider = "ollama".to_string();
    assert!(k.needs_restart(&keys()));
    let mut k = keys();
    k.embedding_model = "bge_m3".to_string();
    assert!(k.needs_restart(&keys()));
}

#[test]
fn section_defaults() {
    assert_eq!(default_window_lines(), 5);
    assert_eq!(default_cap_related(), 20);
    assert_eq!(default_dim(), 1024);
    assert_eq!(default_top_k(), 5);
    assert!(default_output_pii_mask());
    assert_eq!(default_crossref_mode(), "auto");
    assert_eq!(default_backend(), "sqlite");
}

#[test]
fn merged_keywords_are_sorted_and_distinct() {
    let c = SensitiveConfig::with_legacy(
        vec!["b".to_string(), "a".to_string()],
        vec![".env".to_string()],
        vec!["a".to_string(), "c".to_string()],
        vec!["b".to_string()],
        vec![".env".to_string(), ".pem".to_string()],
    );
    assert_eq!(c.merged_keywords(), vec!["a".to_string(), "b".to_string(), "c".to_string()]);
    assert_eq!(c.merged_extensions(), vec![".env".to_string(), ".pem".to_string()]);
}

#[test]
fn credential_ids_are_hex_of_the_clock() {
    let id = credential_id_from(0x1234);
    assert_eq!(id.len(), 16);
    assert!(id.ends_with("1234"));
    assert!(!config_metadata().is_empty());
}

#[test]
fn applied_paths_as_json() {
    let s = ConfigSnapshot {
        id: "0".repeat(16),
        created_at: String::new(),
        config_hash: String::new(),
        config_backup: String::new(),
        profile_json: None,
        applied_paths: vec!["llm.provider".to_string(), "a\"b".to_string()],
        metrics_json: None,
        rolled_back: false,
        rollback_reason: None,
    };
    assert_eq!(s.applied_paths_json(), "[\"llm.provider\",\"a\\\"b\"]");
}

#[test]
fn default_pipeline_has_three_steps() {
    let p = file_pipeline_core::config_models::default_pipeline();
    assert_eq!(p.steps.len(), 3);
    assert!(matches!(&p.steps[0], file_pipeline_core::config_models::PipelineStep::Preprocess { pdf_tool, ocr_tool } if pdf_tool == "none" && ocr_tool == "none"));
    assert!(matches!(&p.steps[1], file_pipeline_core::config_models::PipelineStep::Llm { credential: None }));
    assert!(matches!(&p.steps[2], file_pipeline_core::config_models::PipelineStep::Verify { enabled: true, credential: None }));
    assert!(p.postprocess_credential.is_none());
}

#[test]
fn metadata_keeps_descriptions_and_types() {
    let meta = file_pipeline_core::config_models::config_metadata();
    let (group, fields) = &meta[0];
    assert_eq!(*group, "compression");
    assert_eq!(fields[0].0, "zstd_level");
    assert_eq!(fields[0].1.field_type, "integer");
    assert_eq!(fields[0].1.description, "Zstandard 압축 레벨 (1=빠름, 22=최대압축)");
    assert_eq!(fields[2].1.field_type, "boolean");
}

#[test]
fn metadata_defaults_match_config_defaults() {
    let meta = config_metadata();
    let field = |name: &str, key: &str| -> String {
        let (_, fields) = meta.iter().find(|(g, _)| *g == name).unwrap();
        let (_, m) = fields.iter().find(|(k, _)| *k == key).unwrap();
        m.default_value.to_string()
    };
    let c = ChunkingConfig::default();
    assert_eq!(field("chunking", "target_bytes"), c.target_bytes.to_string());
    assert_eq!(field("chunking", "max_bytes"), c.max_bytes.to_string());
    assert_eq!(field("chunking", "overlap_sentences"), c.overlap_sentences.to_string());
    assert_eq!(field("chunking", "preserve_tables"), c.preserve_tables.to_string());
    let t = MemoryTierConfig::default();
    assert_eq!(field("memory_tier", "cold_days"), t.cold_days.to_string());
    let v = VerificationConfig::default();
    assert_eq!(field("verification", "max_retry"), v.max_retry.to_string());
    assert_ne!(field("verification", "on_fail"), v.on_fail);
}

#[test]
fn applied_paths_json_escapes_controls() {
    let s = ConfigSnapshot {
        id: "0".repeat(16),
        created_at: String::new(),
        config_hash: String::new(),
        config_backup: String::new(),
        profile_json: None,
        applied_paths: vec![
            "a\nb".to_string(),
            "\u{1}/".to_string(),
            "t\tq\\".to_string(),
            "é\u{1f}".to_string(),
        ],
        metrics_json: None,
        rolled_back: false,
        rollback_reason: None,
    };
    assert_eq!(
        s.applied_paths_json(),
        "[\"a\\nb\",\"\\u0001/\",\"t\\tq\\\\\",\"é\\u001f\"]"
    );
    let empty = ConfigSnapshot { applied_paths: vec![], ..s };
    assert_eq!(empty.applied_paths_json(), "[]");
}
