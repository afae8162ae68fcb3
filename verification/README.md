# file_pipeline_core

The core logic of a document-processing pipeline, verified with Verus.

- `src/` — the library. Each module holds the functions of one concern
  together with the spec functions that say what they compute and the
  lemmas that relate them:
  - text and structure: `text`, `sections`, `paragraphs`, `chunking`,
    `chunking_quality`, `wikilink`, `pattern`, `paths`, `digest`, `clock`,
    `vec_file`;
  - files and state: `triage`, `work_queue`, `incremental`, `purge`,
    `error_log`, `audit`, `audit_log`;
  - documents: `classifier`, `cross_reference`, `topic_merger`,
    `wiki_export`, `lint`, `diagnostics`, `verification`, `reasoning`,
    `deduplicator`, `auto_reindexer`, `search`, `hooks`;
  - the processing of one file, step by step: `pipeline`;
  - plugins and settings: `plugin`, `plugin_registry`, `transport`, `config_models`,
    `settings_models`, `models`.

  Calls into `regex`, `sha2`, `hex`, `chrono`, `serde_json`, `similar` and a
  few std functions stand behind trusted wrappers whose doc comments say
  what their contracts assume.
- `app/` — what the library leaves out: file I/O (the JSON state files, the
  inbox scan, purging, the wiki export to disk) and the measures computed
  with floating point (similarities, ratios, thresholds, rollback and
  health checks), each built on the counts the library computes; and the
  loops that carry out the library's step decisions (`app/driver.rs`).
- `tests/` — tests of the library on concrete values.
