use codivex::dedup::FingerprintStore;
use codivex::rpc::CodeChunk;
use codivex::symbol_map::SymbolMap;
use codivex::sync::{plan_sync_operations, SyncOperation};
use codivex::telemetry::{EmbeddingWorkerMetrics, IndexerTelemetry, IndexingRuntimeState, SearchLatencies};
use codivex::update::{
    apply_incremental_update, chunk_stable_id, normalize_path, same_file, to_code_chunk,
    IndexedChunk, IndexedProject,
};

fn chunk(id: &str, fingerprint: &str) -> CodeChunk {
    CodeChunk {
        id: id.to_string(),
        fingerprint: fingerprint.to_string(),
        file_path: "src/a.rs".to_string(),
        language: "rust".to_string(),
        symbol: None,
        start_line: 1,
        end_line: 1,
        start_char: 0,
        end_char: 10,
        content: "fn a() {}".to_string(),
    }
}

#[test]
fn builds_upsert_and_delete_plan() {
    let ops = plan_sync_operations(&vec![chunk("n1", "fp")], &vec![chunk("m1", "fp")], &vec![
        "d1".to_string(),
    ]);
    assert_eq!(
        ops,
        vec![
            SyncOperation::Upsert { chunk_id: "n1".to_string() },
            SyncOperation::Upsert { chunk_id: "m1".to_string() },
            SyncOperation::Delete { chunk_id: "d1".to_string() }
        ]
    );
}

#[test]
fn unchanged_chunks_are_skipped() {
    let mut store = FingerprintStore::default();
    assert!(store.should_index(&chunk("1", "abc")));
    assert!(!store.should_index(&chunk("1", "abc")));
    assert!(store.should_index(&chunk("1", "def")));
}

#[test]
fn exact_lookup_is_available() {
    let mut map = SymbolMap::default();
    let c = CodeChunk {
        id: "1".to_string(),
        fingerprint: "fp".to_string(),
        file_path: "src/lib.rs".to_string(),
        language: "rust".to_string(),
        symbol: Some("foo".to_string()),
        start_line: 1,
        end_line: 2,
        start_char: 0,
        end_char: 10,
        content: "fn foo() {}".to_string(),
    };
    map.insert(c);
    assert!(map.get("foo").is_some());
    assert!(map.get("bar").is_none());
}

#[test]
fn telemetry_snapshot_reflects_updates() {
    let mut telemetry = IndexerTelemetry::default();
    telemetry.set_queue_depth(9);
    telemetry.inc_chunks_indexed(3);
    telemetry.set_last_index_unix_ms(100);
    telemetry.inc_embedded_items(20);

    let s = telemetry.snapshot();
    assert_eq!(s.queue_depth, 9);
    assert_eq!(s.chunks_indexed, 3);
    assert_eq!(s.last_index_unix_ms, 100);
    assert_eq!(s.embedded_items, 20);
}

#[test]
fn worker_metrics_average_latency() {
    let mut metrics = EmbeddingWorkerMetrics::default();
    metrics.record_batch(4, 10);
    metrics.record_batch(2, 30);
    metrics.record_failure();
    let s = metrics.snapshot();
    assert_eq!(s.batches_processed, 2);
    assert_eq!(s.items_processed, 6);
    assert_eq!(s.failures, 1);
    assert_eq!(s.avg_latency_ms, 20);
}

#[test]
fn runtime_state_tracks_projects_in_order() {
    let mut state = IndexingRuntimeState::default();
    state.mark_watcher_active("/repo-b", true);
    state.mark_indexed("/repo-a", 7, 123);
    state.mark_error("/repo-b", "boom".to_string());
    let statuses = state.snapshot();
    assert_eq!(statuses.len(), 2);
    assert_eq!(statuses[0].project_path, "/repo-a");
    assert_eq!(statuses[0].chunks_indexed, 7);
    assert_eq!(statuses[0].last_indexed_unix_ms, 123);
    assert_eq!(statuses[1].project_path, "/repo-b");
    assert!(statuses[1].active_watcher);
    assert_eq!(statuses[1].last_error.as_deref(), Some("boom"));
}

#[test]
fn latency_percentiles_follow_the_nearest_rank() {
    let mut lat = SearchLatencies::default();
    for v in [5u64, 1, 3, 2, 4] {
        lat.record(v);
    }
    let (p50, p95) = lat.percentiles();
    assert_eq!(p50, 3);
    assert_eq!(p95, 5);
    let empty = SearchLatencies::default();
    assert_eq!(empty.percentiles(), (0, 0));
}

#[test]
fn normalize_path_unifies_windows_style_paths() {
    assert_eq!(normalize_path("a\\b\\c.rs"), "a/b/c.rs");
}

#[test]
fn same_file_joins_relative_chunk_paths() {
    assert!(same_file("/repo", "/repo/src/a.rs", "src/a.rs"));
    assert!(same_file("/repo", "/repo/src/a.rs", "/repo/src/a.rs"));
    assert!(!same_file("/repo", "/repo/src/a.rs", "src/b.rs"));
}

#[test]
fn stable_ids_carry_lines_and_symbol() {
    let c = IndexedChunk {
        file: "src/a.rs".to_string(),
        symbol: Some("foo".to_string()),
        start_line: 3,
        end_line: 9,
        content: "fn foo() {}".to_string(),
    };
    assert_eq!(chunk_stable_id(&c), "src/a.rs:3:9:foo");
    let full = to_code_chunk(&c);
    assert_eq!(full.id, "src/a.rs:3:9:foo");
    assert_eq!(full.language, "rust");
    assert_eq!(full.start_char, 0);
    assert_eq!(full.end_char, c.content.len());
}

fn snapshot_with(files: &[(&str, &str)]) -> IndexedProject {
    let chunks = files
        .iter()
        .map(|(file, content)| IndexedChunk {
            file: file.to_string(),
            symbol: None,
            start_line: 1,
            end_line: 1,
            content: content.to_string(),
        })
        .collect::<Vec<_>>();
    IndexedProject {
        project_path: "/repo".to_string(),
        files_scanned: files.len(),
        chunks_extracted: chunks.len(),
        indexed_at_unix: 0,
        chunks,
    }
}

#[test]
fn incremental_update_replaces_chunks_of_the_changed_file() {
    let project = snapshot_with(&[("src/a.rs", "fn a() {}"), ("src/b.rs", "fn b() {}")]);
    let fresh = vec![CodeChunk {
        id: "x".to_string(),
        fingerprint: "fp".to_string(),
        file_path: "/repo/src/a.rs".to_string(),
        language: "rust".to_string(),
        symbol: Some("a2".to_string()),
        start_line: 1,
        end_line: 1,
        start_char: 0,
        end_char: 10,
        content: "fn a2() {}".to_string(),
    }];
    let (updated, deleted) = apply_incremental_update(project, "/repo", "/repo/src/a.rs", &fresh, 42);
    assert_eq!(updated.indexed_at_unix, 42);
    assert_eq!(updated.chunks_extracted, 2);
    assert_eq!(deleted, vec!["src/a.rs:1:1:".to_string()]);
    let of_changed = updated
        .chunks
        .iter()
        .filter(|c| c.file == "/repo/src/a.rs" || c.file == "src/a.rs")
        .collect::<Vec<_>>();
    assert_eq!(of_changed.len(), 1);
    assert_eq!(of_changed[0].symbol.as_deref(), Some("a2"));
}

#[test]
fn incremental_update_is_idempotent_for_an_unchanged_file() {
    let project = snapshot_with(&[("src/a.rs", "fn a() {}"), ("src/b.rs", "fn b() {}")]);
    let fresh = vec![CodeChunk {
        id: "x".to_string(),
        fingerprint: "fp".to_string(),
        file_path: "/repo/src/a.rs".to_string(),
        language: "rust".to_string(),
        symbol: None,
        start_line: 1,
        end_line: 1,
        start_char: 0,
        end_char: 10,
        content: "fn a() {}".to_string(),
    }];
    let (first, _) = apply_incremental_update(project, "/repo", "/repo/src/a.rs", &fresh, 42);
    let (second, _) = apply_incremental_update(first.clone(), "/repo", "/repo/src/a.rs", &fresh, 42);
    assert_eq!(first, second);
}

#[test]
fn deletion_drops_every_chunk_of_the_file() {
    let project = snapshot_with(&[("src/a.rs", "fn a() {}"), ("src/b.rs", "fn b() {}")]);
    let (updated, deleted) = apply_incremental_update(project, "/repo", "/repo/src/b.rs", &Vec::new(), 7);
    assert_eq!(updated.chunks.len(), 1);
    assert_eq!(updated.chunks[0].file, "src/a.rs");
    assert_eq!(deleted, vec!["src/b.rs:1:1:".to_string()]);
}
