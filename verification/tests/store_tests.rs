use sha2::Digest;

use codivex::paths::{
    assert_state_write_target, project_index_file, project_lexical_index_dir, project_storage_dir,
    project_storage_key, project_vector_collection, StoreError,
};
use codivex::rpc::{RpcErrorCode, RpcId, RpcResponse, SearchCodeResult};
use codivex::store::ProjectStore;
use codivex::update::{IndexedChunk, IndexedProject};

fn snapshot(path: &str, files: usize, chunks: Vec<IndexedChunk>) -> IndexedProject {
    IndexedProject {
        project_path: path.to_string(),
        files_scanned: files,
        chunks_extracted: chunks.len(),
        indexed_at_unix: 1,
        chunks,
    }
}

#[test]
fn rpc_response_ok_sets_fields() {
    let response = RpcResponse::ok(RpcId::Number(1), SearchCodeResult { items: Vec::new() });
    assert_eq!(response.jsonrpc, "2.0");
    assert!(response.result.is_some());
    assert!(response.error.is_none());
}

#[test]
fn rpc_error_codes_match_the_wire_values() {
    assert_eq!(RpcErrorCode::ParseError.as_i64(), -32700);
    assert_eq!(RpcErrorCode::InvalidParams.as_i64(), -32602);
    assert_eq!(RpcErrorCode::MethodNotFound.as_i64(), -32601);
    assert_eq!(RpcErrorCode::IndexUnavailable.as_i64(), -32010);
    assert_eq!(RpcErrorCode::Timeout.as_i64(), -32011);
    assert_eq!(RpcErrorCode::Internal.as_i64(), -32603);
}

#[test]
fn state_write_target_is_rejected_inside_repo_root() {
    let cwd = "/tmp/workspace";
    let repo = "/tmp/workspace/repo-a";
    let target = "/tmp/workspace/repo-a/.codivex/state.json";
    let err = assert_state_write_target(cwd, repo, target).expect_err("must reject");
    assert!(err.message().contains("unsafe write target"));
}

#[test]
fn state_write_target_rejects_paths_outside_state_dir() {
    let err = assert_state_write_target("/tmp/workspace", "/tmp/repo-b", "/etc/passwd")
        .expect_err("must reject");
    assert!(matches!(err, StoreError::WriteOutsideStateDir { .. }));
    assert!(err.message().contains("outside state directory"));
}

#[test]
fn state_write_target_accepts_state_dir_paths() {
    assert!(
        assert_state_write_target(
            "/tmp/workspace",
            "/tmp/repo-b",
            "/tmp/workspace/.codivex/project-catalog.json"
        )
        .is_ok()
    );
}

#[test]
fn storage_dirs_live_under_codivex_state_root() {
    let cwd = "/tmp/workspace";
    let repo = "/tmp/repo-b";
    let storage = project_storage_dir(cwd, repo);
    let tantivy = project_lexical_index_dir(cwd, repo);
    assert!(storage.starts_with("/tmp/workspace/.codivex"));
    assert!(tantivy.starts_with("/tmp/workspace/.codivex"));
}

#[test]
fn project_key_is_the_digest_prefix() {
    let path = "/tmp/repo-c";
    let mut hasher = sha2::Sha256::new();
    hasher.update(path.as_bytes());
    let full = format!("{:x}", hasher.finalize());
    let key = project_storage_key(path);
    assert_eq!(key.len(), 24);
    assert_eq!(key, full[..24]);
    assert_eq!(project_vector_collection(path), format!("code_chunks_{}", &full[..24]));
    assert_eq!(
        project_index_file("/w", path),
        format!("/w/.codivex/project-indexes/{}.json", &full[..24])
    );
}

#[test]
fn save_project_index_accepts_safe_state_targets() {
    let mut store = ProjectStore::new("/tmp/workspace".to_string());
    let project = snapshot("/tmp/repo-c", 1, Vec::new());
    store.save_project_index(project).expect("save index");
}

#[test]
fn save_then_load_returns_the_snapshot() {
    let mut store = ProjectStore::new("/w".to_string());
    let chunk = IndexedChunk {
        file: "src/a.rs".to_string(),
        symbol: Some("a".to_string()),
        start_line: 1,
        end_line: 2,
        content: "fn a() {}".to_string(),
    };
    let project = snapshot("/repo-a", 3, vec![chunk]);
    store.save_project_index(project.clone()).expect("save");
    let loaded = store.load_project_index("/repo-a").expect("loaded");
    assert_eq!(*loaded, project);
    assert!(store.load_project_index("/repo-b").is_none());
}

#[test]
fn catalog_keeps_one_sorted_entry_per_project() {
    let mut store = ProjectStore::new("/w".to_string());
    store.save_project_index(snapshot("/repo-b", 2, Vec::new())).expect("save b");
    store.save_project_index(snapshot("/repo-a", 1, Vec::new())).expect("save a");
    store.save_project_index(snapshot("/repo-b", 9, Vec::new())).expect("save b again");
    let catalog = store.read_catalog();
    assert_eq!(catalog.projects.len(), 2);
    assert_eq!(catalog.projects[0].project_path, "/repo-a");
    assert_eq!(catalog.projects[1].project_path, "/repo-b");
    assert_eq!(catalog.projects[1].files_scanned, 9);
}

#[test]
fn remove_project_index_drops_snapshot_and_catalog_line() {
    let mut store = ProjectStore::new("/w".to_string());
    store.save_project_index(snapshot("/repo-a", 1, Vec::new())).expect("save a");
    store.save_project_index(snapshot("/repo-b", 2, Vec::new())).expect("save b");
    store.remove_project_index("/repo-a").expect("remove");
    assert!(store.load_project_index("/repo-a").is_none());
    assert!(store.load_project_index("/repo-b").is_some());
    let catalog = store.read_catalog();
    assert_eq!(catalog.projects.len(), 1);
    assert_eq!(catalog.projects[0].project_path, "/repo-b");
}

#[test]
fn save_rejects_a_project_that_contains_the_state_dir() {
    let mut store = ProjectStore::new("/w".to_string());
    let err = store.save_project_index(snapshot("/w/.codivex", 1, Vec::new())).unwrap_err();
    assert!(matches!(err, StoreError::WriteInsideRepository { .. }));
}

#[test]
fn selected_project_round_trip_and_discovery() {
    let mut store = ProjectStore::new("/w".to_string());
    assert!(store.read_selected_project().is_none());
    store.write_selected_project("  /repo-z  ".to_string()).expect("select");
    assert_eq!(store.read_selected_project().as_deref(), Some("/repo-z"));
    store.save_project_index(snapshot("/repo-b", 1, Vec::new())).expect("save b");
    store.save_project_index(snapshot("/repo-a", 1, Vec::new())).expect("save a");
    let discovered = store.discover_projects();
    assert_eq!(discovered, vec!["/repo-a".to_string(), "/repo-b".to_string(), "/repo-z".to_string()]);
}

#[test]
fn ensure_catalog_entry_seeds_missing_projects() {
    let mut store = ProjectStore::new("/w".to_string());
    store.ensure_catalog_entry("/repo-new", 11).expect("seed");
    let seeded = store.load_project_index("/repo-new").expect("seeded");
    assert_eq!(seeded.files_scanned, 0);
    assert_eq!(seeded.indexed_at_unix, 11);
    store.save_project_index(snapshot("/repo-new", 5, Vec::new())).expect("save");
    store.ensure_catalog_entry("/repo-new", 99).expect("noop");
    assert_eq!(store.load_project_index("/repo-new").expect("kept").files_scanned, 5);
}

#[test]
fn require_project_index_maps_the_missing_snapshot() {
    let mut store = ProjectStore::new("/w".to_string());
    let err = store.require_project_index("/repo-a").unwrap_err();
    assert!(matches!(err, StoreError::NotIndexed));
    assert_eq!(err.message(), "project not indexed yet");
    store.save_project_index(snapshot("/repo-a", 1, Vec::new())).expect("save");
    assert!(store.require_project_index("/repo-a").is_ok());
}
