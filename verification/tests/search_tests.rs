use codivex::cache::QueryCache;
use codivex::config::{LexicalSearchConfig, RetrievalDefaults, RetrievalTier, VectorSearchConfig};
use codivex::config::{find_free_port, ports_available, resolve_device, ExecutionDevice, RuntimePorts};
use codivex::fusion::rrf_fuse;
use codivex::lexical::TantivyLexicalIndex;
use codivex::pipeline::{compose_search_results, scoped_project_results, trim_snippet};
use codivex::rpc::{
    cache_key, classify_search_request, initialize_result, is_authorized, open_location_outcome,
    CodeChunk,
    OpenLocationResult, RpcErrorCode, SearchCodeResult, SearchResultItem,
};
use codivex::scanner::{is_ignored_path, is_probably_binary, scan_accepts};
use codivex::update::{IndexedChunk, IndexedProject};

#[test]
fn rrf_boosts_items_present_in_both_lists() {
    let lex = vec!["a".to_string(), "b".to_string(), "c".to_string()];
    let vecs = vec!["b".to_string(), "x".to_string(), "a".to_string()];
    let fused = rrf_fuse(&lex, &vecs, 60, 1000, 700);
    assert_eq!(fused[0], "b");
    assert_eq!(fused.len(), 4);
}

#[test]
fn rrf_on_one_list_keeps_its_order() {
    let l = vec!["a".to_string(), "b".to_string(), "c".to_string()];
    let fused = rrf_fuse(&l, &l, 60, 1000, 1000);
    assert_eq!(fused, l);
}

#[test]
fn aligns_with_idea_baseline() {
    let d = RetrievalDefaults::default();
    assert_eq!(d.lexical_top_k, 20);
    assert_eq!(d.fused_top_n, 5);
}

#[test]
fn lexical_defaults_and_vector_defaults() {
    assert_eq!(LexicalSearchConfig::default().default_top_k, 20);
    let cfg = VectorSearchConfig::default();
    assert_eq!(cfg.collection, "code_chunks");
    assert_eq!(cfg.hnsw_m, 16);
    assert_eq!(cfg.hnsw_ef_construct, 100);
}

#[test]
fn retrieval_tier_labels() {
    assert_eq!(RetrievalTier::from_label("fast"), RetrievalTier::Fast);
    assert_eq!(RetrievalTier::from_label("HYBRID_RERANK"), RetrievalTier::HybridRerank);
    assert_eq!(RetrievalTier::from_label("rerank"), RetrievalTier::HybridRerank);
    assert_eq!(RetrievalTier::from_label("anything"), RetrievalTier::Hybrid);
}

#[test]
fn device_resolution_needs_an_available_gpu() {
    assert_eq!(resolve_device(ExecutionDevice::GpuPreferred, true), ExecutionDevice::GpuPreferred);
    assert_eq!(resolve_device(ExecutionDevice::GpuPreferred, false), ExecutionDevice::Cpu);
    assert_eq!(resolve_device(ExecutionDevice::Cpu, true), ExecutionDevice::Cpu);
}

#[test]
fn free_port_selection_avoids_busy_and_reserved() {
    let reserved = vec![38080u16];
    let busy = vec![38081u16];
    assert_eq!(find_free_port(39000, 38080, 38180, &reserved, &busy), Some(39000));
    assert_eq!(find_free_port(38080, 38080, 38180, &reserved, &busy), Some(38082));
    assert_eq!(find_free_port(1, 1, 1, &vec![1u16], &Vec::new()), None);
    let ports = RuntimePorts { mcp_port: 38080, ui_port: 38181, metrics_port: Some(38281) };
    assert!(ports_available(&ports, &Vec::new()));
    assert!(!ports_available(&ports, &vec![38181u16]));
}

#[test]
fn lexical_index_searches_symbols_and_content() {
    let mut index = TantivyLexicalIndex::new_in_memory().expect("index");
    assert!(index.add_chunk(&CodeChunk {
        id: "c1".to_string(),
        fingerprint: "fp".to_string(),
        file_path: "src/date.rs".to_string(),
        language: "rust".to_string(),
        symbol: Some("iso_to_date".to_string()),
        start_line: 1,
        end_line: 3,
        start_char: 0,
        end_char: 40,
        content: "fn iso_to_date() -> String { \"x\".to_string() }".to_string(),
    }));
    assert!(index.commit());

    let ids = index.search_ids("iso_to_date", 5);
    assert_eq!(ids, vec!["c1".to_string()]);
}

#[test]
fn cache_roundtrip() {
    let mut cache = QueryCache::new(8);
    let key = cache_key("/tmp/project", "hello", 5);
    assert_eq!(key, "/tmp/project\u{241f}hello\u{241f}5");
    let payload = SearchCodeResult { items: Vec::new() };

    assert!(cache.cache_lookup(&key).is_none());
    cache.cache_store(key.clone(), payload.clone());
    assert_eq!(cache.cache_lookup(&key), Some(payload));
}

#[test]
fn classify_search_request_covers_the_front_door() {
    assert_eq!(classify_search_request("  ", true), Some(RpcErrorCode::InvalidParams));
    assert_eq!(
        classify_search_request("__index_unavailable__", true),
        Some(RpcErrorCode::IndexUnavailable)
    );
    assert_eq!(classify_search_request("__timeout__", true), Some(RpcErrorCode::Timeout));
    assert_eq!(classify_search_request("find stuff", false), Some(RpcErrorCode::InvalidParams));
    assert_eq!(classify_search_request("find stuff", true), None);
}

#[test]
fn open_location_validates_bounds() {
    let ok = open_location_outcome("/repo/file.rs".to_string(), 2, 4, 4);
    assert_eq!(
        ok,
        Ok(OpenLocationResult { path: "/repo/file.rs".to_string(), line_start: 2, line_end: 4 })
    );
    let err = open_location_outcome("/repo/file.rs".to_string(), 2, 5, 4);
    assert_eq!(err, Err(RpcErrorCode::InvalidParams));
    let zero = open_location_outcome("/repo/file.rs".to_string(), 0, 1, 4);
    assert_eq!(zero, Err(RpcErrorCode::InvalidParams));
}

#[test]
fn initialize_echoes_or_defaults_the_protocol_version() {
    let r = initialize_result(None);
    assert_eq!(r.protocol_version, "2025-06-18");
    assert_eq!(r.server_info.name, "codivex-mcp");
    assert!(!r.capabilities.tools.list_changed);
    let given = codivex::rpc::InitializeParams { protocol_version: Some("2024-01-01".to_string()) };
    assert_eq!(initialize_result(Some(given)).protocol_version, "2024-01-01");
    let blank = codivex::rpc::InitializeParams { protocol_version: Some("   ".to_string()) };
    assert_eq!(initialize_result(Some(blank)).protocol_version, "2025-06-18");
}

#[test]
fn scanner_rejects_ignored_paths_and_binaries() {
    assert!(is_ignored_path("/repo/node_modules/pkg/a.js"));
    assert!(is_ignored_path("/repo/.git/config"));
    assert!(!is_ignored_path("/repo/src/main.rs"));
    assert!(is_probably_binary(&vec![102, 0, 103]));
    assert!(!is_probably_binary(&vec![102, 103]));
    let head = "fn main() {}".as_bytes().to_vec();
    assert!(scan_accepts("/repo/src/main.rs", false, 12, 8388608, &head));
    assert!(!scan_accepts("/repo/node_modules/a.js", false, 12, 8388608, &head));
    assert!(!scan_accepts("/repo/src/main.rs", false, 12, 8388608, &vec![0u8]));
    assert!(!scan_accepts("/repo/src/main.rs", false, 9999999999, 8388608, &head));
    assert!(!scan_accepts("/repo/src/README.md", false, 12, 8388608, &head));
}

#[test]
fn snippets_are_cut_by_lines_and_characters() {
    assert_eq!(trim_snippet("fn a() {}", 120, 6000), "fn a() {}");
    assert_eq!(trim_snippet("fn a() {\n    1\n}", 120, 6000), "fn a() {\n    1\n}");
    let long = trim_snippet("abcdefgh", 120, 4);
    assert_eq!(long, "abcd\n... (truncated)");
    let many = trim_snippet("a\nb\nc", 2, 6000);
    assert_eq!(many, "a\nb\n... (truncated)");
    assert_eq!(trim_snippet("", 120, 6000), "");
}

#[test]
fn fast_tier_follows_the_lexical_order() {
    let mut project = date_snapshot();
    project.chunks.push(IndexedChunk {
        file: "src/other.rs".to_string(),
        symbol: Some("parse_date".to_string()),
        start_line: 2,
        end_line: 2,
        content: "fn parse_date() {}".to_string(),
    });
    project.chunks_extracted = 2;
    let first_id = "src/date.rs:1:1:iso_to_date".to_string();
    let second_id = "src/other.rs:2:2:parse_date".to_string();
    let lexical = vec![second_id, first_id];
    let items = scoped_project_results(
        &project,
        "date",
        5,
        RetrievalTier::Fast,
        &lexical,
        &Vec::new(),
    );
    assert_eq!(items.len(), 2);
    assert_eq!(items[0].function, "parse_date");
    assert_eq!(items[1].function, "iso_to_date");
}

fn date_snapshot() -> IndexedProject {
    IndexedProject {
        project_path: "/repo".to_string(),
        files_scanned: 1,
        chunks_extracted: 1,
        indexed_at_unix: 1,
        chunks: vec![IndexedChunk {
            file: "src/date.rs".to_string(),
            symbol: Some("iso_to_date".to_string()),
            start_line: 1,
            end_line: 1,
            content: "fn iso_to_date() {}".to_string(),
        }],
    }
}

#[test]
fn hybrid_query_hits_exact_symbol() {
    let project = date_snapshot();
    let items = scoped_project_results(
        &project,
        "iso_to_date",
        1,
        RetrievalTier::Hybrid,
        &Vec::new(),
        &Vec::new(),
    );
    assert_eq!(items.len(), 1);
    assert_eq!(items[0].file, "src/date.rs");
    assert_eq!(items[0].function, "iso_to_date");
}

#[test]
fn top_k_zero_still_serves_an_exact_hit() {
    let project = date_snapshot();
    let items = scoped_project_results(
        &project,
        "ISO_TO_DATE",
        0,
        RetrievalTier::Fast,
        &Vec::new(),
        &Vec::new(),
    );
    assert_eq!(items.len(), 1);
    let no_hit = scoped_project_results(
        &project,
        "unrelated",
        0,
        RetrievalTier::Fast,
        &Vec::new(),
        &Vec::new(),
    );
    assert!(no_hit.len() <= 1);
}

#[test]
fn repo_filter_scopes_results_to_one_project() {
    let alpha = date_snapshot();
    let mut beta = date_snapshot();
    beta.project_path = "/repo-beta".to_string();
    beta.chunks[0].symbol = Some("save_user".to_string());
    beta.chunks[0].content = "fn save_user() {}".to_string();
    let hit = scoped_project_results(&beta, "save_user", 1, RetrievalTier::Fast, &Vec::new(), &Vec::new());
    assert_eq!(hit.len(), 1);
    assert_eq!(hit[0].function, "save_user");
    let miss = scoped_project_results(&alpha, "save_user", 1, RetrievalTier::Fast, &Vec::new(), &Vec::new());
    assert!(miss.is_empty());
}

#[test]
fn compose_dedups_and_caps_results() {
    let chunk = CodeChunk {
        id: "c1".to_string(),
        fingerprint: "fp".to_string(),
        file_path: "src/a.rs".to_string(),
        language: "rust".to_string(),
        symbol: None,
        start_line: 1,
        end_line: 1,
        start_char: 0,
        end_char: 9,
        content: "fn a() {}".to_string(),
    };
    let chunks = vec![chunk];
    let ordered = vec!["c1".to_string(), "c1".to_string(), "missing".to_string()];
    let items: Vec<SearchResultItem> = compose_search_results(&chunks, &ordered, 5);
    assert_eq!(items.len(), 1);
    assert_eq!(items[0].function, "chunk");
    assert_eq!(items[0].file, "src/a.rs");
}

#[test]
fn authorization_requires_the_configured_token() {
    assert!(is_authorized(&None, &None));
    assert!(is_authorized(&None, &Some("anything".to_string())));
    assert!(is_authorized(&Some("secret".to_string()), &Some("secret".to_string())));
    assert!(!is_authorized(&Some("secret".to_string()), &Some("wrong".to_string())));
    assert!(!is_authorized(&Some("secret".to_string()), &None));
}
