use codivex::chunking::{extract_chunks_for_file, ByteEdit, ExtractError};
use codivex::hashing::fingerprint_content;
use codivex::incremental::{byte_to_point, compute_edit_span, incremental_reparse, try_incremental_parse};
use codivex::languages::{is_chunk_candidate, language_from_path, LanguageKind};

#[test]
fn extracts_function_chunks_from_rust_file() {
    let content = r#"
        /// docs
        fn iso_to_date() { println!("ok"); }
        fn parse_date() { println!("ok"); }
        "#;
    let chunks = extract_chunks_for_file("src/date.rs", content).expect("chunks");
    assert!(chunks.len() >= 2);
    assert!(
        chunks
            .iter()
            .any(|c| c.symbol.as_deref() == Some("iso_to_date"))
    );
}

#[test]
fn extracts_chunks_for_javascript() {
    let content = "function saveUser() { return true; }";
    let chunks = extract_chunks_for_file("src/app.js", content).expect("chunks");
    assert!(!chunks.is_empty());
    assert_eq!(chunks[0].language, "javascript");
}

#[test]
fn extracts_chunks_for_typescript() {
    let content = "class Repo { save(): void {} }";
    let chunks = extract_chunks_for_file("src/app.ts", content).expect("chunks");
    assert!(!chunks.is_empty());
    assert_eq!(chunks[0].language, "typescript");
}

#[test]
fn extracts_chunks_for_python() {
    let content = "def save_user():\n    return True\n";
    let chunks = extract_chunks_for_file("src/app.py", content).expect("chunks");
    assert!(!chunks.is_empty());
    assert_eq!(chunks[0].language, "python");
}

#[test]
fn extracts_chunks_for_go() {
    let content = "package main\nfunc SaveUser() bool { return true }\n";
    let chunks = extract_chunks_for_file("src/app.go", content).expect("chunks");
    assert!(!chunks.is_empty());
    assert_eq!(chunks[0].language, "go");
}

#[test]
fn extracts_chunks_for_c() {
    let content = "int save_user(int id) { return id; }\n";
    let chunks = extract_chunks_for_file("src/app.c", content).expect("chunks");
    assert!(!chunks.is_empty());
    assert_eq!(chunks[0].language, "c");
}

#[test]
fn extracts_chunks_for_java() {
    let content = "class Repo { int saveUser() { return 1; } }";
    let chunks = extract_chunks_for_file("src/Repo.java", content).expect("chunks");
    assert!(!chunks.is_empty());
    assert_eq!(chunks[0].language, "java");
}

#[test]
fn extracts_chunks_for_csharp() {
    let content = "class Repo { int SaveUser() { return 1; } }";
    let chunks = extract_chunks_for_file("src/Repo.cs", content).expect("chunks");
    assert!(!chunks.is_empty());
    assert_eq!(chunks[0].language, "csharp");
}

#[test]
fn extracts_chunks_for_kotlin() {
    let content = "class Repo { fun saveUser(): Int = 1 }";
    let chunks = extract_chunks_for_file("src/Repo.kt", content).expect("chunks");
    assert!(!chunks.is_empty());
    assert_eq!(chunks[0].language, "kotlin");
}

#[test]
fn extracts_chunks_for_haskell() {
    let content = r#"
        module Date where
        isoToDate :: String -> String
        isoToDate input = input
        "#;
    let chunks = extract_chunks_for_file("src/Date.hs", content).expect("chunks");
    assert!(!chunks.is_empty());
    assert_eq!(chunks[0].language, "haskell");
}

#[test]
fn extraction_rejects_unknown_extension() {
    let err = extract_chunks_for_file("notes.txt", "hello").unwrap_err();
    assert_eq!(err, ExtractError::UnsupportedExtension);
    assert_eq!(err.message(), "unsupported file extension");
}

#[test]
fn extracted_chunks_keep_their_source_span() {
    let content = "/// docs\nfn iso_to_date() { println!(\"ok\"); }\nfn parse_date() { println!(\"ok\"); }\n";
    let chunks = extract_chunks_for_file("src/date.rs", content).expect("chunks");
    for c in &chunks {
        assert!(c.start_line >= 1);
        assert!(c.end_line >= c.start_line);
        assert!(c.start_char <= c.end_char);
        assert!(c.end_char <= content.len());
        assert_eq!(c.content.as_bytes(), &content.as_bytes()[c.start_char..c.end_char]);
    }
    let first = chunks
        .iter()
        .find(|c| c.symbol.as_deref() == Some("iso_to_date"))
        .expect("chunk with symbol");
    assert!(first.content.starts_with("/// docs"));
    assert_eq!(first.start_line, 2);
}

#[test]
fn whole_file_chunk_when_nothing_matches() {
    let content = "let answer = 42;\n";
    let chunks = extract_chunks_for_file("src/app.js", content).expect("chunks");
    assert_eq!(chunks.len(), 1);
    assert_eq!(chunks[0].symbol, None);
    assert_eq!(chunks[0].content, content);
}

#[test]
fn fingerprint_ignores_spacing_noise() {
    let a = "fn x() {\n  1 + 1\n}\n";
    let b = "fn   x(){ 1 + 1 }";
    assert_eq!(fingerprint_content(a), fingerprint_content(b));
}

#[test]
fn fingerprint_distinguishes_content() {
    assert_ne!(fingerprint_content("fn a() {}"), fingerprint_content("fn b() {}"));
}

#[test]
fn detects_language_from_path() {
    assert_eq!(LanguageKind::from_path("src/main.rs"), Some(LanguageKind::Rust));
    assert_eq!(LanguageKind::from_path("foo.c"), Some(LanguageKind::C));
    assert_eq!(LanguageKind::from_path("foo.cpp"), Some(LanguageKind::Cpp));
    assert_eq!(LanguageKind::from_path("foo.py"), Some(LanguageKind::Python));
    assert_eq!(LanguageKind::from_path("App.hs"), Some(LanguageKind::Haskell));
    assert_eq!(LanguageKind::from_path("Foo.java"), Some(LanguageKind::Java));
    assert_eq!(LanguageKind::from_path("Foo.cs"), Some(LanguageKind::CSharp));
    assert_eq!(LanguageKind::from_path("index.php"), Some(LanguageKind::Php));
    assert_eq!(LanguageKind::from_path("app.rb"), Some(LanguageKind::Ruby));
    assert_eq!(LanguageKind::from_path("Main.kt"), Some(LanguageKind::Kotlin));
    assert_eq!(LanguageKind::from_path("AppDelegate.swift"), Some(LanguageKind::Swift));
    assert_eq!(LanguageKind::from_path("foo.unknown"), None);
}

#[test]
fn language_labels_and_tags() {
    assert_eq!(LanguageKind::Rust.label(), "rust");
    assert_eq!(LanguageKind::TypeScript.label(), "typescript");
    assert_eq!(language_from_path("src/x.tsx"), "typescript");
    assert_eq!(language_from_path("README"), "text");
    assert!(is_chunk_candidate(LanguageKind::Rust, "function_item"));
    assert!(!is_chunk_candidate(LanguageKind::Rust, "mod_item"));
}

#[test]
fn incremental_parse_returns_tree() {
    let old_source = "fn a() { 1 }\n";
    let new_source = "fn a() { 2 }\n";
    let edit = ByteEdit {
        start_byte: 9,
        old_end_byte: 10,
        new_end_byte: 10,
        start_row: 0,
        start_col: 9,
        old_end_row: 0,
        old_end_col: 10,
        new_end_row: 0,
        new_end_col: 10,
    };
    let tree = incremental_reparse("src/lib.rs", old_source, new_source, &edit).expect("tree");
    assert!(tree.root_node().has_changes() || !tree.root_node().is_error());
}

#[test]
fn compute_edit_span_detects_middle_change() {
    let span = compute_edit_span("abcde", "abXYde").expect("span");
    assert_eq!(span, (2, 3, 4));
}

#[test]
fn compute_edit_span_skips_equal_sources() {
    assert_eq!(compute_edit_span("same", "same"), None);
}

#[test]
fn byte_to_point_tracks_rows_and_columns() {
    let p = byte_to_point("a\nbc\n", 4);
    assert_eq!(p.row, 1);
    assert_eq!(p.column, 2);
}

#[test]
fn try_incremental_parse_accepts_edits() {
    assert!(try_incremental_parse("src/lib.rs", "fn a() { 1 }\n", "fn a() { 1 }\n"));
    assert!(try_incremental_parse("src/lib.rs", "fn a() { 1 }\n", "fn a() { 2 }\n"));
}

#[test]
fn extraction_ids_use_zero_based_rows() {
    let chunks = extract_chunks_for_file("src/app.js", "function saveUser() { return true; }")
        .expect("chunks");
    assert_eq!(chunks[0].id, "src/app.js:0:0");
    assert_eq!(chunks[0].start_line, 1);
    assert_eq!(chunks[0].end_line, 1);
}
