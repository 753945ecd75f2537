use hardbore::entry::{make_entry, FileEntry, RawMetadata, TargetMeta};
use hardbore::indexer::{sanitize_fts_query, Indexer};

fn file_entry(dir: &str, name: &str) -> FileEntry {
    let meta = RawMetadata {
        is_symlink: false,
        len: 10,
        mode: 0o644,
        modified: 1,
        owner: 0,
        group: 0,
        target: Some(TargetMeta { is_dir: false, len: 10 }),
    };
    make_entry(name.to_string(), format!("{}/{}", dir, name), meta)
}

fn ingest(ix: &mut Indexer, root: &str, entries: &Vec<FileEntry>) {
    ix.begin_ingest(root);
    assert!(ix.ingest_batch(entries, 0, entries.len()));
    assert!(ix.finish_ingest(entries.len(), 7));
}

#[test]
fn unreachable_data_dir_is_a_storage_error() {
    match Indexer::new("/nonexistent_hardbore_data_dir/sub") {
        Ok(_) => panic!("open against a missing directory should fail"),
        Err(e) => assert_eq!(e, hardbore::indexer::IndexError::Storage),
    }
}

#[test]
fn fresh_index_is_empty() {
    let dir = tempfile::tempdir().unwrap();
    let ix = Indexer::new(dir.path().to_str().unwrap()).unwrap();
    assert_eq!(ix.get_indexed_count(), 0);
    let st = ix.get_status();
    assert!(!st.is_running);
    assert_eq!(st.indexed_count, 0);
    assert_eq!(st.current_path, None);
}

#[test]
fn fts_finds_ingested_names() {
    let dir = tempfile::tempdir().unwrap();
    let mut ix = Indexer::new(dir.path().to_str().unwrap()).unwrap();
    let entries = vec![
        file_entry("/tree", "readme.md"),
        file_entry("/tree", "config.toml"),
        file_entry("/tree", "main.rs"),
    ];
    ingest(&mut ix, "/tree", &entries);
    assert_eq!(ix.get_indexed_count(), 3);
    let hits = ix.search_fts("read", 10);
    assert!(hits.iter().any(|h| h.name == "readme.md"), "missing readme.md in {:?}", hits.len());
    for h in &hits {
        assert_eq!(h.score, 0);
    }
}

#[test]
fn fts_query_is_sanitized_not_rejected() {
    let dir = tempfile::tempdir().unwrap();
    let mut ix = Indexer::new(dir.path().to_str().unwrap()).unwrap();
    let entries = vec![file_entry("/tree", "notes.txt")];
    ingest(&mut ix, "/tree", &entries);
    let hits = ix.search_fts("foo*bar(x)", 10);
    assert_eq!(hits.len(), 0);
    assert_eq!(sanitize_fts_query("foo*bar(x)"), "\"foo bar x \"*");
}

#[test]
fn fuzzy_falls_back_where_fts_is_empty() {
    let dir = tempfile::tempdir().unwrap();
    let mut ix = Indexer::new(dir.path().to_str().unwrap()).unwrap();
    let entries = vec![file_entry("/tree", "my_configuration.yaml")];
    ingest(&mut ix, "/tree", &entries);
    assert_eq!(ix.search_fts("co", 10).len(), 0);
    let fuzzy = ix.search_fuzzy("co", 10);
    assert_eq!(fuzzy.len(), 1);
    assert_eq!(fuzzy[0].name, "my_configuration.yaml");
    assert!(fuzzy[0].score > 0);
}

#[test]
fn hybrid_search_prefers_full_text() {
    let dir = tempfile::tempdir().unwrap();
    let mut ix = Indexer::new(dir.path().to_str().unwrap()).unwrap();
    let entries = vec![file_entry("/tree", "readme.md"), file_entry("/tree", "main.rs")];
    ingest(&mut ix, "/tree", &entries);
    let hits = ix.search_hybrid("read", 10);
    assert!(hits.iter().any(|h| h.name == "readme.md"));
    for h in &hits {
        assert_eq!(h.score, 0);
    }
}

#[test]
fn hybrid_search_falls_back_to_fuzzy() {
    let dir = tempfile::tempdir().unwrap();
    let mut ix = Indexer::new(dir.path().to_str().unwrap()).unwrap();
    let entries = vec![file_entry("/tree", "my_configuration.yaml")];
    ingest(&mut ix, "/tree", &entries);
    let hits = ix.search_hybrid("co", 10);
    assert_eq!(hits.len(), 1);
    assert_eq!(hits[0].name, "my_configuration.yaml");
    assert!(hits[0].score > 0);
}

#[test]
fn reingest_leaves_count_unchanged() {
    let dir = tempfile::tempdir().unwrap();
    let mut ix = Indexer::new(dir.path().to_str().unwrap()).unwrap();
    let entries = vec![
        file_entry("/tree", "one.txt"),
        file_entry("/tree", "two.txt"),
        file_entry("/tree", "three.txt"),
    ];
    ingest(&mut ix, "/tree", &entries);
    let first = ix.get_indexed_count();
    ingest(&mut ix, "/tree", &entries);
    assert_eq!(ix.get_indexed_count(), first);
    assert_eq!(first, 3);
}

#[test]
fn fts_respects_the_limit_and_matches_substrings() {
    let dir = tempfile::tempdir().unwrap();
    let mut ix = Indexer::new(dir.path().to_str().unwrap()).unwrap();
    let entries = vec![
        file_entry("/tree", "config_one.txt"),
        file_entry("/tree", "config_two.txt"),
        file_entry("/tree", "config_three.txt"),
        file_entry("/tree", "other.txt"),
    ];
    ingest(&mut ix, "/tree", &entries);
    let hits = ix.search_fts("config", 2);
    assert_eq!(hits.len(), 2);
    for h in &hits {
        assert!(h.name.contains("config") || h.path.contains("config"));
    }
}

#[test]
fn fuzzy_results_descend_by_score_and_respect_limit() {
    let dir = tempfile::tempdir().unwrap();
    let mut ix = Indexer::new(dir.path().to_str().unwrap()).unwrap();
    let entries = vec![
        file_entry("/tree", "con.txt"),
        file_entry("/tree", "config.txt"),
        file_entry("/tree", "economy_console.txt"),
        file_entry("/tree", "falcon_notes.txt"),
    ];
    ingest(&mut ix, "/tree", &entries);
    let hits = ix.search_fuzzy("con", 3);
    assert!(hits.len() <= 3);
    assert!(hits.len() >= 2);
    for pair in hits.windows(2) {
        assert!(pair[0].score >= pair[1].score);
    }
}

#[test]
fn clear_empties_index_and_fts() {
    let dir = tempfile::tempdir().unwrap();
    let mut ix = Indexer::new(dir.path().to_str().unwrap()).unwrap();
    let entries = vec![file_entry("/tree", "readme.md"), file_entry("/tree", "main.rs")];
    ingest(&mut ix, "/tree", &entries);
    assert_eq!(ix.get_indexed_count(), 2);
    ix.clear_index().unwrap();
    assert_eq!(ix.get_indexed_count(), 0);
    assert_eq!(ix.search_fts("read", 10).len(), 0);
}

#[test]
fn status_follows_the_ingest_protocol() {
    let dir = tempfile::tempdir().unwrap();
    let mut ix = Indexer::new(dir.path().to_str().unwrap()).unwrap();
    ix.begin_ingest("/somewhere");
    let running = ix.get_status();
    assert!(running.is_running);
    assert_eq!(running.indexed_count, 0);
    assert_eq!(running.current_path.as_deref(), Some("/somewhere"));
    let entries = vec![file_entry("/somewhere", "x.txt")];
    assert!(ix.ingest_batch(&entries, 0, 1));
    assert!(ix.note_progress(1, 12));
    let mid = ix.get_status();
    assert!(mid.is_running);
    assert_eq!(mid.indexed_count, 1);
    assert_eq!(mid.elapsed_ms, 12);
    assert!(ix.finish_ingest(1, 30));
    let done = ix.get_status();
    assert!(!done.is_running);
    assert_eq!(done.indexed_count, 1);
    assert_eq!(done.current_path, None);
    assert_eq!(done.elapsed_ms, 30);
}

#[test]
fn count_survives_reopen() {
    let dir = tempfile::tempdir().unwrap();
    let path = dir.path().to_str().unwrap().to_string();
    {
        let mut ix = Indexer::new(&path).unwrap();
        let entries = vec![file_entry("/tree", "kept.txt")];
        ingest(&mut ix, "/tree", &entries);
        assert_eq!(ix.get_indexed_count(), 1);
    }
    let reopened = Indexer::new(&path).unwrap();
    assert_eq!(reopened.get_indexed_count(), 1);
    assert_eq!(reopened.get_status().indexed_count, 1);
}

#[test]
fn upsert_refreshes_rows_by_path() {
    let dir = tempfile::tempdir().unwrap();
    let mut ix = Indexer::new(dir.path().to_str().unwrap()).unwrap();
    let old = vec![file_entry("/tree", "renamed_later.txt")];
    ingest(&mut ix, "/tree", &old);
    let mut replacement = file_entry("/tree", "renamed_later.txt");
    replacement.hidden = true;
    ingest(&mut ix, "/tree", &vec![replacement]);
    assert_eq!(ix.get_indexed_count(), 1);
    let hits = ix.search_fts("renamed", 10);
    assert_eq!(hits.len(), 1);
    assert!(hits[0].hidden);
}
