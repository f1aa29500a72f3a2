use opencontext_core::config::{EmbeddingConfig, SearchSurroundings};
use opencontext_core::embedding::{
    api_error, authorization, batch_ranges, check_count, embeddings_url, order_by_index,
    prepare_batch, request_dimensions, truncate_text, EmbeddingAnswer, EmbeddingClient,
    MAX_EMBED_CHARS,
};
use opencontext_core::search_error::SearchError;
use opencontext_core::types::{Chunk, MatchType};
use opencontext_core::vector_store::{
    chunk_columns, delete_predicate, display_name, hit_from_row, table_name, StoredRow,
    UpsertPlan, VectorStore,
};

fn with_key() -> SearchSurroundings {
    SearchSurroundings { openai_api_key: Some("k".into()), ..SearchSurroundings::default() }
}

#[test]
fn long_texts_are_cut_by_characters() {
    assert_eq!(MAX_EMBED_CHARS, 8000);
    let short = "短".repeat(8000);
    assert_eq!(truncate_text(&short), short);
    let long = format!("{short}尾巴");
    assert_eq!(truncate_text(&long), short);
    assert_eq!(truncate_text(""), "");
    let batch = prepare_batch(&vec!["a".to_string(), "b".repeat(8001), String::new()]);
    assert_eq!(batch.len(), 3);
    assert_eq!(batch[0], "a");
    assert_eq!(batch[1].len(), 8000);
    assert_eq!(batch[2], "");
}

#[test]
fn texts_are_batched() {
    assert_eq!(batch_ranges(0, 10), vec![]);
    assert_eq!(batch_ranges(1, 10), vec![(0, 1)]);
    assert_eq!(batch_ranges(10, 10), vec![(0, 10)]);
    assert_eq!(batch_ranges(11, 10), vec![(0, 10), (10, 11)]);
    assert_eq!(batch_ranges(25, 10), vec![(0, 10), (10, 20), (20, 25)]);
    assert_eq!(batch_ranges(3, 1), vec![(0, 1), (1, 2), (2, 3)]);
}

#[test]
fn dimensions_are_named_for_some_models_only() {
    let mut config = EmbeddingConfig::default();
    assert_eq!(request_dimensions(&config), Some(1536));
    config.model = "text-embedding-3-large".into();
    config.dimensions = 3072;
    assert_eq!(request_dimensions(&config), Some(3072));
    config.model = "text-embedding-v4".into();
    assert_eq!(request_dimensions(&config), None);
    config.model = "text-embedding-ada-002".into();
    assert_eq!(request_dimensions(&config), None);
    config.model = String::new();
    assert_eq!(request_dimensions(&config), None);
}

#[test]
fn request_parts() {
    let config = EmbeddingConfig::default();
    assert_eq!(embeddings_url(&config), "https://api.openai.com/v1/embeddings");
    assert_eq!(authorization("secret"), "Bearer secret");
}

#[test]
fn answers_are_checked() {
    assert!(check_count(3, 3).is_ok());
    assert!(check_count(0, 0).is_ok());
    match check_count(12, 9) {
        Err(SearchError::Embedding(m)) => {
            assert_eq!(m, "Embedding count mismatch: sent 12 texts, got 9 embeddings")
        }
        other => panic!("unexpected {other:?}"),
    }
    match check_count(0, 100) {
        Err(SearchError::Embedding(m)) => {
            assert_eq!(m, "Embedding count mismatch: sent 0 texts, got 100 embeddings")
        }
        other => panic!("unexpected {other:?}"),
    }
    match api_error("401 Unauthorized", "{...}", Some("bad key".into())) {
        SearchError::Embedding(m) => assert_eq!(m, "bad key"),
        other => panic!("unexpected {other:?}"),
    }
    match api_error("500 Internal Server Error", "oops", None) {
        SearchError::Embedding(m) => assert_eq!(m, "API error (500 Internal Server Error): oops"),
        other => panic!("unexpected {other:?}"),
    }
}

#[test]
fn vectors_are_read_in_the_order_of_their_index() {
    assert_eq!(order_by_index(&vec![2, 0, 1]), vec![1, 2, 0]);
    assert_eq!(order_by_index(&vec![0, 1, 2]), vec![0, 1, 2]);
    assert_eq!(order_by_index(&vec![1, 0, 1, 0]), vec![1, 3, 0, 2]);
    assert_eq!(order_by_index(&vec![]), Vec::<usize>::new());
}

#[test]
fn first_vector_length_is_kept() {
    assert!(matches!(
        EmbeddingClient::new(EmbeddingConfig::default(), &SearchSurroundings::default()),
        Err(SearchError::ApiKeyMissing)
    ));
    let mut client = EmbeddingClient::new(EmbeddingConfig::default(), &with_key()).unwrap();
    assert_eq!(client.dimensions(), 1536);
    assert_eq!(client.actual_dimensions(), 0);
    assert!(!client.observe(1024));
    assert_eq!(client.actual_dimensions(), 1024);
    assert_eq!(client.dimensions(), 1024);
    assert!(!client.observe(1024));
    assert!(client.observe(768));
    assert_eq!(client.actual_dimensions(), 1024);
    assert_eq!(client.config().model, "text-embedding-3-small");
}

#[test]
fn requests_and_answers() {
    let mut config = EmbeddingConfig::default();
    config.api_base = "https://svc/v1".into();
    let mut client = EmbeddingClient::new(config, &with_key()).unwrap();
    let plan = client.request(&vec!["a".to_string(), "b".repeat(9000)], "secret");
    assert_eq!(plan.url, "https://svc/v1/embeddings");
    assert_eq!(plan.authorization, "Bearer secret");
    assert_eq!(plan.model, "text-embedding-3-small");
    assert_eq!(plan.dimensions, Some(1536));
    assert_eq!(plan.input[0], "a");
    assert_eq!(plan.input[1].len(), 8000);

    let reading = client
        .read_answer(3, EmbeddingAnswer::Vectors { entries: vec![(2, 1024), (0, 1000), (1, 1024)] })
        .unwrap();
    assert_eq!(reading.order, vec![1, 2, 0]);
    assert!(!reading.warn);
    // the first vector in the order of the texts is the one with index 0
    assert_eq!(client.actual_dimensions(), 1000);
    let reading =
        client.read_answer(1, EmbeddingAnswer::Vectors { entries: vec![(0, 1024)] }).unwrap();
    assert!(reading.warn);
    assert_eq!(client.actual_dimensions(), 1000);
    match client.read_answer(2, EmbeddingAnswer::Vectors { entries: vec![(0, 8)] }) {
        Err(SearchError::Embedding(m)) => {
            assert_eq!(m, "Embedding count mismatch: sent 2 texts, got 1 embeddings")
        }
        other => panic!("unexpected {other:?}"),
    }
    match client.read_answer(1, EmbeddingAnswer::Unreadable { reason: "eof".into() }) {
        Err(SearchError::Json(m)) => assert_eq!(m, "eof"),
        other => panic!("unexpected {other:?}"),
    }
    let failed = EmbeddingAnswer::Failed {
        status: "429 Too Many Requests".into(),
        body: "slow down".into(),
        message: None,
    };
    match client.read_answer(1, failed) {
        Err(SearchError::Embedding(m)) => {
            assert_eq!(m, "API error (429 Too Many Requests): slow down")
        }
        other => panic!("unexpected {other:?}"),
    }
    assert_eq!(client.actual_dimensions(), 1000);
}

#[test]
fn predicate_escapes_quotes() {
    assert_eq!(delete_predicate("notes/a.md"), "file_path = 'notes/a.md'");
    assert_eq!(delete_predicate("it's"), "file_path = 'it''s'");
    assert_eq!(delete_predicate("''"), "file_path = ''''''");
    assert_eq!(delete_predicate(""), "file_path = ''");
    assert_eq!(table_name(), "chunks");
}

#[test]
fn names_for_display() {
    let none: Option<String> = None;
    let idea = Some("idea".to_string());
    let doc = Some("doc".to_string());
    assert_eq!(display_name("a/b/note.md", &doc, &Some("T".into()), &Some("H".into())), "note");
    assert_eq!(display_name("note.md.md", &none, &none, &none), "note");
    assert_eq!(display_name("plain", &none, &none, &none), "plain");
    assert_eq!(display_name("dir/", &none, &none, &none), "");
    assert_eq!(display_name(".md", &none, &none, &none), "");
    assert_eq!(display_name("x.MD", &none, &none, &none), "x.MD");
    assert_eq!(display_name(".ideas/box.md", &idea, &Some("T".into()), &Some("H".into())), "T");
    assert_eq!(display_name(".ideas/box.md", &idea, &none, &Some("H".into())), "H");
    assert_eq!(display_name(".ideas/box.md", &idea, &none, &none), "box");
}

fn row() -> StoredRow {
    StoredRow {
        file_path: ".ideas/box.md".into(),
        content: "c".into(),
        heading_path: Some(String::new()),
        section_title: Some("Title".into()),
        doc_type: Some("idea".into()),
        entry_id: Some("e".into()),
        entry_date: Some(String::new()),
        entry_created_at: None,
        line_start: Some(3),
        line_end: Some(-1),
    }
}

#[test]
fn rows_become_hits() {
    let hit = hit_from_row(&row(), MatchType::Vector);
    assert_eq!(hit.file_path, ".ideas/box.md");
    assert_eq!(hit.display_name, "Title");
    assert_eq!(hit.content, "c");
    assert_eq!(hit.heading_path, None);
    assert_eq!(hit.section_title.as_deref(), Some("Title"));
    assert_eq!(hit.doc_type.as_deref(), Some("idea"));
    assert_eq!(hit.entry_id.as_deref(), Some("e"));
    assert_eq!(hit.entry_date, None);
    assert_eq!(hit.entry_created_at, None);
    assert_eq!(hit.line_start, Some(3));
    assert_eq!(hit.line_end, None);
    assert_eq!(hit.matched_by, MatchType::Vector);
    assert!(hit.hit_count.is_none() && hit.doc_count.is_none());
    assert!(hit.folder_path.is_none() && hit.aggregate_type.is_none());
    let mut other = row();
    other.doc_type = Some(String::new());
    assert_eq!(hit_from_row(&other, MatchType::Keyword).display_name, "box");
}

fn plain_row(file_path: &str) -> StoredRow {
    StoredRow {
        file_path: file_path.into(),
        content: "c".into(),
        heading_path: Some(String::new()),
        section_title: Some(String::new()),
        doc_type: Some("doc".into()),
        entry_id: None,
        entry_date: None,
        entry_created_at: None,
        line_start: None,
        line_end: None,
    }
}

#[test]
fn a_search_hands_out_one_hit_for_each_row() {
    let mut store = VectorStore::new("/data/lancedb".into(), 4);
    store.initialize(true);
    let hits = store.search(&vec![plain_row("f/a.md")]).unwrap();
    assert_eq!(hits.len(), 1);
    assert_eq!(hits[0].file_path, "f/a.md");
    assert_eq!(hits[0].display_name, "a");
    assert_eq!(hits[0].content, "c");
    assert_eq!(hits[0].heading_path, None);
    assert_eq!(hits[0].section_title, None);
    assert_eq!(hits[0].doc_type.as_deref(), Some("doc"));
    assert_eq!(hits[0].matched_by, MatchType::Vector);
    let hits = store.search(&vec![plain_row("notes/plan.md"), row(), plain_row("z.md")]).unwrap();
    let names: Vec<&str> = hits.iter().map(|h| h.display_name.as_str()).collect();
    assert_eq!(names, vec!["plan", "Title", "z"]);
    let paths: Vec<&str> = hits.iter().map(|h| h.file_path.as_str()).collect();
    assert_eq!(paths, vec!["notes/plan.md", ".ideas/box.md", "z.md"]);
    assert!(hits.iter().all(|h| h.matched_by == MatchType::Vector));
    assert!(hits.iter().all(|h| h.heading_path.is_none()));
    assert_eq!(hits[1].section_title.as_deref(), Some("Title"));
}

#[test]
fn chunks_become_columns() {
    let chunk = Chunk {
        id: "a.md#1".into(),
        file_path: "a.md".into(),
        content: "c".into(),
        heading_path: "h".into(),
        section_title: None,
        doc_type: Some("doc".into()),
        entry_id: None,
        entry_date: None,
        entry_created_at: None,
        chunk_index: 1,
    };
    let columns = chunk_columns(&chunk);
    assert_eq!(columns.id, "a.md#1");
    assert_eq!(columns.file_path, "a.md");
    assert_eq!(columns.content, "c");
    assert_eq!(columns.heading_path, "h");
    assert_eq!(columns.section_title, "");
    assert_eq!(columns.doc_type, "doc");
    assert_eq!(columns.entry_id, "");
    assert_eq!(columns.chunk_index, 1);
}

#[test]
fn store_plans_follow_its_state() {
    let mut store = VectorStore::new("/data/lancedb".into(), 1536);
    assert_eq!(store.db_path(), "/data/lancedb");
    assert_eq!(store.dimensions(), 1536);
    assert!(!store.table_exists());
    assert!(matches!(store.search(&vec![]), Err(SearchError::IndexNotBuilt)));
    assert!(matches!(store.search(&vec![row()]), Err(SearchError::IndexNotBuilt)));
    assert_eq!(store.delete_by_file("a"), None);
    assert_eq!(store.count(7), 0);
    assert!(store.get_all_chunks(&vec![row()]).is_empty());
    // nothing to store needs no connection
    assert_eq!(store.upsert(0).unwrap(), UpsertPlan::Nothing);
    match store.upsert(2) {
        Err(SearchError::VectorStore(m)) => assert_eq!(m, "Database not initialized"),
        other => panic!("unexpected {other:?}"),
    }
    assert!(matches!(store.reset(), Err(SearchError::VectorStore(_))));
    store.initialize(false);
    assert!(!store.table_exists());
    assert_eq!(store.upsert(2).unwrap(), UpsertPlan::CreateTable);
    assert!(store.table_exists());
    assert_eq!(store.upsert(2).unwrap(), UpsertPlan::Append);
    assert!(store.search(&vec![]).unwrap().is_empty());
    assert_eq!(store.delete_by_file("a'b").as_deref(), Some("file_path = 'a''b'"));
    assert_eq!(store.count(7), 7);
    let hits = store.get_all_chunks(&vec![row(), row()]);
    assert_eq!(hits.len(), 2);
    assert_eq!(hits[0].matched_by, MatchType::Keyword);
    assert_eq!(store.reset().unwrap(), true);
    assert!(!store.table_exists());
    assert_eq!(store.reset().unwrap(), false);
    let mut found = VectorStore::new("/x".into(), 8);
    found.initialize(true);
    assert!(found.table_exists());
    assert_eq!(found.upsert(1).unwrap(), UpsertPlan::Append);
}
