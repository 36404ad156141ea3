use semindex::config::{ConfigurationError, ConfluenceConfig, EmbeddingConfig, QdrantConfig};
use semindex::doc::ConfluenceMeta;
use semindex::docid::parse_doc_id;
use semindex::embed::{accept_embedding, prepare_embed_input, Embedding, EmbeddingError};
use semindex::extract::{ExtractPolicy, ExtractionError, PageExtractor, PageFault, RawPage};
use semindex::index::{CreateOutcome, IndexError, IndexedPoint, SearchHit, VectorIndex};
use semindex::pipeline::{IndexingFault, IndexingPipeline, RetrievalError, RetrievalPipeline};
use semindex::store::DocumentStore;
use semindex::text::{clean_text, normalize_text};

fn doc(id: &str, title: &str, body: &str) -> ConfluenceMeta {
    ConfluenceMeta {
        page_id: id.to_string(),
        page_title: title.to_string(),
        page_body: body.to_string(),
    }
}

fn point(id: u64, components: Vec<i32>, title: &str) -> IndexedPoint {
    IndexedPoint {
        id,
        vector: Embedding::new(components),
        payload_title: title.to_string(),
    }
}

fn store_of(docs: Vec<ConfluenceMeta>) -> DocumentStore {
    let mut store = DocumentStore::new();
    store.replace(docs);
    store
}

// --- text cleaning ---

#[test]
fn clean_text_strips_tags_and_normalizes() {
    assert_eq!(clean_text("<p>Hello <b>World</b></p>"), "Hello World");
}

#[test]
fn clean_text_handles_nested_and_stray_markup() {
    let cleaned = clean_text("<div><ul><li>one</li><li>two</li></ul></div> a > b \t\n <unclosed");
    for c in cleaned.chars() {
        assert!(c != '<' && c != '>');
    }
    assert_eq!(cleaned, "one two a b");
}

#[test]
fn clean_text_empty_and_whitespace_only() {
    assert_eq!(clean_text(""), "");
    assert_eq!(clean_text("   \t\r\n "), "");
    assert_eq!(clean_text("<p>   </p>"), "");
}

#[test]
fn normalize_text_collapses_and_trims() {
    assert_eq!(normalize_text("  a \t b\r\nc  "), "a b c");
    assert_eq!(normalize_text("plain"), "plain");
}

// --- document ids ---

#[test]
fn parse_doc_id_accepts_decimal_u64() {
    assert_eq!(parse_doc_id("0"), Some(0));
    assert_eq!(parse_doc_id("42"), Some(42));
    assert_eq!(parse_doc_id("18446744073709551615"), Some(u64::MAX));
}

#[test]
fn parse_doc_id_rejects_non_numeric_and_overflow() {
    assert_eq!(parse_doc_id(""), None);
    assert_eq!(parse_doc_id("12a"), None);
    assert_eq!(parse_doc_id("-3"), None);
    assert_eq!(parse_doc_id("18446744073709551616"), None);
}

// --- extraction ---

#[test]
fn extract_single_page_scenario() {
    let payload = "{\"results\":[{\"id\":\"42\",\"title\":\"Intro\",\"body\":{\"storage\":{\"value\":\"<p>Hello <b>World</b></p>\"}}}]}";
    let extractor = PageExtractor::new(ExtractPolicy::Strict);
    let docs = extractor.extract(payload).unwrap();
    assert_eq!(docs.len(), 1);
    assert_eq!(docs[0].page_id, "42");
    assert_eq!(docs[0].page_title, "Intro");
    assert_eq!(docs[0].page_body, "Hello World");
}

#[test]
fn extract_output_never_contains_markup() {
    let payload = "{\"results\":[\
        {\"id\":\"1\",\"title\":\"A\",\"body\":{\"storage\":{\"value\":\"<h1>x</h1><p>y < z</p>\"}}},\
        {\"id\":\"2\",\"title\":\"B\",\"body\":{\"storage\":{\"value\":\"plain > text <broken\"}}}]}";
    let extractor = PageExtractor::new(ExtractPolicy::Strict);
    let docs = extractor.extract(payload).unwrap();
    assert_eq!(docs.len(), 2);
    for d in &docs {
        for c in d.page_body.chars() {
            assert!(c != '<' && c != '>');
        }
    }
}

#[test]
fn extract_rejects_non_json() {
    let extractor = PageExtractor::new(ExtractPolicy::Lenient);
    assert!(matches!(
        extractor.extract("this is not json"),
        Err(ExtractionError::NotJson)
    ));
}

#[test]
fn extract_rejects_payload_without_results() {
    let extractor = PageExtractor::new(ExtractPolicy::Lenient);
    assert!(matches!(
        extractor.extract("{\"items\":[]}"),
        Err(ExtractionError::NoResults)
    ));
}

#[test]
fn extract_empty_results_gives_no_documents() {
    let extractor = PageExtractor::new(ExtractPolicy::Strict);
    let docs = extractor.extract("{\"results\":[]}").unwrap();
    assert_eq!(docs.len(), 0);
}

#[test]
fn extract_pages_strict_names_first_malformed_page() {
    let pages = vec![
        RawPage {
            id: Some("7".to_string()),
            title: Some("ok".to_string()),
            body: Some("text".to_string()),
        },
        RawPage {
            id: Some("8".to_string()),
            title: None,
            body: Some("text".to_string()),
        },
    ];
    let extractor = PageExtractor::new(ExtractPolicy::Strict);
    match extractor.extract_pages(&pages) {
        Err(ExtractionError::Page { index, fault }) => {
            assert_eq!(index, 1);
            assert!(matches!(fault, PageFault::MissingTitle));
        }
        other => panic!("expected a page error, got {:?}", other.is_ok()),
    }
}

#[test]
fn extract_pages_strict_rejects_non_numeric_id() {
    let pages = vec![RawPage {
        id: Some("abc".to_string()),
        title: Some("t".to_string()),
        body: Some("b".to_string()),
    }];
    let extractor = PageExtractor::new(ExtractPolicy::Strict);
    match extractor.extract_pages(&pages) {
        Err(ExtractionError::Page { index, fault }) => {
            assert_eq!(index, 0);
            assert!(matches!(fault, PageFault::NonNumericId));
        }
        _ => panic!("expected a page error"),
    }
}

#[test]
fn extract_pages_lenient_skips_malformed_pages() {
    let pages = vec![
        RawPage {
            id: None,
            title: Some("x".to_string()),
            body: Some("y".to_string()),
        },
        RawPage {
            id: Some("9".to_string()),
            title: Some("keep".to_string()),
            body: Some("<i>kept</i>".to_string()),
        },
    ];
    let extractor = PageExtractor::new(ExtractPolicy::Lenient);
    let docs = extractor.extract_pages(&pages).unwrap();
    assert_eq!(docs.len(), 1);
    assert_eq!(docs[0].page_id, "9");
    assert_eq!(docs[0].page_body, "kept");
}

// --- document store ---

#[test]
fn store_replace_deduplicates_first_wins() {
    let store = store_of(vec![
        doc("1", "first", "a"),
        doc("2", "second", "b"),
        doc("1", "shadowed", "c"),
    ]);
    assert_eq!(store.len(), 2);
    assert_eq!(store.get("1").unwrap().page_title, "first");
}

#[test]
fn store_get_and_get_by_num() {
    let store = store_of(vec![doc("007", "agent", "a"), doc("42", "answer", "b")]);
    assert_eq!(store.get("42").unwrap().page_title, "answer");
    assert!(store.get("99").is_none());
    assert_eq!(store.get_by_num(7).unwrap().page_title, "agent");
    assert_eq!(store.get_by_num(42).unwrap().page_title, "answer");
    assert!(store.get_by_num(99).is_none());
}

#[test]
fn store_snapshot_preserves_order() {
    let store = store_of(vec![doc("3", "c", "x"), doc("1", "a", "y"), doc("2", "b", "z")]);
    let all = store.snapshot_all();
    let ids: Vec<&str> = all.iter().map(|d| d.page_id.as_str()).collect();
    assert_eq!(ids, vec!["3", "1", "2"]);
}

// --- embedding contract ---

#[test]
fn prepare_embed_input_rejects_empty_after_normalization() {
    assert!(matches!(
        prepare_embed_input("   \t  "),
        Err(EmbeddingError::EmptyInput)
    ));
    assert_eq!(prepare_embed_input("  hello   there ").unwrap(), "hello there");
}

#[test]
fn accept_embedding_enforces_dimension() {
    let ok = accept_embedding(vec![1, 2, 3], 3).unwrap();
    assert_eq!(ok.len(), 3);
    assert!(matches!(
        accept_embedding(vec![1, 2], 3),
        Err(EmbeddingError::DimensionMismatch)
    ));
    assert!(matches!(
        accept_embedding(vec![], 1),
        Err(EmbeddingError::DimensionMismatch)
    ));
}

// --- vector index model ---

#[test]
fn create_collection_is_idempotent() {
    let mut index = VectorIndex::new();
    assert!(matches!(index.create_collection(3), CreateOutcome::Created));
    assert!(matches!(index.create_collection(3), CreateOutcome::AlreadyExists));
    assert_eq!(index.dimension(), 3);
    assert_eq!(index.point_count(), 0);
}

#[test]
fn upsert_before_create_is_invalid() {
    let mut index = VectorIndex::new();
    let batch = vec![point(1, vec![1, 0, 0], "t")];
    assert!(matches!(index.upsert_points(&batch), Err(IndexError::Invalid)));
    assert_eq!(index.point_count(), 0);
}

#[test]
fn upsert_rejects_wrong_dimension() {
    let mut index = VectorIndex::new();
    index.create_collection(3);
    let batch = vec![point(1, vec![1, 0], "t")];
    assert!(matches!(index.upsert_points(&batch), Err(IndexError::Invalid)));
    assert_eq!(index.point_count(), 0);
}

#[test]
fn upsert_twice_leaves_point_count_unchanged() {
    let mut index = VectorIndex::new();
    index.create_collection(3);
    let batch = vec![point(1, vec![1, 0, 0], "a"), point(2, vec![0, 1, 0], "b")];
    index.upsert_points(&batch).unwrap();
    assert_eq!(index.point_count(), 2);
    index.upsert_points(&batch).unwrap();
    assert_eq!(index.point_count(), 2);
}

#[test]
fn upsert_overwrites_by_id() {
    let mut index = VectorIndex::new();
    index.create_collection(2);
    index.upsert_points(&vec![point(5, vec![1, 0], "old")]).unwrap();
    index.upsert_points(&vec![point(5, vec![0, 1], "new")]).unwrap();
    assert_eq!(index.point_count(), 1);
    let query = Embedding::new(vec![0, 1]);
    let hits = index.search(&query, 1).unwrap();
    assert_eq!(hits[0].id, 5);
    assert_eq!(hits[0].score, 1);
}

#[test]
fn search_returns_at_most_stored_points() {
    let mut index = VectorIndex::new();
    index.create_collection(2);
    index
        .upsert_points(&vec![point(1, vec![1, 0], "a"), point(2, vec![0, 1], "b")])
        .unwrap();
    let query = Embedding::new(vec![1, 1]);
    let hits = index.search(&query, 10).unwrap();
    assert_eq!(hits.len(), 2);
    let none = index.search(&query, 0).unwrap();
    assert_eq!(none.len(), 0);
}

#[test]
fn search_wrong_dimension_is_invalid() {
    let mut index = VectorIndex::new();
    index.create_collection(3);
    let query = Embedding::new(vec![1, 0]);
    assert!(matches!(index.search(&query, 1), Err(IndexError::Invalid)));
}

#[test]
fn search_ranks_exact_match_first() {
    let mut index = VectorIndex::new();
    index.create_collection(3);
    index
        .upsert_points(&vec![
            point(1, vec![5, 0, 0], "x"),
            point(2, vec![0, 5, 0], "y"),
            point(3, vec![0, 0, 5], "z"),
        ])
        .unwrap();
    let query = Embedding::new(vec![0, 5, 0]);
    let hits = index.search(&query, 3).unwrap();
    assert_eq!(hits[0].id, 2);
    assert_eq!(hits[0].score, 25);
    assert!(hits[1].score <= hits[0].score);
    assert!(hits[2].score <= hits[1].score);
}

// --- indexing pipeline ---

fn ok_embed(components: Vec<i32>) -> Result<Embedding, EmbeddingError> {
    Ok(Embedding::new(components))
}

#[test]
fn indexing_run_indexes_every_document() {
    let store = store_of(vec![doc("1", "a", "x"), doc("2", "b", "y")]);
    let mut index = VectorIndex::new();
    index.create_collection(2);
    let embeds = vec![ok_embed(vec![1, 0]), ok_embed(vec![0, 1])];
    let report = IndexingPipeline::run(&store, &embeds, 2, &mut index);
    assert_eq!(report.succeeded, 2);
    assert_eq!(report.failed.len(), 0);
    assert_eq!(index.point_count(), 2);
}

#[test]
fn indexing_run_twice_does_not_duplicate() {
    let store = store_of(vec![doc("1", "a", "x"), doc("2", "b", "y")]);
    let mut index = VectorIndex::new();
    index.create_collection(2);
    let embeds = vec![ok_embed(vec![1, 0]), ok_embed(vec![0, 1])];
    IndexingPipeline::run(&store, &embeds, 2, &mut index);
    let before = index.point_count();
    IndexingPipeline::run(&store, &embeds, 2, &mut index);
    assert_eq!(index.point_count(), before);
}

#[test]
fn indexing_records_dimension_mismatch_and_skips() {
    let store = store_of(vec![doc("1", "short", "x"), doc("2", "fine", "y")]);
    let mut index = VectorIndex::new();
    index.create_collection(3);
    let embeds = vec![ok_embed(vec![1, 2]), ok_embed(vec![1, 2, 3])];
    let report = IndexingPipeline::run(&store, &embeds, 3, &mut index);
    assert_eq!(report.succeeded, 1);
    assert_eq!(report.failed.len(), 1);
    assert_eq!(report.failed[0].page_id, "1");
    assert!(matches!(
        report.failed[0].fault,
        IndexingFault::Embedding(EmbeddingError::DimensionMismatch)
    ));
    assert_eq!(index.point_count(), 1);
}

#[test]
fn indexing_records_embedding_failures_and_bad_ids() {
    let store = store_of(vec![
        doc("abc", "bad id", "x"),
        doc("2", "no embedding", "y"),
        doc("3", "good", "z"),
    ]);
    let mut index = VectorIndex::new();
    index.create_collection(1);
    let embeds = vec![
        ok_embed(vec![1]),
        Err(EmbeddingError::Transient("service closed".to_string())),
        ok_embed(vec![4]),
    ];
    let report = IndexingPipeline::run(&store, &embeds, 1, &mut index);
    assert_eq!(report.succeeded, 1);
    assert_eq!(report.failed.len(), 2);
    assert_eq!(report.failed[0].page_id, "abc");
    assert!(matches!(report.failed[0].fault, IndexingFault::NonNumericId));
    assert_eq!(report.failed[1].page_id, "2");
    assert!(matches!(
        report.failed[1].fault,
        IndexingFault::Embedding(EmbeddingError::Transient(_))
    ));
    assert_eq!(index.point_count(), 1);
}

#[test]
fn indexing_into_missing_collection_fails_whole_batch() {
    let store = store_of(vec![doc("1", "a", "x")]);
    let mut index = VectorIndex::new();
    let embeds = vec![ok_embed(vec![1])];
    let report = IndexingPipeline::run(&store, &embeds, 1, &mut index);
    assert_eq!(report.succeeded, 0);
    assert_eq!(report.failed.len(), 1);
    assert_eq!(report.failed[0].page_id, "1");
    assert!(matches!(report.failed[0].fault, IndexingFault::Upsert(IndexError::Invalid)));
    assert_eq!(index.point_count(), 0);
}

// --- retrieval pipeline ---

#[test]
fn resolve_hits_drops_unknown_ids_keeps_order() {
    let store = store_of(vec![doc("1", "one", "x"), doc("2", "two", "y"), doc("3", "three", "z")]);
    let hits = vec![
        SearchHit { id: 2, score: 30 },
        SearchHit { id: 99, score: 20 },
        SearchHit { id: 1, score: 10 },
    ];
    let docs = RetrievalPipeline::resolve_hits(&hits, &store);
    assert_eq!(docs.len(), 2);
    assert_eq!(docs[0].page_id, "2");
    assert_eq!(docs[1].page_id, "1");
}

#[test]
fn query_returns_at_most_store_size() {
    let store = store_of(vec![doc("1", "one", "x"), doc("2", "two", "y")]);
    let mut index = VectorIndex::new();
    index.create_collection(2);
    index
        .upsert_points(&vec![point(1, vec![1, 0], "one"), point(2, vec![0, 1], "two")])
        .unwrap();
    let query = Embedding::new(vec![1, 1]);
    let docs = RetrievalPipeline::query(&query, 10, &store, &index).unwrap();
    assert!(docs.len() <= 2);
    assert_eq!(docs.len(), 2);
}

#[test]
fn query_on_empty_store_returns_nothing() {
    let store = DocumentStore::new();
    let mut index = VectorIndex::new();
    index.create_collection(2);
    index.upsert_points(&vec![point(1, vec![1, 0], "one")]).unwrap();
    let query = Embedding::new(vec![1, 0]);
    let docs = RetrievalPipeline::query(&query, 5, &store, &index).unwrap();
    assert_eq!(docs.len(), 0);
}

#[test]
fn query_round_trip_finds_indexed_document_first() {
    let store = store_of(vec![doc("1", "one", "x"), doc("2", "two", "y"), doc("3", "three", "z")]);
    let mut index = VectorIndex::new();
    index.create_collection(3);
    index
        .upsert_points(&vec![
            point(1, vec![7, 0, 0], "one"),
            point(2, vec![0, 7, 0], "two"),
            point(3, vec![0, 0, 7], "three"),
        ])
        .unwrap();
    let query = Embedding::new(vec![0, 0, 7]);
    let docs = RetrievalPipeline::query(&query, 2, &store, &index).unwrap();
    assert_eq!(docs[0].page_id, "3");
}

#[test]
fn query_without_collection_is_an_index_error() {
    let store = DocumentStore::new();
    let index = VectorIndex::new();
    let query = Embedding::new(vec![1]);
    assert!(matches!(
        RetrievalPipeline::query(&query, 3, &store, &index),
        Err(RetrievalError::Index(IndexError::Invalid))
    ));
}

// --- configuration ---

#[test]
fn confluence_config_validates_each_parameter() {
    assert!(ConfluenceConfig::new(
        "http://wiki.example".to_string(),
        "user".to_string(),
        "key".to_string()
    )
    .is_ok());
    assert!(matches!(
        ConfluenceConfig::new("".to_string(), "user".to_string(), "key".to_string()),
        Err(ConfigurationError::MissingUrl)
    ));
    assert!(matches!(
        ConfluenceConfig::new("u".to_string(), "".to_string(), "key".to_string()),
        Err(ConfigurationError::MissingUsername)
    ));
    assert!(matches!(
        ConfluenceConfig::new("u".to_string(), "user".to_string(), "".to_string()),
        Err(ConfigurationError::MissingApiKey)
    ));
}

#[test]
fn embedding_config_validates_each_parameter() {
    let config = EmbeddingConfig::new("key".to_string(), "some-model".to_string(), 1536).unwrap();
    assert_eq!(config.model, "some-model");
    assert_eq!(config.dimension, 1536);
    assert!(matches!(
        EmbeddingConfig::new("".to_string(), "m".to_string(), 8),
        Err(ConfigurationError::MissingApiKey)
    ));
    assert!(matches!(
        EmbeddingConfig::new("k".to_string(), "".to_string(), 8),
        Err(ConfigurationError::MissingModel)
    ));
    assert!(matches!(
        EmbeddingConfig::new("k".to_string(), "m".to_string(), 0),
        Err(ConfigurationError::ZeroDimension)
    ));
}

#[test]
fn qdrant_config_validates_and_reports_url() {
    let config = QdrantConfig::new("http://localhost:6334".to_string(), "memory".to_string(), 1536)
        .unwrap();
    assert_eq!(config.get_url(), "http://localhost:6334");
    assert_eq!(config.collection_name, "memory");
    assert_eq!(config.dimension, 1536);
    assert!(matches!(
        QdrantConfig::new("".to_string(), "memory".to_string(), 1536),
        Err(ConfigurationError::MissingUrl)
    ));
    assert!(matches!(
        QdrantConfig::new("u".to_string(), "".to_string(), 1536),
        Err(ConfigurationError::MissingCollectionName)
    ));
    assert!(matches!(
        QdrantConfig::new("u".to_string(), "memory".to_string(), 0),
        Err(ConfigurationError::ZeroDimension)
    ));
}
