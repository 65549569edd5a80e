use aetherscope::record::{HttpRequest, HttpResponse, Record, RecordMetadata};
use aetherscope::store::MemObjectStore;
use aetherscope::url_extractor::UrlExtractor;

fn keyed_response(key: &str) -> HttpResponse {
    HttpResponse {
        status: Some(200),
        request: HttpRequest { method: "GET".to_string(), request_headers: vec![] },
        response_headers: vec![],
        key: Some(key.to_string()),
        error: None,
    }
}

#[test]
fn test_url_extraction() {
    let mut store = MemObjectStore::new();
    let contents = r#"
            I am an html document.
            <a href="/test">Hello world</a>
            <a href="testme">Hello world</a>
            <a tag="h1234" href="testagain.com">Hello world</a>
        "#;
    let key = "body-object";
    store.put(key, contents.as_bytes());

    let extractor = UrlExtractor::new(store);
    let record = Record {
        uri: "http://example.com".to_string(),
        task_id: "task-1".to_string(),
        metadata: vec![RecordMetadata::HttpResponse(keyed_response(key))],
    };

    let response = extractor.on_message(record).unwrap();
    assert_eq!(response.metadata.len(), 2);

    let mut saw_uris = false;
    for meta in response.metadata {
        if let RecordMetadata::Uris(u) = meta {
            assert_eq!(u.uris.len(), 3);
            saw_uris = true;
        }
    }
    assert!(saw_uris);
}

#[test]
fn missing_key_is_not_found() {
    let store = MemObjectStore::new();
    let extractor = UrlExtractor::new(store);
    let record = Record {
        uri: "http://example.com".to_string(),
        task_id: "task-1".to_string(),
        metadata: vec![RecordMetadata::HttpResponse(keyed_response("absent"))],
    };
    assert!(extractor.on_message(record).is_err());
}

#[test]
fn other_metadata_passes_through() {
    let store = MemObjectStore::new();
    let extractor = UrlExtractor::new(store);
    let record = Record {
        uri: "http://example.com".to_string(),
        task_id: "task-1".to_string(),
        metadata: vec![RecordMetadata::Title("a title".to_string())],
    };
    let out = extractor.on_message(record).unwrap();
    assert_eq!(out.metadata.len(), 1);
    match &out.metadata[0] {
        RecordMetadata::Title(t) => assert_eq!(t, "a title"),
        _ => panic!("metadata must pass through unchanged"),
    }
}
