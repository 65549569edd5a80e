use aetherscope::fetch::{
    decode_body, CdpRequestEvent, CdpResponseEvent, DocumentCapture, HeadlessBrowserConfig,
};
use aetherscope::record::{HttpResponse, Record, RecordMetadata};

#[test]
fn decode_plain_body() {
    let bytes = decode_body("This is a test response.", false).unwrap();
    assert_eq!(bytes, b"This is a test response.");
}

#[test]
fn decode_base64_body() {
    let bytes = decode_body("aGVsbG8=", true).unwrap();
    assert_eq!(bytes, b"hello");
    assert!(decode_body("not!!base64", true).is_err());
}

#[test]
fn capture_correlates_document_events() {
    let mut cap = DocumentCapture::new();
    // a subresource request does not pin anything
    cap.on_request_will_be_sent(CdpRequestEvent {
        request_id: "9".to_string(),
        is_document: false,
        method: "GET".to_string(),
        headers: vec![],
    });
    assert!(cap.doc_request_id.is_none());
    // the document request pins the id
    cap.on_request_will_be_sent(CdpRequestEvent {
        request_id: "1".to_string(),
        is_document: true,
        method: "GET".to_string(),
        headers: vec![("accept".to_string(), "text/html".to_string())],
    });
    assert_eq!(cap.doc_request_id.as_deref(), Some("1"));
    // a later document request does not replace the first
    cap.on_request_will_be_sent(CdpRequestEvent {
        request_id: "2".to_string(),
        is_document: true,
        method: "GET".to_string(),
        headers: vec![],
    });
    assert_eq!(cap.doc_request_id.as_deref(), Some("1"));
    // the document response pins the status
    cap.on_response_received(CdpResponseEvent {
        request_id: "1".to_string(),
        is_document: true,
        status: 200,
        headers: vec![("content-type".to_string(), "text/html".to_string())],
    });
    assert_eq!(cap.status, Some(200));
    assert!(cap.is_document_request("1"));
    assert!(!cap.is_document_request("9"));

    let resp = cap.into_response(Some("object-key".to_string()));
    assert_eq!(resp.status, Some(200));
    assert_eq!(resp.request.method, "GET");
    assert_eq!(resp.key.as_deref(), Some("object-key"));
    assert!(resp.error.is_none());
}

#[test]
fn record_gains_exactly_one_response() {
    let record = Record {
        uri: "http://example.com/".to_string(),
        task_id: "task-1".to_string(),
        metadata: vec![RecordMetadata::Title("old".to_string())],
    };
    let resp = HttpResponse::from_error("GET".to_string(), "error sending request".to_string());
    let out = record.with_http_response(resp);
    assert_eq!(out.uri, "http://example.com/");
    assert_eq!(out.task_id, "task-1");
    assert_eq!(out.metadata.len(), 2);
    match &out.metadata[0] {
        RecordMetadata::Title(t) => assert_eq!(t, "old"),
        _ => panic!("prior metadata must stay first"),
    }
    match &out.metadata[1] {
        RecordMetadata::HttpResponse(h) => {
            assert_eq!(h.status, None);
            assert!(h.key.is_none());
            assert_eq!(h.error.as_deref(), Some("error sending request"));
        },
        _ => panic!("the response must be appended last"),
    }
}

#[test]
fn success_response_is_terminal() {
    let resp = HttpResponse::from_success(
        "GET".to_string(),
        vec![],
        200,
        vec![("server".to_string(), "mock".to_string())],
        "key-1".to_string(),
    );
    assert_eq!(resp.status, Some(200));
    assert_eq!(resp.key.as_deref(), Some("key-1"));
    assert!(resp.error.is_none());
}

#[test]
fn headless_config_user_agent() {
    let config = HeadlessBrowserConfig {
        proxy_server: None,
        browser_path: None,
        object_store: "test-object-store".to_string(),
        timeout: 30,
        user_agent: None,
    };
    assert_eq!(config.get_user_agent(), "aetherscope - 0.1.0");
}
