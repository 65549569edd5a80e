use aetherscope::url_fsm::extract_uris;

fn run(contents: &str, origin: &str) -> Vec<String> {
    extract_uris(contents.as_bytes().to_vec(), origin).unwrap()
}

#[test]
fn test_html_tags() {
    let expected = vec![
        "http://example.com/test",
        "http://example.com/test/testme",
        "http://testagain.com/",
    ];
    let contents = r#"
            I am an html document.
            <a href="/test">Hello world</a>
            <a href="testme">Hello world</a>
            <a tag="h1234" href="testagain.com">Hello world</a>
        "#;
    let uris = run(contents, "http://example.com/test/");
    assert_eq!(expected, uris);
}

#[test]
fn test_links() {
    let expected = vec![
        "http://example.com",
        "http://test.com/a_test?test=test#test",
        "https://testme.com/help",
    ];
    let contents = r#"
        The quick brown fox jumps over the lazy dog http://test.com/a_test?test=test#test
        This is ahttps://testme.com/help^terminateshttp://example.com
        "#;
    let uris = run(contents, "http://example.com/test");
    assert_eq!(expected, uris);
}

#[test]
fn test_tags_and_links() {
    let expected = vec![
        "http://example.com/test/endpoint",
        "https://testme.com/help",
    ];
    let contents = r#"
            This is ahttps://testme.com/help
            <a href="endpoint">Hello</a>
        "#;
    let uris = run(contents, "http://example.com/test/");
    assert_eq!(expected, uris);
}

#[test]
fn test_empty_string() {
    let uris = run("", "http://example.com");
    let expected: Vec<String> = vec![];
    assert_eq!(expected, uris);
}

#[test]
fn test_url_ends_at_file_termination() {
    let url = "http://test.com/a_test?test=test#test";
    let uris = run(url, "http://example.com");
    assert_eq!(vec![url], uris);
}

#[test]
fn duplicate_urls_are_deduplicated() {
    let contents = "http://a.com/x http://a.com/x http://a.com/x";
    let uris = run(contents, "http://example.com");
    assert_eq!(vec!["http://a.com/x"], uris);
}

#[test]
fn output_is_sorted() {
    let contents = "https://z.com/1 http://b.com/2 http://a.com/3";
    let uris = run(contents, "http://example.com");
    assert_eq!(
        vec!["http://a.com/3", "http://b.com/2", "https://z.com/1"],
        uris
    );
}

#[test]
fn invalid_origin_is_rejected() {
    let r = extract_uris(b"hello".to_vec(), "not a url");
    assert!(r.is_err());
}

#[test]
fn invalid_utf8_is_an_error() {
    // 0xC3 starts a two-byte sequence; 0x28 cannot continue it
    let r = extract_uris(vec![0xC3, 0x28], "http://example.com");
    assert!(r.is_err());
}

#[test]
fn truncated_utf8_ends_the_scan() {
    // a trailing 0xC3 is a clean end of input, not an error
    let mut bytes = b"http://a.com/x".to_vec();
    bytes.push(0xC3);
    let uris = extract_uris(bytes, "http://example.com").unwrap();
    assert_eq!(vec!["http://a.com/x"], uris);
}

#[test]
fn non_anchor_tags_are_ignored() {
    let contents = r#"<b href="/bold">x</b><i href="/italic">y</i>"#;
    let uris = run(contents, "http://example.com");
    let expected: Vec<String> = vec![];
    assert_eq!(expected, uris);
}
