use aetherscope::title_fsm::TitleExtractorFSM;

fn run(html: &str) -> String {
    let fsm = TitleExtractorFSM::new(html.as_bytes().to_vec()).unwrap();
    fsm.perform().unwrap()
}

#[test]
fn extracts_simple_title() {
    let html = r#"<html><head><title>Hello World</title></head></html>"#;
    assert_eq!("Hello World", run(html));
}

#[test]
fn ignores_content_before_title() {
    let html = r#"
        garbage garbage
        <div>noise</div>
        <title>Actual Title</title>
    "#;
    assert_eq!("Actual Title", run(html));
}

#[test]
fn handles_empty_title() {
    let html = r#"<title></title>"#;
    assert_eq!("", run(html));
}

#[test]
fn stops_at_first_title() {
    let html = r#"
        <title>First</title>
        <title>Second</title>
    "#;
    assert_eq!("First", run(html));
}

#[test]
fn eof_without_title_returns_empty() {
    let html = r#"<html><body>No title here</body></html>"#;
    assert_eq!("", run(html));
}

#[test]
fn title_with_special_chars() {
    let html = r#"<title>Rust &amp; Tokio <Test></title>"#;
    assert_eq!("Rust &amp; Tokio ", run(html));
}

#[test]
fn whitespace_preserved_inside_title() {
    let html = r#"<title>   spaced   out   </title>"#;
    assert_eq!("   spaced   out   ", run(html));
}

#[test]
fn title_after_multiple_tags() {
    let html = r#"
        <meta name="x">
        <link rel="y">
        <title>Deep Title</title>
    "#;
    assert_eq!("Deep Title", run(html));
}
