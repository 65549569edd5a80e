use aetherscope::robots::{bucket_origins, classify_against_robots};

#[test]
fn test_filter_success() {
    let user_agent = "test-user-agent";
    let robotstxt = format!(
        "User-agent: {}\nDisallow: /admin/\nDisallow: /example/",
        user_agent
    );
    let base = "http://robots.test";
    let cases = vec![
        (format!("{}/allowed", base), true),
        (format!("{}/admin/", base), false),
        (format!("{}/example/", base), false),
        (format!("{}/admin/no", base), false),
        (format!("{}/example/no", base), false),
    ];
    let uris: Vec<String> = cases.iter().map(|(u, _)| u.clone()).collect();
    let body = Some(robotstxt.into_bytes());
    let results = classify_against_robots(uris, &body, user_agent).unwrap();
    assert_eq!(results.len(), cases.len());
    for ((uri, expected), (got_uri, got)) in cases.iter().zip(results.iter()) {
        assert_eq!(uri, got_uri, "missing uri in result");
        assert_eq!(expected, got, "mismatch for uri {}", uri);
    }
}

#[test]
fn fetch_failure_is_permissive() {
    let uris = vec![
        "http://robots.test/admin/".to_string(),
        "http://robots.test/anything".to_string(),
    ];
    let results = classify_against_robots(uris, &None, "agent").unwrap();
    assert!(results.iter().all(|(_, allowed)| *allowed));
}

#[test]
fn unparseable_uri_fails_classification() {
    let uris = vec!["not a url".to_string()];
    assert!(classify_against_robots(uris, &None, "agent").is_err());
}

#[test]
fn buckets_group_by_origin() {
    let uris = vec![
        "http://a.test/1".to_string(),
        "http://b.test/1".to_string(),
        "http://a.test/2".to_string(),
        "http://a.test:8080/3".to_string(),
    ];
    let buckets = bucket_origins(&uris).unwrap();
    assert_eq!(buckets.len(), 3);
    assert_eq!(buckets[0].0, "http://a.test");
    assert_eq!(buckets[0].1, vec!["http://a.test/1", "http://a.test/2"]);
    assert_eq!(buckets[1].0, "http://b.test");
    assert_eq!(buckets[1].1, vec!["http://b.test/1"]);
    assert_eq!(buckets[2].0, "http://a.test:8080");
    assert_eq!(buckets[2].1, vec!["http://a.test:8080/3"]);
}
