use aetherscope::web::{get_user_agent, normalize_href};
use aetherscope::robots::{robots_origin, robots_url};
use aetherscope::signals::{host_string, site_string, signal_keys, parse_minhash_csv, chunk_spans};

#[test]
fn user_agent_defaults_to_package() {
    assert_eq!(get_user_agent(None), "aetherscope - 0.1.0");
    assert_eq!(
        get_user_agent(Some("custom agent".to_string())),
        "custom agent"
    );
}

#[test]
fn normalize_domain_like_href() {
    let n = normalize_href("https://example.com/a/b", "help.com").unwrap();
    assert_eq!(n, "https://help.com/");
}

#[test]
fn normalize_fragment_href() {
    let n = normalize_href("https://example.com/a/b?q=1#f", "#x").unwrap();
    assert_eq!(n, "https://example.com/a/b?q=1#x");
}

#[test]
fn normalize_relative_href() {
    let n = normalize_href("https://example.com/a/b", "./c").unwrap();
    assert_eq!(n, "https://example.com/a/c");
}

#[test]
fn normalize_absolute_href_passes_through() {
    let n = normalize_href("https://example.com/", "http://other.org/x").unwrap();
    assert_eq!(n, "http://other.org/x");
}

#[test]
fn normalize_protocol_relative_href() {
    let n = normalize_href("https://example.com/a", "//cdn.example.net/lib.js").unwrap();
    assert_eq!(n, "https://cdn.example.net/lib.js");
}

#[test]
fn normalize_empty_href_is_origin() {
    let n = normalize_href("https://example.com/a/b", "   ").unwrap();
    assert_eq!(n, "https://example.com/a/b");
}

#[test]
fn normalize_is_a_fixed_point() {
    let once = normalize_href("http://example.com/test/", "testme").unwrap();
    let twice = normalize_href("http://example.com/test/", &once).unwrap();
    assert_eq!(once, twice);
}

#[test]
fn normalize_bad_origin_fails() {
    assert!(normalize_href("not a url", "x").is_err());
}

#[test]
fn robots_origin_and_url() {
    let o = robots_origin("http://example.com:8080/deep/path?q=1").unwrap();
    assert_eq!(o, "http://example.com:8080");
    assert_eq!(robots_url(&o), "http://example.com:8080/robots.txt");

    let o2 = robots_origin("https://example.com/x").unwrap();
    assert_eq!(o2, "https://example.com");
}

#[test]
fn host_string_includes_known_default_port() {
    assert_eq!(
        host_string("https://Example.com/x").unwrap(),
        "https://example.com:443"
    );
    assert_eq!(
        host_string("http://example.com:8080/").unwrap(),
        "http://example.com:8080"
    );
}

#[test]
fn site_string_takes_last_two_labels() {
    assert_eq!(site_string("http://www.blog.example.com/x").unwrap(), "example.com");
    assert_eq!(site_string("http://example.com/").unwrap(), "example.com");
    assert_eq!(site_string("http://127.0.0.1:8080/").unwrap(), "127.0.0.1");
}

#[test]
fn signal_keys_are_sixteen_byte_digests() {
    let k = signal_keys("http://example.com/a").unwrap();
    assert_eq!(k.url_key.len(), 16);
    assert_eq!(k.host_key.len(), 16);
    assert_eq!(k.site_key.len(), 16);
    // the digest is not the input itself, and the three keys differ
    assert_ne!(k.url_key, k.host_key);
    assert_ne!(k.host_key, k.site_key);
    // the same uri hashes identically
    let k2 = signal_keys("http://example.com/a").unwrap();
    assert_eq!(k.url_key, k2.url_key);
}

#[test]
fn minhash_csv_roundtrip() {
    assert_eq!(
        parse_minhash_csv("1,2,33333").unwrap(),
        vec![1u64, 2, 33333]
    );
    assert_eq!(parse_minhash_csv("").unwrap(), Vec::<u64>::new());
    assert_eq!(parse_minhash_csv(",,7,").unwrap(), vec![7u64]);
    assert!(parse_minhash_csv("12,x").is_none());
    assert!(parse_minhash_csv("99999999999999999999999").is_none());
}

#[test]
fn chunk_spans_cover_the_rows() {
    let spans = chunk_spans(10, 4);
    assert_eq!(spans, vec![(0, 4), (4, 8), (8, 10)]);
    let spans = chunk_spans(8, 4);
    assert_eq!(spans, vec![(0, 4), (4, 8)]);
    let spans = chunk_spans(0, 4);
    assert_eq!(spans, Vec::<(usize, usize)>::new());
    // a zero batch size degrades to one row per span
    let spans = chunk_spans(2, 0);
    assert_eq!(spans, vec![(0, 1), (1, 2)]);
}
