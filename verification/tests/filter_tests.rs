use aetherscope::hash_set::{
    MemHashSet, values_placeholders, batch_results, classify_present, missing_entities,
};
use aetherscope::unique::{bloom_from_config, BloomFilterConfig, UniqueFilter};

fn fresh_entities(n: usize, tag: &str) -> Vec<String> {
    let mut v = Vec::new();
    let mut i = 0;
    while i < n {
        v.push(format!("http://{}-{}.example.com/", tag, i));
        i += 1;
    }
    v
}

#[test]
fn test_contains_entities() {
    let mut hash_set = MemHashSet::new();
    let entities = fresh_entities(100, "first");
    let results = hash_set.contains_entities(entities.clone());
    assert!(results.iter().all(|(_, b)| !*b));

    let mut some_true = fresh_entities(50, "second");
    some_true.extend(entities);
    let results = hash_set.contains_entities(some_true);

    let trues = results.iter().filter(|(_, b)| *b).count();
    let falses = results.iter().filter(|(_, b)| !*b).count();
    assert_eq!(trues, 100);
    assert_eq!(falses, 50);
}

#[test]
fn empty_batch_returns_empty() {
    let mut hash_set = MemHashSet::new();
    let results = hash_set.contains_entities(Vec::new());
    assert!(results.is_empty());
}

#[test]
fn bloom_only_repeat_in_one_batch_is_seen() {
    let config = BloomFilterConfig { enable: true, num_bits: 4096, expected_items: 100 };
    let mut bloom = bloom_from_config(&config).unwrap();
    let u = "http://example.com/page".to_string();
    let results = UniqueFilter::check_bloom(&mut bloom, vec![u.clone(), u.clone()]);
    assert_eq!(results.len(), 2);
    assert_eq!(results[0], (u.clone(), false));
    assert_eq!(results[1], (u, true));
}

#[test]
fn disabled_bloom_config_yields_none() {
    let config = BloomFilterConfig { enable: false, num_bits: 4096, expected_items: 100 };
    assert!(bloom_from_config(&config).is_none());
}

#[test]
fn both_tiers_off_permit_nothing() {
    let mut filter = UniqueFilter::from_parts(None, None);
    let uris = fresh_entities(5, "off");
    let results = filter.perform(uris.clone());
    assert_eq!(results.len(), 5);
    for (i, (u, seen)) in results.iter().enumerate() {
        assert_eq!(u, &uris[i]);
        assert!(*seen);
    }
}

#[test]
fn exact_tier_alone_reports_presence() {
    let mut filter = UniqueFilter::from_parts(None, Some(MemHashSet::new()));
    let uris = fresh_entities(3, "exact");
    let first = filter.perform(uris.clone());
    assert!(first.iter().all(|(_, seen)| !*seen));
    let second = filter.perform(uris);
    assert!(second.iter().all(|(_, seen)| *seen));
}

#[test]
fn two_tier_filter_is_idempotent() {
    let config = BloomFilterConfig { enable: true, num_bits: 4096, expected_items: 100 };
    let bloom = bloom_from_config(&config);
    let mut filter = UniqueFilter::from_parts(bloom, Some(MemHashSet::new()));
    let uris = fresh_entities(10, "two-tier");
    let first = filter.perform(uris);
    let again: Vec<String> = first.iter().map(|(u, _)| u.clone()).collect();
    let second = filter.perform(again);
    assert_eq!(second.len(), 10);
    assert!(second.iter().all(|(_, seen)| *seen));
}

#[test]
fn bloom_only_filter_is_idempotent() {
    let config = BloomFilterConfig { enable: true, num_bits: 4096, expected_items: 100 };
    let bloom = bloom_from_config(&config);
    let mut filter = UniqueFilter::from_parts(bloom, None);
    let uris = fresh_entities(10, "bloom-only");
    let first = filter.perform(uris);
    let again: Vec<String> = first.iter().map(|(u, _)| u.clone()).collect();
    let second = filter.perform(again);
    assert!(second.iter().all(|(_, seen)| *seen));
}

#[test]
fn placeholders_are_comma_joined() {
    assert_eq!(values_placeholders(0), "");
    assert_eq!(values_placeholders(1), "(?)");
    assert_eq!(values_placeholders(3), "(?),(?),(?)");
}

#[test]
fn batch_results_report_the_preexisting() {
    let entities = vec!["a".to_string(), "b".to_string(), "c".to_string()];
    let existing = vec!["b".to_string()];
    let r = batch_results(entities, &existing);
    assert_eq!(
        r,
        vec![
            ("a".to_string(), false),
            ("b".to_string(), true),
            ("c".to_string(), false)
        ]
    );
}

#[test]
fn classify_and_missing() {
    let entities = vec!["a".to_string(), "b".to_string(), "c".to_string()];
    let present = vec![true, false, true];
    let r = classify_present(entities, present);
    assert_eq!(r[0], ("a".to_string(), true));
    assert_eq!(r[1], ("b".to_string(), false));
    let miss = missing_entities(&r);
    assert_eq!(miss, vec!["b".to_string()]);
}
