//! The cache's public operations, driven end to end.
use paper_cache::cache::PaperCache;
use paper_cache::error::CacheError;
use paper_cache::policy::PaperPolicy;

const TEST_CACHE_MAX_SIZE: u64 = 1000;

/// The payload bytes of one stored object: key, value and expiry slot.
const PAYLOAD: u32 = 8 + 8 + 16;

fn init_test_cache() -> PaperCache {
    PaperCache::new(TEST_CACHE_MAX_SIZE, &[PaperPolicy::Lfu], PaperPolicy::Lfu)
        .expect("Could not initialize test cache.")
}

fn wait_millis(ms: u64) {
    let start = std::time::Instant::now();
    while (start.elapsed().as_millis() as u64) < ms {
        std::hint::spin_loop();
    }
}

#[test]
fn it_returns_correct_version() {
    let cache = init_test_cache();
    assert_eq!(cache.version(), "1.0.0");
}

#[test]
fn it_returns_status() {
    let cache = init_test_cache();
    let status = cache.status().unwrap();
    assert_eq!(status.max_size(), TEST_CACHE_MAX_SIZE);
}

#[test]
fn it_gets_an_existing_object() {
    let mut cache = init_test_cache();
    assert!(cache.set(0, 1, None).is_ok());
    assert_eq!(cache.get(&0).as_deref(), Ok(&1));
}

#[test]
fn it_does_not_get_a_non_existing_object() {
    let mut cache = init_test_cache();
    assert!(cache.set(0, 1, None).is_ok());
    assert_eq!(cache.get(&1), Err(CacheError::KeyNotFound));
}

#[test]
fn it_calculates_miss_ratio_correctly() {
    let mut cache = init_test_cache();
    assert!(cache.set(0, 1, None).is_ok());
    assert!(cache.get(&0).is_ok());
    assert!(cache.get(&0).is_ok());
    assert!(cache.get(&0).is_ok());
    assert!(cache.get(&1).is_err());
    let status = cache.status().unwrap();
    let miss_ratio = 1.0 - status.total_hits() as f64 / status.total_gets() as f64;
    assert_eq!(miss_ratio, 0.25);
}

#[test]
fn it_sets_with_no_ttl() {
    let mut cache = init_test_cache();
    assert!(cache.set(0, 1, None).is_ok());
    assert!(cache.get(&0).is_ok());
}

#[test]
fn it_sets_with_ttl() {
    let mut cache = init_test_cache();
    assert!(cache.set(0, 1, Some(1)).is_ok());
    assert!(cache.get(&0).is_ok());
    wait_millis(2000);
    assert!(cache.get(&0).is_err());
}

#[test]
fn it_dels_an_existing_object() {
    let mut cache = init_test_cache();
    assert!(cache.set(0, 1, Some(1)).is_ok());
    assert!(cache.get(&0).is_ok());
    assert!(cache.del(&0).is_ok());
    assert!(cache.get(&0).is_err());
}

#[test]
fn it_does_not_del_a_non_existing_object() {
    let mut cache = init_test_cache();
    assert_eq!(cache.del(&0), Err(CacheError::KeyNotFound));
}

#[test]
fn second_del_finds_nothing() {
    let mut cache = init_test_cache();
    assert!(cache.set(7, 7, None).is_ok());
    assert!(cache.del(&7).is_ok());
    assert_eq!(cache.del(&7), Err(CacheError::KeyNotFound));
}

#[test]
fn it_does_not_allow_empty_policies() {
    let try_cache = PaperCache::new(TEST_CACHE_MAX_SIZE, &[], PaperPolicy::Lfu);
    assert!(try_cache.is_err_and(|err| err == CacheError::EmptyPolicies));
    let try_cache = PaperCache::new(TEST_CACHE_MAX_SIZE, &[], PaperPolicy::Auto);
    assert!(try_cache.is_err_and(|err| err == CacheError::EmptyPolicies));
}

#[test]
fn it_does_not_allow_auto_policy_in_configured_policies() {
    let try_cache = PaperCache::new(TEST_CACHE_MAX_SIZE, &[PaperPolicy::Auto], PaperPolicy::Auto);
    assert!(try_cache.is_err_and(|err| err == CacheError::ConfiguredAutoPolicy));
    let try_cache = PaperCache::new(
        TEST_CACHE_MAX_SIZE,
        &[PaperPolicy::Auto, PaperPolicy::Lru],
        PaperPolicy::Auto,
    );
    assert!(try_cache.is_err_and(|err| err == CacheError::ConfiguredAutoPolicy));
}

#[test]
fn it_does_not_allow_duplicate_policies() {
    let try_cache = PaperCache::new(
        TEST_CACHE_MAX_SIZE,
        &[PaperPolicy::Lfu, PaperPolicy::Lru, PaperPolicy::Lfu],
        PaperPolicy::Lfu,
    );
    assert!(try_cache.is_err_and(|err| err == CacheError::DuplicatePolicies));
    let try_cache = PaperCache::new(
        TEST_CACHE_MAX_SIZE,
        &[PaperPolicy::Lfu, PaperPolicy::Lru],
        PaperPolicy::Lfu,
    );
    assert!(try_cache.is_ok());
}

#[test]
fn it_does_not_allow_unconfigured_starting_policy() {
    let try_cache = PaperCache::new(TEST_CACHE_MAX_SIZE, &[PaperPolicy::Lfu], PaperPolicy::Lru);
    assert!(try_cache.is_err_and(|err| err == CacheError::UnconfiguredPolicy));
}

#[test]
fn it_does_not_allow_zero_cache_size() {
    let try_cache = PaperCache::new(0, &[PaperPolicy::Lfu], PaperPolicy::Lfu);
    assert!(try_cache.is_err_and(|err| err == CacheError::ZeroCacheSize));
}

#[test]
fn it_has_an_existing_object() {
    let mut cache = init_test_cache();
    assert!(cache.set(0, 1, Some(1)).is_ok());
    assert!(cache.has(&0));
}

#[test]
fn it_does_not_have_a_non_existing_object() {
    let cache = init_test_cache();
    assert!(!cache.has(&1));
}

#[test]
fn it_peeks_an_existing_object() {
    let mut cache = init_test_cache();
    assert!(cache.set(0, 1, None).is_ok());
    assert_eq!(cache.peek(&0).as_deref(), Ok(&1));
}

#[test]
fn it_does_not_peek_a_non_existing_object() {
    let mut cache = init_test_cache();
    assert!(cache.set(0, 1, None).is_ok());
    assert_eq!(cache.peek(&1), Err(CacheError::KeyNotFound));
}

#[test]
fn it_sets_an_existing_objects_ttl() {
    let mut cache = init_test_cache();
    assert!(cache.set(0, 1, None).is_ok());
    assert!(cache.get(&0).is_ok());
    assert!(cache.ttl(&0, Some(1)).is_ok());
    wait_millis(2000);
    assert_eq!(cache.get(&0), Err(CacheError::KeyNotFound));
}

#[test]
fn it_does_not_set_a_non_existing_objects_ttl() {
    let mut cache = init_test_cache();
    assert_eq!(cache.ttl(&0, Some(1)), Err(CacheError::KeyNotFound));
}

#[test]
fn it_resets_an_objects_ttl() {
    let mut cache = init_test_cache();
    assert!(cache.set(0, 1, Some(1)).is_ok());
    assert!(cache.get(&0).is_ok());
    assert!(cache.ttl(&0, Some(5)).is_ok());
    wait_millis(2000);
    assert!(cache.get(&0).is_ok());
}

#[test]
fn it_gets_an_objects_size() {
    let cache_policy = PaperPolicy::Lfu;
    let mut cache = init_test_cache();
    let expected = PAYLOAD + paper_cache::overhead::get_policy_overhead(&cache_policy);
    assert!(cache.set(0, 1, None).is_ok());
    assert_eq!(cache.size(&0), Ok(expected));
}

#[test]
fn it_gets_an_expiring_objects_size() {
    let cache_policy = PaperPolicy::Lfu;
    let mut cache = init_test_cache();
    let expected = PAYLOAD
        + paper_cache::overhead::get_policy_overhead(&cache_policy)
        + paper_cache::overhead::get_ttl_overhead();
    assert!(cache.set(0, 1, Some(1)).is_ok());
    assert_eq!(cache.size(&0), Ok(expected));
}

#[test]
fn it_gets_an_objects_size_after_policy_switch() {
    let mut cache = PaperCache::new(
        TEST_CACHE_MAX_SIZE,
        &[PaperPolicy::Lru, PaperPolicy::Lfu],
        PaperPolicy::Lfu,
    )
    .expect("Could not initialize test cache.");
    let lfu_expected = PAYLOAD + paper_cache::overhead::get_policy_overhead(&PaperPolicy::Lfu);
    let lru_expected = PAYLOAD + paper_cache::overhead::get_policy_overhead(&PaperPolicy::Lru);
    assert!(cache.set(0, 1, None).is_ok());
    assert_eq!(cache.size(&0), Ok(lfu_expected));
    assert!(cache.policy(PaperPolicy::Lru).is_ok());
    assert_eq!(cache.size(&0), Ok(lru_expected));
}

#[test]
fn it_gets_an_objects_size_after_set_ttl() {
    let mut cache = init_test_cache();
    let pre_expected = PAYLOAD + paper_cache::overhead::get_policy_overhead(&PaperPolicy::Lfu);
    let post_expected = pre_expected + paper_cache::overhead::get_ttl_overhead();
    assert!(cache.set(0, 1, None).is_ok());
    assert_eq!(cache.size(&0), Ok(pre_expected));
    assert!(cache.ttl(&0, Some(1)).is_ok());
    assert_eq!(cache.size(&0), Ok(post_expected));
}

#[test]
fn it_gets_an_objects_size_after_unset_ttl() {
    let mut cache = init_test_cache();
    let pre_expected = PAYLOAD
        + paper_cache::overhead::get_policy_overhead(&PaperPolicy::Lfu)
        + paper_cache::overhead::get_ttl_overhead();
    let post_expected = pre_expected - paper_cache::overhead::get_ttl_overhead();
    assert!(cache.set(0, 1, Some(1)).is_ok());
    assert_eq!(cache.size(&0), Ok(pre_expected));
    assert!(cache.ttl(&0, None).is_ok());
    assert_eq!(cache.size(&0), Ok(post_expected));
}

#[test]
fn status_shows_correct_used_size() {
    let mut cache = init_test_cache();
    let expected = PAYLOAD * 2
        + paper_cache::overhead::get_policy_overhead(&PaperPolicy::Lfu) * 2
        + paper_cache::overhead::get_ttl_overhead();
    assert!(cache.set(0, 1, None).is_ok());
    assert!(cache.set(1, 1, Some(1)).is_ok());
    let status = cache.status().unwrap();
    assert_eq!(status.used_size(), expected as u64);
}

#[test]
fn status_shows_correct_used_size_after_policy_switch() {
    let mut cache = PaperCache::new(
        TEST_CACHE_MAX_SIZE,
        &[PaperPolicy::Lru, PaperPolicy::Lfu],
        PaperPolicy::Lfu,
    )
    .expect("Could not initialize test cache.");
    let lfu_expected = PAYLOAD + paper_cache::overhead::get_policy_overhead(&PaperPolicy::Lfu);
    let lru_expected = PAYLOAD + paper_cache::overhead::get_policy_overhead(&PaperPolicy::Lru);
    assert!(cache.set(0, 1, None).is_ok());
    let status = cache.status().unwrap();
    assert_eq!(status.used_size(), lfu_expected as u64);
    assert!(cache.policy(PaperPolicy::Lru).is_ok());
    let status = cache.status().unwrap();
    assert_eq!(status.used_size(), lru_expected as u64);
}

#[test]
fn status_shows_correct_used_size_after_set_ttl() {
    let mut cache = init_test_cache();
    let pre_expected = PAYLOAD + paper_cache::overhead::get_policy_overhead(&PaperPolicy::Lfu);
    let post_expected = pre_expected + paper_cache::overhead::get_ttl_overhead();
    assert!(cache.set(0, 1, None).is_ok());
    let status = cache.status().unwrap();
    assert_eq!(status.used_size(), pre_expected as u64);
    assert!(cache.ttl(&0, Some(1)).is_ok());
    let status = cache.status().unwrap();
    assert_eq!(status.used_size(), post_expected as u64);
}

#[test]
fn status_shows_correct_used_size_after_unset_ttl() {
    let mut cache = init_test_cache();
    let pre_expected = PAYLOAD
        + paper_cache::overhead::get_policy_overhead(&PaperPolicy::Lfu)
        + paper_cache::overhead::get_ttl_overhead();
    let post_expected = pre_expected - paper_cache::overhead::get_ttl_overhead();
    assert!(cache.set(0, 1, Some(1)).is_ok());
    let status = cache.status().unwrap();
    assert_eq!(status.used_size(), pre_expected as u64);
    assert!(cache.ttl(&0, None).is_ok());
    let status = cache.status().unwrap();
    assert_eq!(status.used_size(), post_expected as u64);
}

#[test]
fn set_beyond_max_size_is_refused() {
    let mut cache = PaperCache::new(16, &[PaperPolicy::Lfu], PaperPolicy::Lfu).unwrap();
    assert_eq!(cache.set(0, 1, None), Err(CacheError::ExceedingValueSize));
    let mut exact = PaperCache::new(PAYLOAD as u64, &[PaperPolicy::Lfu], PaperPolicy::Lfu).unwrap();
    assert!(exact.set(0, 1, None).is_ok());
}

#[test]
fn wipe_resets_counters_and_objects() {
    let mut cache = init_test_cache();
    assert!(cache.set(0, 1, None).is_ok());
    assert!(cache.set(1, 2, None).is_ok());
    assert!(cache.get(&0).is_ok());
    assert!(cache.wipe().is_ok());
    assert!(cache.process_worker_events().is_ok());
    let status = cache.status().unwrap();
    assert_eq!(status.used_size(), 0);
    assert_eq!(status.num_objects(), 0);
    assert_eq!(status.total_gets(), 0);
    assert_eq!(status.total_hits(), 0);
    assert_eq!(status.total_sets(), 0);
    assert_eq!(status.total_dels(), 0);
    assert!(cache.policy_worker.trace_log.fragments.len() <= 1);
    assert!(!cache.has(&0));
}

#[test]
fn resize_to_zero_is_refused() {
    let mut cache = init_test_cache();
    assert!(cache.resize(1).is_ok());
    assert_eq!(cache.resize(0), Err(CacheError::ZeroCacheSize));
}

#[test]
fn policy_change_must_be_configured() {
    let mut cache = init_test_cache();
    assert!(cache.policy(PaperPolicy::Lfu).is_ok());
    assert_eq!(cache.policy(PaperPolicy::Lru), Err(CacheError::UnconfiguredPolicy));
    assert!(cache.policy(PaperPolicy::Auto).is_ok());
    assert!(cache.status().unwrap().is_auto_policy());
}

#[test]
fn eviction_keeps_used_size_within_bound() {
    // twelve objects of 116 bytes exceed a thousand-byte cache; the
    // least-frequently-used order evicts the oldest four
    let mut cache = init_test_cache();
    for key in 0..12u64 {
        assert!(cache.set(key, key, None).is_ok());
    }
    assert!(cache.process_worker_events().is_ok());
    let status = cache.status().unwrap();
    assert!(status.used_size() <= TEST_CACHE_MAX_SIZE);
    for key in 0..4u64 {
        assert!(!cache.has(&key));
    }
    for key in 4..12u64 {
        assert!(cache.has(&key));
    }
}

#[test]
fn miss_ratio_scenario_holds() {
    let mut cache = PaperCache::new(
        TEST_CACHE_MAX_SIZE,
        &[PaperPolicy::Lru, PaperPolicy::Lfu],
        PaperPolicy::Lfu,
    )
    .unwrap();
    assert!(cache.set(0, 0, None).is_ok());
    assert!(cache.set(1, 0, None).is_ok());
    assert!(cache.get(&0).is_ok());
    let status = cache.status().unwrap();
    let ratio = 1.0 - status.total_hits() as f64 / status.total_gets() as f64;
    assert_eq!(ratio, 0.0);
    assert!(cache.get(&2).is_err());
    let status = cache.status().unwrap();
    let ratio = 1.0 - status.total_hits() as f64 / status.total_gets() as f64;
    assert_eq!(ratio, 0.5);
}

#[test]
fn policy_stays_without_auto_or_policy_calls() {
    let mut cache = PaperCache::new(
        TEST_CACHE_MAX_SIZE,
        &[PaperPolicy::Lru, PaperPolicy::Lfu],
        PaperPolicy::Lfu,
    )
    .unwrap();
    for key in 0..6u64 {
        assert!(cache.set(key, key, None).is_ok());
        let _ = cache.get(&key);
    }
    assert!(cache.process_worker_events().is_ok());
    let status = cache.status().unwrap();
    assert_eq!(status.policy(), PaperPolicy::Lfu);
    assert!(!status.is_auto_policy());
}
