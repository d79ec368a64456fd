//! The adaptive policy selector, driven with a stubbed clock over a
//! workload whose hot keys favor frequency over recency.
use std::hash::BuildHasher;

use paper_cache::cache::PaperCache;
use paper_cache::policy::PaperPolicy;

fn is_sampled(key: u64) -> bool {
    let hashed = rustc_hash::FxBuildHasher.hash_one(&key);
    hashed % 16_777_216 < 16_777
}

/// Raw keys whose hashes the deterministic mini-stack filter admits.
fn sampled_keys(count: usize) -> Vec<u64> {
    let mut keys = Vec::new();
    let mut candidate: u64 = 0;
    while keys.len() < count {
        if is_sampled(candidate) {
            keys.push(candidate);
        }
        candidate += 1;
    }
    keys
}

#[test]
fn auto_policy_switches_to_the_better_observed_policy() {
    // a cache this size samples down to a shadow budget of four objects
    let mut cache = PaperCache::new(
        160_000,
        &[PaperPolicy::Lru, PaperPolicy::Lfu],
        PaperPolicy::Auto,
    )
    .unwrap();
    // the automatic policy starts the cache on the first configured one
    let status = cache.status().unwrap();
    assert_eq!(status.policy(), PaperPolicy::Lru);
    assert!(status.is_auto_policy());

    let keys = sampled_keys(39);
    let hot = &keys[0..3];
    let mut now: u64 = 1;

    assert!(cache.process_worker_events_at(now).is_ok());
    for round in 0..4usize {
        now += 7_200_000;
        // the hot keys stay in, heavily accessed
        for key in hot {
            assert!(cache.set(*key, 1, None).is_ok());
        }
        for _ in 0..25 {
            for key in hot {
                let _ = cache.get(key);
            }
        }
        assert!(cache.process_worker_events_at(now).is_ok());
        // a scan of cold keys pushes recency away from the hot set
        let cold = &keys[(3 + 9 * round)..(12 + 9 * round)];
        for key in cold {
            assert!(cache.set(*key, 1, None).is_ok());
        }
        assert!(cache.process_worker_events_at(now + 1).is_ok());
        // accesses of the hot keys again: hits under frequency ordering,
        // misses under recency ordering
        for _ in 0..25 {
            for key in hot {
                let _ = cache.get(key);
            }
        }
        assert!(cache.process_worker_events_at(now + 2).is_ok());
    }
    let status = cache.status().unwrap();
    assert!(status.is_auto_policy());
    assert_eq!(status.policy(), PaperPolicy::Lfu);
}
