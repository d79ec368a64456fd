//! The cache's inner components: counters, shadow stacks, the expiry
//! index, the trace codec and the policy text form.
use paper_cache::error::CacheError;
use paper_cache::expiries::Expiry;
use paper_cache::object::{Object, get_expiry_from_ttl};
use paper_cache::overhead::{get_policy_overhead, get_ttl_overhead};
use paper_cache::events::TraceEvent;
use paper_cache::expiries::Expiries;
use paper_cache::mini_stack::{MiniStack, get_mini_stack_size, should_sample};
use paper_cache::policy::{PaperPolicy, parse_policy};
use paper_cache::status::CacheStatus;
use paper_cache::trace::{TraceFragment, TraceLog, decode_record, encode_event};

#[test]
fn it_clears_atomic_status() {
    let mut status = CacheStatus::new(1000, vec![PaperPolicy::Lfu], PaperPolicy::Lfu, 0)
        .expect("Could not initialize atomic status");
    status.add_base_used(1);
    status.incr_num_objects();
    status.incr_hits();
    status.incr_sets();
    status.incr_dels();
    assert_eq!(status.base_used_size, 1);
    assert_eq!(status.num_objects, 1);
    assert_eq!(status.total_gets, 1);
    assert_eq!(status.total_hits, 1);
    assert_eq!(status.total_sets, 1);
    assert_eq!(status.total_dels, 1);
    status.clear();
    assert_eq!(status.base_used_size, 0);
    assert_eq!(status.num_objects, 0);
    assert_eq!(status.total_gets, 0);
    assert_eq!(status.total_hits, 0);
    assert_eq!(status.total_sets, 0);
    assert_eq!(status.total_dels, 0);
}

#[test]
fn used_size_after_reinsert_is_correct() {
    let mut mini_stack = MiniStack::new(PaperPolicy::Lfu, 100);
    assert_eq!(mini_stack.sizes.used_size, 0);
    mini_stack.insert(0, 5);
    assert_eq!(mini_stack.sizes.used_size, 5);
    mini_stack.insert(1, 2);
    assert_eq!(mini_stack.sizes.used_size, 7);
    mini_stack.insert(0, 4);
    assert_eq!(mini_stack.sizes.used_size, 6);
    mini_stack.insert(0, 6);
    assert_eq!(mini_stack.sizes.used_size, 8);
}

#[test]
fn used_size_after_remove_is_correct() {
    let mut mini_stack = MiniStack::new(PaperPolicy::Lfu, 100);
    assert_eq!(mini_stack.sizes.used_size, 0);
    mini_stack.insert(0, 5);
    assert_eq!(mini_stack.sizes.used_size, 5);
    mini_stack.insert(1, 2);
    assert_eq!(mini_stack.sizes.used_size, 7);
    mini_stack.remove(0);
    assert_eq!(mini_stack.sizes.used_size, 2);
}

#[test]
fn sampling_filter_is_a_residue_test() {
    assert!(should_sample(0));
    assert!(should_sample(16_776));
    assert!(!should_sample(16_777));
    assert!(!should_sample(16_777_215));
    assert!(should_sample(16_777_216));
    assert_eq!(get_mini_stack_size(16_777_216), 16_777);
    assert_eq!(get_mini_stack_size(1000), 0);
}

#[test]
fn expiries_pop_in_time_order() {
    let mut expiries = Expiries::new();
    expiries.insert(1, Some(300));
    expiries.insert(2, Some(100));
    expiries.insert(3, Some(200));
    expiries.insert(4, None);
    assert_eq!(expiries.len(), 3);
    assert_eq!(expiries.pop_expired(50), None);
    assert_eq!(expiries.pop_expired(150), Some(2));
    assert_eq!(expiries.pop_expired(1000), Some(3));
    assert_eq!(expiries.pop_expired(1000), Some(1));
    assert_eq!(expiries.pop_expired(1000), None);
}

#[test]
fn expiries_same_instant_keeps_the_later_key() {
    let mut expiries = Expiries::new();
    expiries.insert(1, Some(100));
    expiries.insert(2, Some(100));
    assert_eq!(expiries.len(), 1);
    assert_eq!(expiries.pop_expired(100), Some(2));
}

#[test]
fn expiries_remove_guards_the_key() {
    let mut expiries = Expiries::new();
    expiries.insert(1, Some(100));
    expiries.remove(2, Some(100));
    assert_eq!(expiries.len(), 1);
    expiries.remove(1, Some(100));
    assert_eq!(expiries.len(), 0);
}

#[test]
fn expiries_has_within_sees_the_earliest() {
    let mut expiries = Expiries::new();
    assert!(!expiries.has_within(2, 0));
    expiries.insert(9, Some(1500));
    assert!(expiries.has_within(2, 0));
    assert!(!expiries.has_within(1, 0));
}

#[test]
fn trace_records_round_trip() {
    let events = [
        TraceEvent::Get(0x0102_0304_0506_0708),
        TraceEvent::Put(42, 116),
        TraceEvent::Del(u64::MAX),
        TraceEvent::Resize(1000),
    ];
    for event in events {
        let mut data: Vec<u8> = Vec::new();
        encode_event(&event, &mut data);
        assert_eq!(data.len(), 17);
        assert_eq!(decode_record(&data, 0), Some(event));
    }
}

#[test]
fn trace_record_layout_is_fixed() {
    let mut data: Vec<u8> = Vec::new();
    encode_event(&TraceEvent::Put(0x0102, 3), &mut data);
    assert_eq!(
        data,
        vec![1, 0x02, 0x01, 0, 0, 0, 0, 0, 0, 3, 0, 0, 0, 0, 0, 0, 0]
    );
    let mut data: Vec<u8> = Vec::new();
    encode_event(&TraceEvent::Get(7), &mut data);
    assert_eq!(data[0], 0);
    assert_eq!(data[1], 7);
    assert_eq!(&data[2..], &[0u8; 15]);
}

#[test]
fn trace_fragments_replay_their_events() {
    let mut fragment = TraceFragment::new(0);
    fragment.append(&TraceEvent::Put(1, 10));
    fragment.append(&TraceEvent::Get(1));
    fragment.append(&TraceEvent::Del(1));
    assert_eq!(fragment.record_count(), 3);
    assert_eq!(fragment.read_record(0), TraceEvent::Put(1, 10));
    assert_eq!(fragment.read_record(1), TraceEvent::Get(1));
    assert_eq!(fragment.read_record(2), TraceEvent::Del(1));
}

#[test]
fn trace_log_wipe_leaves_one_fresh_fragment() {
    let mut log = TraceLog::new();
    log.refresh(0);
    log.handle_event(&paper_cache::events::StackEvent::Put(1, 10), 0);
    log.handle_event(&paper_cache::events::StackEvent::Wipe, 5);
    assert_eq!(log.fragments.len(), 1);
    assert_eq!(log.fragments[0].record_count(), 0);
}

#[test]
fn trace_log_retires_old_fragments() {
    let mut log = TraceLog::new();
    log.refresh(0);
    assert_eq!(log.fragments.len(), 1);
    // one hour later the head no longer accepts records
    log.refresh(3_600_001);
    assert_eq!(log.fragments.len(), 2);
    // seven days later both have expired
    log.refresh(700_000_000);
    assert_eq!(log.fragments.len(), 1);
}

#[test]
fn policy_text_parses_the_names() {
    assert_eq!(parse_policy("auto"), Ok(PaperPolicy::Auto));
    assert_eq!(parse_policy("lfu"), Ok(PaperPolicy::Lfu));
    assert_eq!(parse_policy("fifo"), Ok(PaperPolicy::Fifo));
    assert_eq!(parse_policy("clock"), Ok(PaperPolicy::Clock));
    assert_eq!(parse_policy("sieve"), Ok(PaperPolicy::Sieve));
    assert_eq!(parse_policy("lru"), Ok(PaperPolicy::Lru));
    assert_eq!(parse_policy("mru"), Ok(PaperPolicy::Mru));
    assert_eq!(parse_policy("arc"), Ok(PaperPolicy::Arc));
}

#[test]
fn policy_text_parses_the_ratio_forms() {
    assert_eq!(parse_policy("2q-0.25-0.5"), Ok(PaperPolicy::TwoQ(250_000, 500_000)));
    assert_eq!(parse_policy("2q-0-1"), Ok(PaperPolicy::TwoQ(0, 1_000_000)));
    assert_eq!(parse_policy("s3-fifo-0.1"), Ok(PaperPolicy::SThreeFifo(100_000)));
    assert_eq!(parse_policy("s3-fifo-1"), Ok(PaperPolicy::SThreeFifo(1_000_000)));
    assert_eq!("2q-0.1-0.2".parse::<PaperPolicy>(), Ok(PaperPolicy::TwoQ(100_000, 200_000)));
}

#[test]
fn policy_text_refuses_what_is_no_policy() {
    assert_eq!(parse_policy(""), Err(CacheError::InvalidPolicy));
    assert_eq!(parse_policy("lfux"), Err(CacheError::InvalidPolicy));
    assert_eq!(parse_policy("2q-0.8-0.7"), Err(CacheError::InvalidPolicy));
    assert_eq!(parse_policy("2q-0.25"), Err(CacheError::InvalidPolicy));
    assert_eq!(parse_policy("2q-a-b"), Err(CacheError::InvalidPolicy));
    assert_eq!(parse_policy("s3-fifo-1.5"), Err(CacheError::InvalidPolicy));
    assert_eq!(parse_policy("s3-fifo-"), Err(CacheError::InvalidPolicy));
    assert_eq!(parse_policy("2q-0..5-0.1"), Err(CacheError::InvalidPolicy));
}

#[test]
fn expiry_builds_only_with_an_instant() {
    assert_eq!(Expiry::new(1, Some(5)), Some(Expiry { key: 1, timestamp: 5 }));
    assert_eq!(Expiry::new(1, None), None);
}

#[test]
fn objects_expire_at_their_instant() {
    assert_eq!(get_expiry_from_ttl(2, 1000), 3000);
    let object = Object::new(7, 42, Some(2), 1000);
    assert_eq!(object.expiry(), Some(3000));
    assert!(object.key_matches(&7));
    assert!(!object.key_matches(&8));
    assert!(!object.is_expired(2999));
    assert!(object.is_expired(3000));
    assert_eq!(*object.data(), 42);
    assert_eq!(object.size(), 8);
    let mut object = Object::new(7, 42, None, 1000);
    assert_eq!(object.expiry(), None);
    assert!(!object.is_expired(u64::MAX));
    object.expires(Some(1), 5000);
    assert_eq!(object.expiry(), Some(6000));
    object.expires(Some(0), 5000);
    assert_eq!(object.expiry(), None);
}

#[test]
fn overheads_match_the_declared_table() {
    assert_eq!(get_policy_overhead(&PaperPolicy::Auto), 0);
    assert_eq!(get_policy_overhead(&PaperPolicy::Lfu), 84);
    assert_eq!(get_policy_overhead(&PaperPolicy::Lru), 56);
    assert_eq!(get_policy_overhead(&PaperPolicy::SThreeFifo(0)), 61);
    assert_eq!(get_ttl_overhead(), 64);
}

#[test]
fn error_messages_name_the_kind() {
    assert_eq!(CacheError::KeyNotFound.message(), "the key was not found in the cache");
    assert_eq!(CacheError::ZeroCacheSize.message(), "the cache size cannot be zero");
}
