//! The nine eviction stacks' orders, each driven over a fixed access
//! trace.
use paper_cache::stack::arc_stack::ArcStack;
use paper_cache::stack::clock_stack::ClockStack;
use paper_cache::stack::fifo_stack::FifoStack;
use paper_cache::stack::lfu_stack::LfuStack;
use paper_cache::stack::lru_stack::LruStack;
use paper_cache::stack::mru_stack::MruStack;
use paper_cache::stack::s_three_fifo_stack::SThreeFifoStack;
use paper_cache::stack::sieve_stack::SieveStack;
use paper_cache::stack::two_q_stack::TwoQStack;

#[test]
fn lru_stack_eviction_order_is_correct() {
    let mut stack = LruStack::new();
    for access in [0, 1, 1, 1, 0, 2, 3, 0, 2, 0] {
        stack.insert(access, 1);
    }
    for eviction in [1, 3, 2, 0] {
        assert_eq!(stack.evict_one(), Some(eviction));
    }
    assert_eq!(stack.evict_one(), None);
}

#[test]
fn fifo_stack_eviction_order_is_correct() {
    let mut stack = FifoStack::new();
    for access in [0, 1, 1, 1, 0, 2, 3, 0, 2, 0] {
        stack.insert(access, 1);
    }
    for eviction in [0, 1, 2, 3] {
        assert_eq!(stack.evict_one(), Some(eviction));
    }
    assert_eq!(stack.evict_one(), None);
}

#[test]
fn mru_stack_eviction_order_is_correct() {
    let mut stack = MruStack::new();
    for access in [0, 1, 1, 1, 0, 2, 3, 0, 2, 0] {
        stack.insert(access, 1);
    }
    for eviction in [0, 2, 3, 1] {
        assert_eq!(stack.evict_one(), Some(eviction));
    }
    assert_eq!(stack.evict_one(), None);
}

#[test]
fn lfu_stack_eviction_order_is_correct() {
    let mut stack = LfuStack::new();
    for access in [0, 1, 1, 1, 0, 2, 3, 0, 2, 0] {
        stack.insert(access, 1);
    }
    for eviction in [3, 2, 1, 0] {
        assert_eq!(stack.evict_one(), Some(eviction));
    }
    assert_eq!(stack.evict_one(), None);
}

#[test]
fn clock_stack_eviction_order_is_correct() {
    let mut stack = ClockStack::new();
    for access in [0, 1, 0, 2] {
        stack.insert(access, 1);
    }
    assert_eq!(stack.evict_one(), Some(1));
    for access in [3, 0, 1, 3] {
        stack.insert(access, 1);
    }
    for eviction in [2, 1, 0, 3] {
        assert_eq!(stack.evict_one(), Some(eviction));
    }
    assert_eq!(stack.evict_one(), None);
}

#[test]
fn sieve_stack_eviction_order_is_correct() {
    let mut stack = SieveStack::new();
    for access in [0, 1, 0, 2] {
        stack.insert(access, 1);
    }
    assert_eq!(stack.evict_one(), Some(1));
    for access in [3, 0, 1, 3] {
        stack.insert(access, 1);
    }
    for eviction in [2, 1, 3, 0] {
        assert_eq!(stack.evict_one(), Some(eviction));
    }
    assert_eq!(stack.evict_one(), None);
}

#[test]
fn two_q_stack_eviction_order_is_correct() {
    let mut stack = TwoQStack::new(250_000, 500_000, 4);
    for access in [0, 1, 0, 2, 1, 3, 0, 4, 2, 5, 0] {
        stack.insert(access, 1);
    }
    let mut eviction_count = 0;
    for eviction in [3, 4, 5, 1, 2, 0] {
        assert_eq!(stack.evict_one(), Some(eviction));
        eviction_count += 1;
    }
    assert_eq!(stack.evict_one(), None);
    assert_eq!(eviction_count, 6);
}

#[test]
fn arc_stack_eviction_order_is_correct() {
    let mut stack = ArcStack::new(4);
    for access in [0, 1, 0, 2, 1, 3, 0, 4, 2, 5, 0] {
        stack.insert(access, 1);
    }
    for eviction in [3, 4, 5, 1, 2, 0] {
        assert_eq!(stack.evict_one(), Some(eviction));
    }
    assert_eq!(stack.evict_one(), None);
}

#[test]
fn s_three_fifo_stack_eviction_order_is_correct() {
    let mut stack = SThreeFifoStack::new(500_000, 4);
    for access in [0, 1, 0, 2, 1, 3, 0, 4, 2, 5, 0] {
        stack.insert(access, 1);
    }
    let mut eviction_count = 0;
    for eviction in [1, 2, 3, 4, 5, 0] {
        assert_eq!(stack.evict_one(), Some(eviction));
        eviction_count += 1;
    }
    assert_eq!(stack.evict_one(), None);
    assert_eq!(eviction_count, 6);
}
