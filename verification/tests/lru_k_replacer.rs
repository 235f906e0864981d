use takadb::buffer::lru_k_replacer::LruKReplacer;
use takadb::buffer::AccessType;

#[test]
fn test_record_access_internal_state() {
    let mut replacer = LruKReplacer::new(2, 10);
    replacer.record_access(1, AccessType::Lookup);
    {
        // 1. Test New Entry Creation
        assert!(replacer.contains_frame(1));

        let history = replacer.access_history(1).unwrap();
        assert_eq!(history.len(), 1);
        assert_eq!(replacer.current_timestamp(), 1);
    }

    // 2. Test Reaching K
    replacer.record_access(1, AccessType::Lookup);
    {
        let history = replacer.access_history(1).unwrap();
        assert_eq!(history.len(), 2);
        // Timestamps should be [0, 1]
        assert_eq!(history[0], 0);
        assert_eq!(history[1], 1);
    }

    // 3. Test Sliding Window (Popping oldest)
    // Accessing again should drop timestamp 0 and add timestamp 2
    replacer.record_access(1, AccessType::Lookup);
    {
        let history = replacer.access_history(1).unwrap();
        println!("{:#?}", history);
        assert_eq!(history.len(), 2);
        assert_eq!(history[0], 1);
        assert_eq!(history[1], 2);
    }

    // 4. Test Scan Resistance
    // Frame 1 already has 2 accesses (which is K).
    // A Scan should NOT add a new timestamp or increment the global clock.
    replacer.record_access(1, AccessType::Scan);
    {
        let history = replacer.access_history(1).unwrap();
        assert_eq!(history.len(), 2);
        assert_eq!(history[1], 2); // Still the old timestamp
        assert_eq!(replacer.current_timestamp(), 3); // Clock stayed at 3
    }
}

#[test]
fn test_set_evictable_internal_state() {
    let mut replacer = LruKReplacer::new(2, 10);

    // 1. Setup: Access two frames. They start as NOT evictable.
    replacer.record_access(1, AccessType::Lookup);
    replacer.record_access(2, AccessType::Lookup);

    assert_eq!(replacer.current_size(), 0, "Initial size should be 0");

    // 2. Set Frame 1 to evictable
    replacer.set_evictable(1, true);

    assert_eq!(replacer.current_size(), 1, "Size should increment to 1");
    assert!(replacer.is_evictable(1).unwrap());

    // 3. Test Idempotency: Set Frame 1 to evictable AGAIN
    replacer.set_evictable(1, true);

    assert_eq!(
        replacer.current_size(),
        1,
        "Size should NOT increment on redundant call"
    );

    // 4. Set Frame 2 to evictable
    replacer.set_evictable(2, true);

    assert_eq!(replacer.current_size(), 2, "Size should be 2");

    // 5. Pin Frame 1 (Set non-evictable)
    replacer.set_evictable(1, false);

    assert_eq!(replacer.current_size(), 1, "Size should decrement to 1");
    assert!(!replacer.is_evictable(1).unwrap());
}

#[test]
fn test_removal() {
    let mut replacer = LruKReplacer::new(2, 10);
    replacer.record_access(1, AccessType::Lookup);
    replacer.record_access(2, AccessType::Lookup);
    replacer.set_evictable(1, true);
    replacer.set_evictable(2, true);
    replacer.remove(1);

    assert_eq!(
        replacer.current_size(),
        1,
        "Size should be 1 as there are two evicable and one was removed"
    );
}

#[test]
fn test_evict_1() {
    let mut replacer = LruKReplacer::new(2, 10);
    replacer.record_access(1, AccessType::Lookup);
    replacer.record_access(2, AccessType::Lookup);
    replacer.set_evictable(1, true);
    replacer.set_evictable(2, false);

    let evicted_id = replacer.evict();

    assert_eq!(
        evicted_id.unwrap(),
        1,
        "Frame 1 should be evicted as 2 is set not to be evicable"
    );
}

#[test]
fn test_evict_2() {
    let mut replacer = LruKReplacer::new(2, 10);
    replacer.record_access(1, AccessType::Lookup);
    replacer.record_access(2, AccessType::Lookup);
    replacer.set_evictable(1, true);
    replacer.set_evictable(2, true);

    let evicted_id = replacer.evict();

    assert_eq!(
        evicted_id.unwrap(),
        1,
        "Frame 1 should be evicted as 1 and 2 have inf backward k distance but 1 has the oldest timestamp"
    );
}

#[test]
fn test_evict_3() {
    let mut replacer = LruKReplacer::new(2, 10);
    replacer.record_access(2, AccessType::Lookup);
    replacer.record_access(1, AccessType::Lookup);
    replacer.record_access(1, AccessType::Lookup);
    replacer.record_access(2, AccessType::Lookup);
    replacer.set_evictable(1, true);
    replacer.set_evictable(2, true);

    let evicted_id = replacer.evict();

    assert_eq!(
        evicted_id.unwrap(),
        2,
        "Frame 2 should be evicted as it has the biggest backward K distance"
    );
}

#[test]
fn evict_with_nothing_evictable_returns_none() {
    let mut replacer = LruKReplacer::new(2, 10);
    assert_eq!(replacer.evict(), None);
    replacer.record_access(3, AccessType::Lookup);
    assert_eq!(replacer.evict(), None);
    assert!(replacer.contains_frame(3));
}

#[test]
fn evict_drops_frame_and_lowers_size_counter() {
    let mut replacer = LruKReplacer::new(2, 10);
    replacer.record_access(4, AccessType::Lookup);
    replacer.set_evictable(4, true);
    assert_eq!(replacer.current_size(), 1);
    assert_eq!(replacer.evict(), Some(4));
    assert!(!replacer.contains_frame(4));
    assert_eq!(replacer.is_evictable(4), None);
    assert_eq!(replacer.access_history(4), None);
    // the counter of evictable frames goes down with the eviction
    assert_eq!(replacer.current_size(), 0);
    assert_eq!(replacer.evict(), None);
}

#[test]
fn infinite_distance_frames_go_first() {
    let mut replacer = LruKReplacer::new(2, 10);
    // frame 5 reaches k accesses first, frame 6 has only one later access
    replacer.record_access(5, AccessType::Lookup);
    replacer.record_access(5, AccessType::Write);
    replacer.record_access(6, AccessType::Lookup);
    replacer.set_evictable(5, true);
    replacer.set_evictable(6, true);
    assert_eq!(replacer.current_size(), 2);
    assert_eq!(replacer.evict(), Some(6));
    assert_eq!(replacer.current_size(), 1);
    assert_eq!(replacer.evict(), Some(5));
    assert_eq!(replacer.current_size(), 0);
    assert_eq!(replacer.evict(), None);
}

#[test]
fn scan_records_only_below_k() {
    let mut replacer = LruKReplacer::new(2, 10);
    replacer.record_access(0, AccessType::Scan);
    assert_eq!(replacer.access_history(0).unwrap(), vec![0]);
    replacer.record_access(0, AccessType::Scan);
    assert_eq!(replacer.access_history(0).unwrap(), vec![0, 1]);
    replacer.record_access(0, AccessType::Scan);
    assert_eq!(replacer.access_history(0).unwrap(), vec![0, 1]);
    assert_eq!(replacer.current_timestamp(), 2);
}

#[test]
fn k_zero_keeps_one_timestamp() {
    let mut replacer = LruKReplacer::new(0, 4);
    replacer.record_access(1, AccessType::Scan);
    assert!(replacer.contains_frame(1));
    assert_eq!(replacer.access_history(1).unwrap(), Vec::<usize>::new());
    assert_eq!(replacer.current_timestamp(), 0);
    replacer.record_access(1, AccessType::Lookup);
    replacer.record_access(1, AccessType::Lookup);
    assert_eq!(replacer.access_history(1).unwrap(), vec![1]);
    assert_eq!(replacer.current_timestamp(), 2);
}

#[test]
fn set_evictable_on_untracked_frame_does_nothing() {
    let mut replacer = LruKReplacer::new(2, 10);
    replacer.set_evictable(7, true);
    assert!(!replacer.contains_frame(7));
    assert_eq!(replacer.current_size(), 0);
    replacer.remove(7);
    assert_eq!(replacer.current_size(), 0);
}

#[test]
fn new_replacer_is_empty() {
    let replacer = LruKReplacer::new(3, 8);
    assert_eq!(replacer.k(), 3);
    assert_eq!(replacer.replacer_size(), 8);
    assert_eq!(replacer.current_size(), 0);
    assert_eq!(replacer.current_timestamp(), 0);
    assert!(!replacer.contains_frame(0));
}

#[test]
fn lookup_makes_frame_most_recent() {
    let mut replacer = LruKReplacer::new(1, 10);
    replacer.record_access(1, AccessType::Lookup);
    replacer.record_access(2, AccessType::Lookup);
    replacer.record_access(1, AccessType::Write);
    replacer.set_evictable(1, true);
    replacer.set_evictable(2, true);
    // with k = 1 the least recently used frame goes first
    assert_eq!(replacer.access_history(1).unwrap(), vec![2]);
    assert_eq!(replacer.evict(), Some(2));
}
