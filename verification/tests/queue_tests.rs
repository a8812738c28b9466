use build_queue::{BuildQueue, IndexReference, QueuedCrate};

#[test]
fn test_add_duplicate_doesnt_fail_last_priority_wins() {
    let mut queue = BuildQueue::new(5);

    queue.add_crate("some_crate", "0.1.1", 0, None).unwrap();
    queue.add_crate("some_crate", "0.1.1", 9, None).unwrap();

    let queued_crates = queue.queued_crates().unwrap();
    assert_eq!(queued_crates.len(), 1);
    assert_eq!(queued_crates[0].priority, 9);
}

#[test]
fn test_add_duplicate_resets_attempts_and_priority() {
    let mut queue = BuildQueue::new(5);

    queue.add_crate("failed_crate", "0.1.1", 0, None).unwrap();
    for _ in 0..5 {
        queue
            .process_next_crate(|krate: &QueuedCrate| -> Result<(), String> {
                assert_eq!("failed_crate", krate.name);
                Err("simulated failure".to_string())
            })
            .unwrap();
    }

    assert_eq!(queue.pending_count().unwrap(), 0);

    queue.add_crate("failed_crate", "0.1.1", 9, None).unwrap();

    assert_eq!(queue.pending_count().unwrap(), 1);

    let row = &queue.queued_crates().unwrap()[0];
    assert_eq!(row.priority, 9);
    assert_eq!(row.attempt, 0);
}

#[test]
fn test_add_and_process_crates() {
    const MAX_ATTEMPTS: u32 = 3;

    let mut queue = BuildQueue::new(MAX_ATTEMPTS);

    let test_crates = [
        ("low-priority", "1.0.0", 1000),
        ("high-priority-foo", "1.0.0", -1000),
        ("medium-priority", "1.0.0", -10),
        ("high-priority-bar", "1.0.0", -1000),
        ("standard-priority", "1.0.0", 0),
        ("high-priority-baz", "1.0.0", -1000),
    ];
    for krate in &test_crates {
        queue.add_crate(krate.0, krate.1, krate.2, None).unwrap();
    }

    fn assert_next(queue: &mut BuildQueue, name: &str) {
        queue
            .process_next_crate(|krate: &QueuedCrate| -> Result<(), String> {
                assert_eq!(name, krate.name);
                Ok(())
            })
            .unwrap();
    }
    fn assert_next_and_fail(queue: &mut BuildQueue, name: &str) {
        queue
            .process_next_crate(|krate: &QueuedCrate| -> Result<(), String> {
                assert_eq!(name, krate.name);
                Err("simulate a failure".to_string())
            })
            .unwrap();
    }

    // The first processed item is the one with the highest priority added first.
    assert_next(&mut queue, "high-priority-foo");

    // Simulate a failure in high-priority-bar.
    assert_next_and_fail(&mut queue, "high-priority-bar");

    // Continue with the next high priority crate.
    assert_next(&mut queue, "high-priority-baz");

    // After all the crates with the max priority are processed, before starting to process
    // crates with a lower priority the failed crates with the max priority will be tried
    // again.
    assert_next(&mut queue, "high-priority-bar");

    // Continue processing according to the priority.
    assert_next(&mut queue, "medium-priority");
    assert_next(&mut queue, "standard-priority");

    // Simulate the crate failing many times.
    for _ in 0..MAX_ATTEMPTS {
        assert_next_and_fail(&mut queue, "low-priority");
    }

    // Since low-priority failed many times it will be removed from the queue. Because of
    // that the queue should now be empty.
    let mut called = false;
    queue
        .process_next_crate(|_: &QueuedCrate| -> Result<(), String> {
            called = true;
            Ok(())
        })
        .unwrap();
    assert!(!called, "there were still items in the queue");

    // Ensure metrics were recorded correctly
    assert_eq!(queue.total_builds(), 9);
    assert_eq!(queue.failed_builds(), 1);
}

#[test]
fn test_pending_count() {
    let mut queue = BuildQueue::new(5);

    assert_eq!(queue.pending_count().unwrap(), 0);
    queue.add_crate("foo", "1.0.0", 0, None).unwrap();
    assert_eq!(queue.pending_count().unwrap(), 1);
    queue.add_crate("bar", "1.0.0", 0, None).unwrap();
    assert_eq!(queue.pending_count().unwrap(), 2);

    queue
        .process_next_crate(|krate: &QueuedCrate| -> Result<(), String> {
            assert_eq!("foo", krate.name);
            Ok(())
        })
        .unwrap();
    assert_eq!(queue.pending_count().unwrap(), 1);
}

#[test]
fn test_prioritized_count() {
    let mut queue = BuildQueue::new(5);

    assert_eq!(queue.prioritized_count().unwrap(), 0);
    queue.add_crate("foo", "1.0.0", 0, None).unwrap();
    assert_eq!(queue.prioritized_count().unwrap(), 1);
    queue.add_crate("bar", "1.0.0", -100, None).unwrap();
    assert_eq!(queue.prioritized_count().unwrap(), 2);
    queue.add_crate("baz", "1.0.0", 100, None).unwrap();
    assert_eq!(queue.prioritized_count().unwrap(), 2);

    queue
        .process_next_crate(|krate: &QueuedCrate| -> Result<(), String> {
            assert_eq!("bar", krate.name);
            Ok(())
        })
        .unwrap();
    assert_eq!(queue.prioritized_count().unwrap(), 1);
}

#[test]
fn test_failed_count() {
    const MAX_ATTEMPTS: u32 = 3;
    let mut queue = BuildQueue::new(MAX_ATTEMPTS);

    assert_eq!(queue.failed_count().unwrap(), 0);
    queue.add_crate("foo", "1.0.0", -100, None).unwrap();
    assert_eq!(queue.failed_count().unwrap(), 0);
    queue.add_crate("bar", "1.0.0", 0, None).unwrap();

    for _ in 0..MAX_ATTEMPTS {
        assert_eq!(queue.failed_count().unwrap(), 0);
        queue
            .process_next_crate(|krate: &QueuedCrate| -> Result<(), String> {
                assert_eq!("foo", krate.name);
                Err("this failed".to_string())
            })
            .unwrap();
    }
    assert_eq!(queue.failed_count().unwrap(), 1);

    queue
        .process_next_crate(|krate: &QueuedCrate| -> Result<(), String> {
            assert_eq!("bar", krate.name);
            Ok(())
        })
        .unwrap();
    assert_eq!(queue.failed_count().unwrap(), 1);
}

#[test]
fn test_queued_crates() {
    let mut queue = BuildQueue::new(5);

    let test_crates = [
        ("bar", "1.0.0", 0),
        ("foo", "1.0.0", -10),
        ("baz", "1.0.0", 10),
    ];
    for krate in &test_crates {
        queue.add_crate(krate.0, krate.1, krate.2, None).unwrap();
    }

    assert_eq!(
        vec![
            ("foo", "1.0.0", -10),
            ("bar", "1.0.0", 0),
            ("baz", "1.0.0", 10),
        ],
        queue
            .queued_crates()
            .unwrap()
            .iter()
            .map(|c| (c.name.as_str(), c.version.as_str(), c.priority))
            .collect::<Vec<_>>()
    );
}

#[test]
fn test_last_seen_reference_in_db() {
    let mut queue = BuildQueue::new(5);
    queue.unlock().unwrap();
    assert!(!queue.is_locked().unwrap());
    // initial reference is empty
    assert_eq!(queue.last_seen_reference().unwrap(), None);
    assert!(!queue.is_locked().unwrap());

    let oid = IndexReference::parse("ffffffff").unwrap();
    queue.set_last_seen_reference(&oid).unwrap();

    assert_eq!(queue.last_seen_reference().unwrap(), Some(oid));
    assert!(!queue.is_locked().unwrap());
}

#[test]
fn test_broken_db_reference_breaks() {
    let mut queue = BuildQueue::new(5);
    queue.config.set_last_seen_reference("invalid".to_string());

    assert!(queue.last_seen_reference().is_err());
}

#[test]
fn test_queue_lock() {
    let mut queue = BuildQueue::new(5);
    // unlocked without config
    assert!(!queue.is_locked().unwrap());

    queue.lock().unwrap();
    assert!(queue.is_locked().unwrap());

    queue.unlock().unwrap();
    assert!(!queue.is_locked().unwrap());
}
