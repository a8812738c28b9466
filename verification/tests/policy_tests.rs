use std::cell::{Cell, RefCell};

use build_queue::{
    retry::{backoff_delay_seconds, retry},
    BuildQueue, Change, IndexReference, PackageKind, QueueError, QueuedCrate, Release,
};

fn assert_next(queue: &mut BuildQueue, name: &str) {
    queue
        .process_next_crate(|krate: &QueuedCrate| -> Result<(), String> {
            assert_eq!(name, krate.name);
            Ok(())
        })
        .unwrap();
}

fn assert_next_and_fail(queue: &mut BuildQueue, name: &str) {
    queue
        .process_next_crate(|krate: &QueuedCrate| -> Result<(), String> {
            assert_eq!(name, krate.name);
            Err("simulate a failure".to_string())
        })
        .unwrap();
}

#[test]
fn test_priority_tier_example() {
    let mut queue = BuildQueue::new(3);
    for krate in &[
        ("high-priority-foo", -1000),
        ("high-priority-bar", -1000),
        ("medium", -10),
        ("standard", 0),
        ("low", 1000),
    ] {
        queue.add_crate(krate.0, "1.0.0", krate.1, None).unwrap();
    }

    assert_next(&mut queue, "high-priority-foo");
    assert_next_and_fail(&mut queue, "high-priority-bar");
    // No untried peer is left in the -1000 tier, and priority outranks the
    // attempt count in the selection order, so the failed job is retried
    // before the next tier is touched.
    assert_next(&mut queue, "high-priority-bar");
    assert_next(&mut queue, "medium");
    assert_next(&mut queue, "standard");
    assert_next(&mut queue, "low");
}

#[test]
fn test_process_next_on_empty_queue_does_nothing() {
    let mut queue = BuildQueue::new(3);
    let mut called = false;
    queue
        .process_next_crate(|_: &QueuedCrate| -> Result<(), String> {
            called = true;
            Ok(())
        })
        .unwrap();
    assert!(!called);
    assert_eq!(queue.total_builds(), 0);
}

#[test]
fn test_process_next_on_fully_failed_queue_does_nothing() {
    let mut queue = BuildQueue::new(1);
    queue.add_crate("poison", "1.0.0", 0, None).unwrap();
    assert_next_and_fail(&mut queue, "poison");
    assert_eq!(queue.failed_count().unwrap(), 1);

    let mut called = false;
    queue
        .process_next_crate(|_: &QueuedCrate| -> Result<(), String> {
            called = true;
            Ok(())
        })
        .unwrap();
    assert!(!called);
}

#[test]
fn test_counts_partition() {
    let mut queue = BuildQueue::new(1);
    queue.add_crate("promoted", "1.0.0", -5, None).unwrap();
    queue.add_crate("bulk", "1.0.0", 10, None).unwrap();
    queue.add_crate("standard", "1.0.0", 0, None).unwrap();

    // pending splits into prioritized (priority <= 0) and deprioritized
    assert_eq!(queue.pending_count().unwrap(), 3);
    assert_eq!(queue.prioritized_count().unwrap(), 2);
    assert_eq!(queue.failed_count().unwrap(), 0);

    assert_next_and_fail(&mut queue, "promoted");

    // the failed job left the pending set and only the failed set grew
    assert_eq!(queue.pending_count().unwrap(), 2);
    assert_eq!(queue.prioritized_count().unwrap(), 1);
    assert_eq!(queue.failed_count().unwrap(), 1);
}

#[test]
fn test_parse_reference_pads_and_lowercases() {
    let short = IndexReference::parse("FF").unwrap();
    let full = IndexReference::parse(&("ff".to_string() + &"0".repeat(38))).unwrap();
    assert_eq!(short, full);
    assert_eq!(short.hex_string().len(), 40);
}

#[test]
fn test_parse_reference_rejects_malformed() {
    assert_eq!(IndexReference::parse("").unwrap_err(), QueueError::InvalidReference);
    assert_eq!(IndexReference::parse("invalid").unwrap_err(), QueueError::InvalidReference);
    let too_long = "a".repeat(41);
    assert_eq!(IndexReference::parse(&too_long).unwrap_err(), QueueError::InvalidReference);
    assert!(IndexReference::parse(&"a".repeat(40)).is_ok());
}

#[test]
fn test_broken_reference_leaves_lock_readable() {
    let mut queue = BuildQueue::new(5);
    queue.lock().unwrap();
    queue.config.set_last_seen_reference("not hex".to_string());
    assert!(queue.last_seen_reference().is_err());
    assert!(queue.is_locked().unwrap());
    queue.unlock().unwrap();
    assert!(!queue.is_locked().unwrap());
    assert!(queue.last_seen_reference().is_err());
}

#[test]
fn test_backoff_delays() {
    assert_eq!(backoff_delay_seconds(0), 1);
    assert_eq!(backoff_delay_seconds(1), 2);
    assert_eq!(backoff_delay_seconds(2), 4);
    assert_eq!(backoff_delay_seconds(3), 8);
    assert_eq!(backoff_delay_seconds(31), 2147483648);
}

#[test]
fn test_retry_recovers_after_transient_failures() {
    let calls = Cell::new(0u32);
    let slept = RefCell::new(Vec::new());
    let r: Result<&str, String> = retry(
        || {
            calls.set(calls.get() + 1);
            if calls.get() < 3 {
                Err("transient".to_string())
            } else {
                Ok("done")
            }
        },
        3,
        |d: u64| slept.borrow_mut().push(d),
    );
    assert_eq!(r.unwrap(), "done");
    assert_eq!(calls.get(), 3);
    assert_eq!(*slept.borrow(), vec![2, 4]);
}

#[test]
fn test_retry_returns_last_failure() {
    let calls = Cell::new(0u32);
    let r: Result<(), String> = retry(
        || {
            calls.set(calls.get() + 1);
            Err(format!("failure {}", calls.get()))
        },
        2,
        |_d: u64| {},
    );
    assert_eq!(r.unwrap_err(), "failure 3");
    assert_eq!(calls.get(), 3);
}

#[test]
fn test_get_new_crates_reverses_batch() {
    let mut queue = BuildQueue::new(3);
    let changes = vec![
        Change::Added(Release { name: "pkg".to_string(), version: "1.0.0".to_string() }),
        Change::Added(Release { name: "pkg".to_string(), version: "1.1.0".to_string() }),
        Change::Added(Release { name: "pkg".to_string(), version: "2.0.0".to_string() }),
    ];
    let reference = IndexReference::parse("abc123").unwrap();
    let count = queue
        .get_new_crates(
            &changes,
            None,
            &reference,
            |_name: &String| -> Result<i32, String> { Ok(0) },
            |_n: &String, _v: &String| -> Result<(), String> { Ok(()) },
            |_n: &String| -> Result<(), String> { Ok(()) },
        )
        .unwrap();
    assert_eq!(count, 3);
    assert_eq!(queue.pending_count().unwrap(), 3);

    // the newest release was queued first and is selected first
    let order: Vec<String> = queue
        .queued_crates()
        .unwrap()
        .iter()
        .map(|c| c.version.clone())
        .collect();
    assert_eq!(order, vec!["2.0.0", "1.1.0", "1.0.0"]);
    assert_eq!(queue.last_seen_reference().unwrap(), Some(reference));
}

#[test]
fn test_get_new_crates_applies_priorities_and_collaborators() {
    let mut queue = BuildQueue::new(3);
    let yanked = RefCell::new(Vec::new());
    let deleted = RefCell::new(Vec::new());
    let changes = vec![
        Change::Added(Release { name: "slow".to_string(), version: "1.0.0".to_string() }),
        Change::Yanked(Release { name: "gone".to_string(), version: "0.9.0".to_string() }),
        Change::Deleted("purged".to_string()),
        Change::Added(Release { name: "fast".to_string(), version: "1.0.0".to_string() }),
    ];
    let reference = IndexReference::parse("1234").unwrap();
    let count = queue
        .get_new_crates(
            &changes,
            Some("https://example.invalid/index"),
            &reference,
            |name: &String| -> Result<i32, String> {
                if name == "fast" {
                    Ok(-100)
                } else {
                    Ok(100)
                }
            },
            |n: &String, v: &String| -> Result<(), String> {
                yanked.borrow_mut().push(format!("{}-{}", n, v));
                Ok(())
            },
            |n: &String| -> Result<(), String> {
                deleted.borrow_mut().push(n.clone());
                Ok(())
            },
        )
        .unwrap();
    assert_eq!(count, 2);
    assert_eq!(*yanked.borrow(), vec!["gone-0.9.0"]);
    assert_eq!(*deleted.borrow(), vec!["purged"]);

    let listed = queue.queued_crates().unwrap();
    assert_eq!(listed.len(), 2);
    assert_eq!(listed[0].name, "fast");
    assert_eq!(listed[0].priority, -100);
    assert_eq!(listed[0].registry.as_deref(), Some("https://example.invalid/index"));
    assert_eq!(listed[1].name, "slow");
    assert_eq!(listed[1].priority, 100);
}

#[test]
fn test_get_new_crates_fatal_priority_lookup() {
    let mut queue = BuildQueue::new(3);
    let changes = vec![
        Change::Added(Release { name: "fine".to_string(), version: "1.0.0".to_string() }),
        Change::Added(Release { name: "broken".to_string(), version: "1.0.0".to_string() }),
    ];
    let reference = IndexReference::parse("beef").unwrap();
    let r = queue.get_new_crates(
        &changes,
        None,
        &reference,
        |name: &String| -> Result<i32, String> {
            if name == "broken" {
                Err("policy store unreachable".to_string())
            } else {
                Ok(0)
            }
        },
        |_n: &String, _v: &String| -> Result<(), String> { Ok(()) },
        |_n: &String| -> Result<(), String> { Ok(()) },
    );
    assert_eq!(r.unwrap_err(), "policy store unreachable");
    // the batch aborted before the cursor moved
    assert_eq!(queue.last_seen_reference().unwrap(), None);
}

#[test]
fn test_build_next_queue_package_builds_top_job() {
    let mut queue = BuildQueue::new(3);
    queue.add_crate("with-registry", "1.0.0", -1, Some("https://example.invalid/idx")).unwrap();
    queue.add_crate("plain", "2.0.0", 0, None).unwrap();

    let built = RefCell::new(Vec::new());
    let purges = Cell::new(0u32);
    let processed = queue
        .build_next_queue_package(
            || -> Result<bool, String> { Ok(true) },
            || -> Result<(), String> {
                purges.set(purges.get() + 1);
                Ok(())
            },
            |name: &str, version: &str, kind: PackageKind| -> Result<(), String> {
                let k = match kind {
                    PackageKind::CratesIo => "crates.io".to_string(),
                    PackageKind::Registry(url) => url,
                };
                built.borrow_mut().push(format!("{} {} {}", name, version, k));
                Ok(())
            },
            |_d: u64| {},
        )
        .unwrap();
    assert!(processed);
    assert_eq!(purges.get(), 1);
    assert_eq!(
        *built.borrow(),
        vec!["with-registry 1.0.0 https://example.invalid/idx"]
    );
    assert_eq!(queue.pending_count().unwrap(), 1);
    assert_eq!(queue.total_builds(), 1);

    let processed = queue
        .build_next_queue_package(
            || -> Result<bool, String> { Ok(false) },
            || -> Result<(), String> {
                purges.set(purges.get() + 1);
                Ok(())
            },
            |name: &str, _version: &str, kind: PackageKind| -> Result<(), String> {
                assert!(matches!(kind, PackageKind::CratesIo));
                built.borrow_mut().push(name.to_string());
                Ok(())
            },
            |_d: u64| {},
        )
        .unwrap();
    assert!(processed);
    // an unchanged toolchain purges nothing
    assert_eq!(purges.get(), 1);
    assert_eq!(queue.pending_count().unwrap(), 0);

    let processed = queue
        .build_next_queue_package(
            || -> Result<bool, String> { Ok(false) },
            || -> Result<(), String> { Ok(()) },
            |_n: &str, _v: &str, _k: PackageKind| -> Result<(), String> { Ok(()) },
            |_d: u64| {},
        )
        .unwrap();
    assert!(!processed);
}

#[test]
fn test_build_next_queue_package_locks_on_broken_environment() {
    let mut queue = BuildQueue::new(3);
    queue.add_crate("victim", "1.0.0", 0, None).unwrap();

    let slept = RefCell::new(Vec::new());
    let builds = Cell::new(0u32);
    let processed = queue
        .build_next_queue_package(
            || -> Result<bool, String> { Err("toolchain download failed".to_string()) },
            || -> Result<(), String> { Ok(()) },
            |_n: &str, _v: &str, _k: PackageKind| -> Result<(), String> {
                builds.set(builds.get() + 1);
                Ok(())
            },
            |d: u64| slept.borrow_mut().push(d),
        )
        .unwrap();
    assert!(processed);
    // three retries with exponential backoff, then the queue pauses
    assert_eq!(*slept.borrow(), vec![2, 4, 8]);
    assert_eq!(builds.get(), 0);
    assert!(queue.is_locked().unwrap());
    // the selected job was charged a failed attempt
    assert_eq!(queue.queued_crates().unwrap()[0].attempt, 1);
    assert_eq!(queue.total_builds(), 1);
}

#[test]
fn test_build_failure_is_absorbed_and_counted() {
    let mut queue = BuildQueue::new(2);
    queue.add_crate("flaky", "1.0.0", 0, None).unwrap();
    for round in 1..=2u32 {
        let processed = queue
            .build_next_queue_package(
                || -> Result<bool, String> { Ok(false) },
                || -> Result<(), String> { Ok(()) },
                |_n: &str, _v: &str, _k: PackageKind| -> Result<(), String> {
                    Err("compilation error".to_string())
                },
                |_d: u64| {},
            )
            .unwrap();
        assert!(processed);
        assert_eq!(queue.total_builds(), round as u64);
    }
    // the retry budget of two is spent: the job is retired, not pending
    assert_eq!(queue.pending_count().unwrap(), 0);
    assert_eq!(queue.failed_count().unwrap(), 1);
    assert_eq!(queue.failed_builds(), 1);
    assert!(!queue.is_locked().unwrap());
}
