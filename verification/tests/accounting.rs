use cleanr::budget::{estimated_entry_memory_bytes, ScanBudgetExceeded, ScanBudgetTracker, ScanError};
use cleanr::config::ScanBudgetLimits;
use cleanr::evidence::{ScanIssue, ScanIssueCode};
use cleanr::identity::{hardlink_identity, FileIdentity, HardlinkAccounting, HardlinkTracker};

fn limits(entries: u64, elapsed_millis: u64, memory: u64, details: u64) -> ScanBudgetLimits {
    ScanBudgetLimits {
        entries,
        elapsed_millis,
        estimated_memory_bytes: memory,
        issue_details: details,
    }
}

#[test]
fn entry_limit_stops_the_scan_after_the_last_allowed_entry() {
    let mut tracker = ScanBudgetTracker::new(limits(2, 0, 0, 0));
    assert!(tracker.retain_entry("/a"));
    assert!(tracker.retain_entry("/b"));
    assert!(!tracker.stopped);
    assert!(!tracker.retain_entry("/c"));
    assert!(tracker.stopped);
    assert_eq!(
        tracker.exceeded,
        vec![ScanBudgetExceeded::EntryCount { limit: 2, observed: 3 }]
    );
}

#[test]
fn memory_estimate_grows_with_the_path() {
    let short = estimated_entry_memory_bytes("/a");
    let long = estimated_entry_memory_bytes("/aaaa");
    assert_eq!(long - short, 6);
    let mut tracker = ScanBudgetTracker::new(limits(0, 0, short, 0));
    assert!(tracker.retain_entry("/a"));
    assert_eq!(tracker.estimated_memory_bytes, short);
    assert!(!tracker.retain_entry("/b"));
    assert_eq!(
        tracker.exceeded,
        vec![ScanBudgetExceeded::EstimatedMemory {
            limit_bytes: short,
            observed_bytes: 2 * short
        }]
    );
    assert_eq!(tracker.estimated_memory_bytes, short);
}

#[test]
fn elapsed_time_is_recorded_once_with_the_longest_observation() {
    let mut tracker = ScanBudgetTracker::new(limits(0, 100, 0, 0));
    assert!(!tracker.check_elapsed(99));
    assert!(tracker.check_elapsed(150));
    assert!(tracker.check_elapsed(120));
    assert!(tracker.check_elapsed(200));
    assert_eq!(
        tracker.exceeded,
        vec![ScanBudgetExceeded::ElapsedTime {
            limit_millis: 100,
            observed_millis: 200
        }]
    );
    let mut unlimited = ScanBudgetTracker::new(limits(0, 0, 0, 0));
    assert!(!unlimited.check_elapsed(u64::MAX));
}

#[test]
fn issue_details_past_the_limit_are_dropped_and_reported_at_finish() {
    let mut tracker = ScanBudgetTracker::new(limits(3, 100, 0, 1));
    let issue = ScanIssue {
        code: ScanIssueCode::PermissionDenied,
        path: Some("/locked".to_string()),
    };
    let error = ScanError {
        path: Some("/locked".to_string()),
        message: "permission denied".to_string(),
    };
    assert!(tracker.record_detail(&issue, Some(&error)));
    assert!(!tracker.record_detail(&issue, None));
    assert_eq!(tracker.error_count, 1);
    assert!(!tracker.stopped);
    tracker.check_elapsed(500);
    for path in ["/a", "/b", "/c", "/d"] {
        tracker.retain_entry(path);
    }
    let exceeded = tracker.finish();
    assert_eq!(
        exceeded,
        vec![
            ScanBudgetExceeded::EntryCount { limit: 3, observed: 4 },
            ScanBudgetExceeded::ElapsedTime {
                limit_millis: 100,
                observed_millis: 500
            },
            ScanBudgetExceeded::IssueDetails { limit: 1, observed: 2 },
        ]
    );
    assert!(tracker.exceeded.is_empty());
}

#[test]
fn files_with_one_link_have_no_identity() {
    assert_eq!(hardlink_identity(1, 2, 1), None);
    assert_eq!(
        hardlink_identity(1, 2, 2),
        Some(FileIdentity { device: 1, inode: 2 })
    );
}

#[test]
fn hardlinked_files_are_counted_once_under_the_least_path() {
    let mut tracker = HardlinkTracker::new();
    let id = Some(FileIdentity { device: 1, inode: 7 });
    assert_eq!(tracker.account_identity(None, 5, "/x", 0), HardlinkAccounting::Count(5));
    assert_eq!(tracker.account_identity(id, 10, "/b/file", 1), HardlinkAccounting::Count(10));
    assert_eq!(tracker.account_identity(id, 10, "/c/file", 2), HardlinkAccounting::Duplicate);
    assert_eq!(
        tracker.account_identity(id, 10, "/a/file", 3),
        HardlinkAccounting::Reassign {
            previous_entry_index: 1,
            size_bytes: 10
        }
    );
    assert_eq!(tracker.account_identity(id, 10, "/b/file", 4), HardlinkAccounting::Duplicate);
    let other = Some(FileIdentity { device: 2, inode: 7 });
    assert_eq!(tracker.account_identity(other, 3, "/z", 5), HardlinkAccounting::Count(3));
}
