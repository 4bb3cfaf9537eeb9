use std::io;

use haystack_ui::filters::{recent_filter_suggestions, RecentFilter};
use haystack_ui::instance::{
    after_forward, after_lock, is_lock_contention, lock_contention, AfterForward, AfterLock,
    LockAttempt,
};

#[test]
fn lock_contention_is_retryable() {
    assert!(is_lock_contention(&io::Error::from(io::ErrorKind::WouldBlock), false));
    assert!(is_lock_contention(&io::Error::from(io::ErrorKind::WouldBlock), true));
    assert!(is_lock_contention(&io::Error::from_raw_os_error(33), true));
}

#[test]
fn windows_lock_and_sharing_violations_are_contention() {
    assert!(lock_contention(false, Some(33), true));
    assert!(lock_contention(false, Some(32), true));
    assert!(!lock_contention(false, Some(33), false));
    assert!(!lock_contention(false, Some(5), true));
    assert!(is_lock_contention(&io::Error::from_raw_os_error(33), true));
    assert!(!is_lock_contention(&io::Error::from(io::ErrorKind::NotFound), true));
}

#[test]
fn startup_forwards_on_contention_and_retries_until_the_deadline() {
    assert_eq!(after_lock(LockAttempt::Acquired), AfterLock::StartPrimary);
    assert_eq!(after_lock(LockAttempt::Contended), AfterLock::TryForward);
    assert_eq!(after_lock(LockAttempt::Failed), AfterLock::Fail);
    assert_eq!(after_forward(true, true), AfterForward::Forwarded);
    assert_eq!(after_forward(false, true), AfterForward::GiveUp);
    assert_eq!(after_forward(false, false), AfterForward::Retry);
}

#[test]
fn recent_filter_suggestions_omit_already_added_filters() {
    let history = vec![
        RecentFilter {
            text: "error".into(),
            case_sensitive: false,
            regex: false,
        },
        RecentFilter {
            text: "warning".into(),
            case_sensitive: true,
            regex: false,
        },
    ];
    let active = vec!["error".to_string()];
    let suggestions = recent_filter_suggestions(&history, &active);
    assert_eq!(suggestions.len(), 1);
    assert_eq!(suggestions[0].text, "warning");
    assert!(suggestions[0].case_sensitive);
}

#[test]
fn forwarded_requests_need_the_exact_token() {
    assert!(haystack_ui::instance::accepts_token("abc", "abc"));
    assert!(!haystack_ui::instance::accepts_token("abc", "abd"));
    assert!(!haystack_ui::instance::accepts_token("", "abc"));
    assert_eq!(haystack_ui::instance::MAX_REQUEST_BYTES, 1024 * 1024);
}
