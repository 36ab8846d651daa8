use url_translator::error::app_error::{AppError, ErrorContext, ErrorSeverity};
use url_translator::error::error_handler::{ErrorState, MAX_ERROR_HISTORY};

#[test]
fn new_error_is_shown_and_remembered() {
    let mut s = ErrorState::new();
    assert!(!s.is_error_visible());
    let delay = s.handle_error(AppError::rate_limit("slow down"), 10);
    assert_eq!(delay, Some(3000));
    assert!(s.is_error_visible());
    assert_eq!(s.get_current_severity(), Some(ErrorSeverity::Low));
    assert_eq!(s.get_error_history().len(), 1);
    assert_eq!(s.handle_error(AppError::network("x"), 11), Some(5000));
    assert_eq!(s.handle_error(AppError::api("a", "b"), 12), None);
    assert_eq!(s.handle_error(AppError::config("c"), 13), None);
    let h = s.get_error_history();
    assert_eq!(h.len(), 4);
    assert_eq!(h[3].timestamp, 13);
}

#[test]
fn history_keeps_the_newest_fifty() {
    let mut s = ErrorState::default();
    for k in 0..60u64 {
        s.set_error(ErrorContext::new(AppError::unknown("e"), k));
    }
    let h = s.get_error_history();
    assert_eq!(h.len(), MAX_ERROR_HISTORY);
    assert_eq!(h[0].timestamp, 10);
    assert_eq!(h[49].timestamp, 59);
    assert_eq!(s.get_current_error().unwrap().timestamp, 59);
}

#[test]
fn hide_show_and_clear() {
    let mut s = ErrorState::new();
    s.show_error();
    assert!(!s.is_error_visible());
    s.handle_error(AppError::file("x"), 1);
    s.hide_error();
    assert!(!s.is_error_visible());
    assert!(s.get_current_error().is_some());
    s.show_error();
    assert!(s.is_error_visible());
    s.clear_error();
    assert!(!s.is_error_visible());
    assert!(s.get_current_error().is_none());
    assert_eq!(s.get_error_history().len(), 1);
    s.clear_history();
    assert!(s.get_error_history().is_empty());
}

#[test]
fn retrying_the_current_error() {
    let mut s = ErrorState::new();
    assert!(s.retry_current().is_none());
    assert!(!s.can_retry_current(3));
    s.handle_error(AppError::translation("x"), 5);
    assert!(s.can_retry_current(3));
    let r = s.retry_current().unwrap();
    assert_eq!(r.retry_count, 1);
    s.set_error(r.increment_retry().increment_retry());
    assert!(!s.can_retry_current(3));
    s.handle_error(AppError::validation("f", "m"), 6);
    assert!(!s.can_retry_current(3));
}
