//! What the error display shows: the current error, whether it is visible,
//! and the recent errors.

use vstd::prelude::*;
use crate::error::app_error::{retryable, AppError, ErrorContext, ErrorContextView, ErrorSeverity};

verus! {

/// How many past errors are kept.
pub const MAX_ERROR_HISTORY: usize = 50;

/// The state of the error display.
#[derive(Debug, Clone)]
pub struct ErrorState {
    pub current_error: Option<ErrorContext>,
    pub error_history: Vec<ErrorContext>,
    pub is_visible: bool,
}

/// The contents of the past errors, oldest first.
pub open spec fn history_view(h: Seq<ErrorContext>) -> Seq<ErrorContextView> {
    h.map_values(|c: ErrorContext| c@)
}

/// The past errors after `c` is added: at the end, with the oldest dropped
/// once there are more than `MAX_ERROR_HISTORY`.
pub open spec fn pushed_history(h: Seq<ErrorContextView>, c: ErrorContextView) -> Seq<ErrorContextView> {
    let n = h.push(c);
    if n.len() > MAX_ERROR_HISTORY {
        n.subrange(1, n.len() as int)
    } else {
        n
    }
}

/// How long an error of severity `s` stays shown before it hides itself,
/// in milliseconds; `None` for errors the user must close.
pub open spec fn auto_hide_delay(s: ErrorSeverity) -> Option<u32> {
    match s {
        ErrorSeverity::Low => Some(3000),
        ErrorSeverity::Medium => Some(5000),
        _ => None,
    }
}

/// The contents of an optional context.
pub open spec fn current_view(c: Option<ErrorContext>) -> Option<ErrorContextView> {
    match c {
        Some(x) => Some(x@),
        None => None,
    }
}

impl ErrorState {
    /// At most `MAX_ERROR_HISTORY` past errors are kept.
    pub open spec fn wf(&self) -> bool {
        self.error_history@.len() <= MAX_ERROR_HISTORY
    }

    /// No error, nothing shown.
    pub fn new() -> (r: ErrorState)
        ensures
            r.wf(),
            r.current_error is None,
            r.error_history@.len() == 0,
            !r.is_visible,
    {
        ErrorState { current_error: None, error_history: Vec::new(), is_visible: false }
    }

    /// Shows `context` and adds it to the past errors. Returns how long it
    /// stays shown before it hides itself (`None`: until the user closes it).
    pub fn set_error(&mut self, context: ErrorContext) -> (delay: Option<u32>)
        requires
            old(self).wf(),
        ensures
            final(self).wf(),
            history_view(final(self).error_history@) == pushed_history(history_view(old(self).error_history@), context@),
            current_view(final(self).current_error) == Some(context@),
            final(self).is_visible,
            delay == auto_hide_delay(context.severity),
    {
        let ghost h0 = history_view(self.error_history@);
        self.error_history.push(context.duplicate());
        assert(history_view(self.error_history@) =~= h0.push(context@)) by {
            assert forall|j: int| 0 <= j < self.error_history@.len() implies #[trigger] history_view(self.error_history@)[j] == h0.push(context@)[j] by {
                if j < self.error_history@.len() - 1 {
                    assert(self.error_history@[j] == old(self).error_history@[j]);
                }
            }
        }
        if self.error_history.len() > MAX_ERROR_HISTORY {
            let ghost h1 = history_view(self.error_history@);
            let ghost e1 = self.error_history@;
            self.error_history.remove(0);
            assert(history_view(self.error_history@) =~= h1.subrange(1, h1.len() as int)) by {
                assert forall|j: int| 0 <= j < self.error_history@.len() implies #[trigger] history_view(self.error_history@)[j] == h1.subrange(1, h1.len() as int)[j] by {
                    assert(self.error_history@[j] == e1[j + 1]);
                }
            }
        }
        let delay = match context.severity {
            ErrorSeverity::Low => Some(3000u32),
            ErrorSeverity::Medium => Some(5000u32),
            _ => None,
        };
        self.current_error = Some(context);
        self.is_visible = true;
        delay
    }

    /// Shows `error`, which happened at `timestamp`, as `set_error` does.
    pub fn handle_error(&mut self, error: AppError, timestamp: u64) -> (delay: Option<u32>)
        requires
            old(self).wf(),
        ensures
            final(self).wf(),
            history_view(final(self).error_history@) == pushed_history(
                history_view(old(self).error_history@),
                crate::error::app_error::fresh_context(error, timestamp),
            ),
            current_view(final(self).current_error) == Some(crate::error::app_error::fresh_context(error, timestamp)),
            final(self).is_visible,
            delay == auto_hide_delay(crate::error::app_error::severity_of(error)),
    {
        let context = ErrorContext::new(error, timestamp);
        self.set_error(context)
    }

    /// Forgets the current error and hides the display.
    pub fn clear_error(&mut self)
        ensures
            final(self).current_error is None,
            !final(self).is_visible,
            final(self).error_history == old(self).error_history,
    {
        self.current_error = None;
        self.is_visible = false;
    }

    /// Hides the display; the current error stays.
    pub fn hide_error(&mut self)
        ensures
            *final(self) == (ErrorState { is_visible: false, ..*old(self) }),
    {
        self.is_visible = false;
    }

    /// Shows the display again if there is a current error.
    pub fn show_error(&mut self)
        ensures
            *final(self) == (ErrorState { is_visible: old(self).is_visible || old(self).current_error is Some, ..*old(self) }),
    {
        if self.current_error.is_some() {
            self.is_visible = true;
        }
    }

    /// A copy of the current error.
    pub fn get_current_error(&self) -> (r: Option<ErrorContext>)
        ensures
            current_view(r) == current_view(self.current_error),
    {
        match &self.current_error {
            Some(c) => Some(c.duplicate()),
            None => None,
        }
    }

    /// The severity of the current error.
    pub fn get_current_severity(&self) -> (r: Option<ErrorSeverity>)
        ensures
            r == match self.current_error {
                Some(c) => Some(c.severity),
                None => None::<ErrorSeverity>,
            },
    {
        match &self.current_error {
            Some(c) => Some(c.severity),
            None => None,
        }
    }

    /// Whether the display is shown.
    pub fn is_error_visible(&self) -> (r: bool)
        ensures
            r == self.is_visible,
    {
        self.is_visible
    }

    /// Copies of the past errors, oldest first.
    pub fn get_error_history(&self) -> (r: Vec<ErrorContext>)
        ensures
            history_view(r@) == history_view(self.error_history@),
    {
        let mut r: Vec<ErrorContext> = Vec::new();
        let mut i: usize = 0;
        while i < self.error_history.len()
            invariant
                i <= self.error_history@.len(),
                r@.len() == i,
                forall|j: int| 0 <= j < i ==> #[trigger] r@[j]@ == self.error_history@[j]@,
            decreases self.error_history.len() - i,
        {
            r.push(self.error_history[i].duplicate());
            i += 1;
        }
        assert(history_view(r@) =~= history_view(self.error_history@));
        r
    }

    /// Forgets the past errors.
    pub fn clear_history(&mut self)
        ensures
            final(self).wf(),
            final(self).error_history@.len() == 0,
            final(self).current_error == old(self).current_error,
            final(self).is_visible == old(self).is_visible,
    {
        self.error_history = Vec::new();
    }

    /// The current error with one more retry counted, if there is one.
    pub fn retry_current(&self) -> (r: Option<ErrorContext>)
        requires
            self.current_error matches Some(c) ==> c.retry_count < u32::MAX,
        ensures
            current_view(r) == match self.current_error {
                Some(c) => Some(ErrorContextView { retry_count: (c.retry_count + 1) as u32, ..c@ }),
                None => None,
            },
    {
        match &self.current_error {
            Some(c) => Some(c.duplicate().increment_retry()),
            None => None,
        }
    }

    /// Whether the current error may be retried once more.
    pub fn can_retry_current(&self, max_retries: u32) -> (r: bool)
        ensures
            r == match self.current_error {
                Some(c) => retryable(c.error) && c.retry_count < max_retries,
                None => false,
            },
    {
        match &self.current_error {
            Some(c) => c.can_retry(max_retries),
            None => false,
        }
    }
}

impl Default for ErrorState {
    fn default() -> (r: ErrorState)
        ensures
            r.wf(),
            r.current_error is None,
            r.error_history@.len() == 0,
            !r.is_visible,
    {
        ErrorState::new()
    }
}

} // verus!
