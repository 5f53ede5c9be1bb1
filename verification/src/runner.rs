//! The runner's per-state checks.
//!
//! After each capture the runner verifies that the page itself is sound
//! before going on: the navigation must not have landed on an error
//! status, and the capture must carry no console errors and no uncaught
//! exceptions. The first problem found, in that order, stops the run.

use vstd::prelude::*;

use crate::state::{BrowserState, ConsoleEntryLevel};

verus! {

/// Why a captured page fails the basic health check.
#[derive(Clone, Copy, Debug, PartialEq, Eq, Structural)]
pub enum PageIssue {
    /// The navigation answered with this 4xx or 5xx status.
    HttpErrorStatus { status: u16 },
    /// The console entry at this index is an error.
    ConsoleError { index: usize },
    /// The exception at this index was never caught.
    UncaughtException { index: usize },
}

/// The index of the first console error, or the buffer length.
pub open spec fn spec_first_console_error(entries: Seq<crate::state::ConsoleEntry>, from: int) -> int
    decreases entries.len() - from,
{
    if from < 0 || from >= entries.len() {
        entries.len() as int
    } else if entries[from].level is Error {
        from
    } else {
        spec_first_console_error(entries, from + 1)
    }
}

/// What a captured page is judged to be: an error status wins, then the
/// first console error, then the first uncaught exception.
pub open spec fn spec_check_page(status: Option<u16>, state: BrowserState) -> Result<(), PageIssue> {
    if status matches Some(s) && s >= 400 {
        Err(PageIssue::HttpErrorStatus { status: status.unwrap() })
    } else if spec_first_console_error(state.console_entries@, 0)
        < state.console_entries@.len() as int {
        Err(
            PageIssue::ConsoleError {
                index: spec_first_console_error(state.console_entries@, 0) as usize,
            },
        )
    } else if state.exceptions@.len() > 0 {
        Err(PageIssue::UncaughtException { index: 0 })
    } else {
        Ok(())
    }
}

/// Check a captured page: `Ok` exactly when the navigation status is
/// below 400 (or unreported), no buffered console entry is an error, and
/// no exception was caught.
#[verifier::loop_isolation(false)]
pub fn check_page_ok(status: Option<u16>, state: &BrowserState) -> (r: Result<(), PageIssue>)
    ensures
        r == spec_check_page(status, *state),
{
    if let Some(s) = status {
        if s >= 400 {
            return Err(PageIssue::HttpErrorStatus { status: s });
        }
    }
    let mut i: usize = 0;
    while i < state.console_entries.len()
        invariant
            i <= state.console_entries@.len(),
            spec_first_console_error(state.console_entries@, 0) == spec_first_console_error(
                state.console_entries@,
                i as int,
            ),
        decreases state.console_entries@.len() - i,
    {
        if matches!(state.console_entries[i].level, ConsoleEntryLevel::Error) {
            proof {
                assert(state.console_entries@[i as int].level is Error);
                assert(spec_first_console_error(state.console_entries@, i as int) == i as int);
            }
            return Err(PageIssue::ConsoleError { index: i });
        }
        proof {
            assert(!(state.console_entries@[i as int].level is Error));
            assert(spec_first_console_error(state.console_entries@, i as int)
                == spec_first_console_error(state.console_entries@, i as int + 1));
        }
        i = i + 1;
    }
    if state.exceptions.len() > 0 {
        return Err(PageIssue::UncaughtException { index: 0 });
    }
    Ok(())
}

} // verus!
