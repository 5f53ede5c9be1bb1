//! The persisted trace: one entry per captured state.
//!
//! The driver appends one line per entry to the trace file and stores the
//! screenshot beside it, named by its timestamp in microseconds and its
//! format's extension.

use vstd::prelude::*;
use vstd::string::StringExecFns;

use crate::actions::BrowserAction;
use crate::ltl::Violation;
use crate::state::{spec_extension, ScreenshotFormat};
use crate::strings::{push_char, spec_decimal, u64_to_decimal};

verus! {

/// A failed property, by name, with its rendered witness.
#[derive(Debug)]
pub struct PropertyViolation {
    pub name: String,
    pub violation: Violation,
}

/// One line of the trace: what was seen, what had just been done, where
/// the screenshot lives, and which properties failed.
#[derive(Debug)]
pub struct TraceEntry {
    pub timestamp: u64,
    pub url: String,
    pub hash_previous: Option<u64>,
    pub hash_current: Option<u64>,
    pub action: Option<BrowserAction>,
    pub screenshot: String,
    pub violations: Vec<PropertyViolation>,
}

/// The stored screenshot's file name: microseconds since the epoch, then
/// the format's extension.
pub fn screenshot_file_name(timestamp_micros: u64, format: ScreenshotFormat) -> (r: String)
    ensures
        r@ == spec_decimal(timestamp_micros as nat) + "."@ + spec_extension(format),
{
    let mut out = u64_to_decimal(timestamp_micros);
    push_char(&mut out, '.');
    out.append(format.extension());
    proof {
        reveal_strlit(".");
        assert("."@ =~= seq!['.']);
        assert(out@ =~= spec_decimal(timestamp_micros as nat) + "."@ + spec_extension(format));
    }
    out
}

} // verus!
