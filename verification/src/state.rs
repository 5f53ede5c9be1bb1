//! Captured browser state.
//!
//! While the page is paused at a synthetic breakpoint, the driver reads the
//! location, title, content type, navigation history, screenshot and
//! coverage delta, and combines them with the console entries and exceptions
//! buffered by the session machine since the previous capture. The result is
//! a plain value, never mutated after capture.

use vstd::prelude::*;

use crate::coverage::{EdgeBucket, EdgeIndex};

verus! {

#[derive(Clone, Copy, Debug, PartialEq, Eq, Structural)]
pub enum ConsoleEntryLevel {
    Warning,
    Error,
}

/// One console message kept for reporting: its timestamp in milliseconds
/// since the epoch, its severity, and its arguments rendered as JSON text.
#[derive(Clone, Debug)]
pub struct ConsoleEntry {
    pub timestamp: u64,
    pub level: ConsoleEntryLevel,
    pub args: Vec<String>,
}

#[derive(Clone, Debug)]
pub struct CallFrame {
    pub name: String,
    pub line: u32,
    pub column: u32,
    pub url: String,
}

/// An uncaught exception or unhandled promise rejection observed on the page.
#[derive(Clone, Debug)]
pub struct Exception {
    pub text: String,
    pub line: u32,
    pub column: u32,
    pub url: Option<String>,
    pub stacktrace: Option<Vec<CallFrame>>,
}

#[derive(Clone, Debug)]
pub struct NavigationEntry {
    pub id: u32,
    pub title: String,
    pub url: String,
}

/// The navigation history split around the current entry: `back` holds the
/// entries before it and `forward` the entries after it, so the three parts
/// partition the history and never overlap.
#[derive(Clone, Debug)]
pub struct NavigationHistory {
    pub back: Vec<NavigationEntry>,
    pub current: NavigationEntry,
    pub forward: Vec<NavigationEntry>,
}

/// Slice a raw history entry list around the current index.
pub fn slice_history(entries: Vec<NavigationEntry>, index: usize) -> (r: NavigationHistory)
    requires
        index < entries@.len(),
    ensures
        r.back@ == entries@.take(index as int),
        r.current == entries@[index as int],
        r.forward@ == entries@.skip(index as int + 1),
{
    let ghost orig = entries@;
    let mut entries = entries;
    let mut back: Vec<NavigationEntry> = Vec::new();
    let mut i: usize = 0;
    while i < index
        invariant
            i <= index,
            index < orig.len(),
            entries@ == orig.skip(i as int),
            back@ == orig.take(i as int),
        decreases index - i,
    {
        let e = entries.remove(0);
        proof {
            assert(e == orig[i as int]);
            assert(orig.skip(i as int).skip(1) =~= orig.skip(i as int + 1));
            assert(orig.take(i as int + 1) =~= orig.take(i as int).push(orig[i as int]));
        }
        back.push(e);
        i = i + 1;
    }
    let current = entries.remove(0);
    proof {
        assert(current == orig[index as int]);
        assert(orig.skip(index as int).skip(1) =~= orig.skip(index as int + 1));
    }
    let forward = entries;
    NavigationHistory { back, current, forward }
}

#[derive(Clone, Copy, Debug, PartialEq, Eq, Structural)]
pub enum ScreenshotFormat {
    Webp,
    Png,
    Jpeg,
}

pub open spec fn spec_extension(f: ScreenshotFormat) -> Seq<char> {
    match f {
        ScreenshotFormat::Webp => "webp"@,
        ScreenshotFormat::Png => "png"@,
        ScreenshotFormat::Jpeg => "jpeg"@,
    }
}

impl ScreenshotFormat {
    /// The file extension used for stored screenshots of this format.
    pub fn extension(&self) -> (r: &'static str)
        ensures
            r@ == spec_extension(*self),
    {
        match self {
            ScreenshotFormat::Webp => "webp",
            ScreenshotFormat::Png => "png",
            ScreenshotFormat::Jpeg => "jpeg",
        }
    }
}

#[derive(Clone, Debug)]
pub struct Screenshot {
    pub format: ScreenshotFormat,
    pub data: Vec<u8>,
}

#[derive(Clone, Debug)]
pub struct Coverage {
    pub edges_new: Vec<(EdgeIndex, EdgeBucket)>,
}

/// Everything observed at one quiescent point. Timestamps are milliseconds
/// since the epoch.
#[derive(Clone, Debug)]
pub struct BrowserState {
    pub timestamp: u64,
    pub url: String,
    pub title: String,
    pub content_type: String,
    pub console_entries: Vec<ConsoleEntry>,
    pub navigation_history: NavigationHistory,
    pub exceptions: Vec<Exception>,
    pub transition_hash: Option<u64>,
    pub coverage: Coverage,
    pub screenshot: Screenshot,
}

} // verus!
