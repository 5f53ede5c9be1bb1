//! Driver configuration for the browser under test.

use vstd::prelude::*;

verus! {

/// How a managed browser process is launched.
#[derive(Clone, Debug)]
pub struct LaunchOptions {
    pub headless: bool,
    pub user_data_directory: String,
    pub no_sandbox: bool,
    /// A proxy address the browser should route through, if any.
    pub proxy: Option<String>,
}

/// Whether to launch a browser or attach to an existing debug endpoint.
#[derive(Clone, Debug)]
pub enum DebuggerOptions {
    External { remote_debugger: String },
    Managed { launch_options: LaunchOptions },
}

} // verus!
