//! The names through which a running capture and the `demo open` / `demo
//! focus` / `demo stop` commands find each other, and the capture's roots.

use vstd::prelude::*;

verus! {

/// Env var the recorder exports into the captured shell, holding the control path.
pub const CONTROL_ENV: &'static str = "DEMO_CAPTURE_CONTROL";

/// Control file name written in the recorder's working directory.
pub const CONTROL_FILE: &'static str = ".demo-capture";

/// Sidecar (beside the control file) listing the sources configured at capture
/// start, so the live wizards can offer them before the score is written.
pub const SOURCES_FILE: &'static str = ".demo-capture.sources";

/// Sidecar with the capture roots: where `demo capture` was launched and where
/// the shell runs (they differ when the shell runs in an isolated sandbox).
pub const META_FILE: &'static str = ".demo-capture.meta";

/// The capture's roots.
#[derive(Debug, Clone)]
pub struct CaptureMeta {
    pub launch_dir: String,
    pub shell_dir: String,
}

} // verus!
