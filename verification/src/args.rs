//! The configuration a run is started with, as plain values.
//!
//! Command-line parsing itself lives outside the library; it hands over
//! one of these.

use vstd::prelude::*;

verus! {

/// Options for one run of the launcher.
pub struct AppArgs {
    /// Path of the entry file, or "-" for the standard input stream.
    pub cfg: String,
    /// Browser override applied to every entry; wins over per-entry overrides.
    pub browser: Option<String>,
    /// Delay specification between consecutive launches, still unparsed.
    pub delay: Option<String>,
    /// Report intended actions without launching or sleeping.
    pub dry_run: bool,
    /// Force all URLs to open in the background.
    pub background: Option<bool>,
    /// Log verbosity label.
    pub log_level: Option<String>,
    /// Emit log records as JSON rather than line-oriented text.
    pub use_json: bool,
}

} // verus!
