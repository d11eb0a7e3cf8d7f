//! Failure kinds of locating and driving the signing tool.
use vstd::prelude::*;

verus! {

/// A closed enumeration of the ways locating or invoking the signing tool
/// can fail.
///
/// The locator kinds — `LookupFailed`, `UnsupportedArchitecture` and
/// `NotFound` — are fatal to a whole run: without a tool handle no file can
/// be signed.  The invoker kinds — `SpawnFailed` and `SignToolError` — are
/// fatal only to the one file being signed; a batch goes on to the next.
#[derive(Clone, Debug, PartialEq)]
pub enum CodeSignError {
    /// The installed-roots configuration could not be read (missing key,
    /// missing value or access denied), so no candidate can be derived.
    LookupFailed,
    /// The host processor architecture is neither 32-bit nor 64-bit x86.
    UnsupportedArchitecture,
    /// The configuration was readable but no signing executable exists at
    /// any candidate path.
    NotFound,
    /// The subprocess could not be started at all.
    SpawnFailed { description: String },
    /// The tool started but exited with a non-zero status; carries the
    /// numeric exit code and the captured standard-error text verbatim.
    SignToolError { exit_code: i32, stderr: String },
}

} // verus!
