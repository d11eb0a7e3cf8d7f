//! Locating a platform vendor code-signing tool and driving it over files.
//!
//! The locator ranks installed kit versions, derives candidate directories
//! for the signing executable and resolves the first candidate that is
//! present on the host.  The invoker builds the argument list for one
//! signing run and classifies the subprocess outcome.  All decisions are
//! made here over plain values; reading the host's configuration, probing
//! the filesystem and spawning the subprocess are left to the caller.
use vstd::prelude::*;

pub mod error;
pub mod invoker;
pub mod locator;
pub mod order;

pub use invoker::BatchSummary;
pub use invoker::ProcessOutput;
pub use invoker::SignCommand;
pub use invoker::batch_summary;
pub use invoker::sign_result;

pub use error::CodeSignError;
pub use locator::Architecture;
pub use locator::InstalledRoots;
pub use locator::SignTool;
pub use locator::arch_directory;
pub use locator::candidate_tool_paths;
pub use locator::detect_architecture;
pub use locator::search_order;
pub use order::sort_versions_descending;
pub use order::str_lex_lt;

verus! {

/// Parameters shared read-only by every signing invocation in a batch.
#[derive(Clone, Debug)]
pub struct SignParams {
    /// Name of the digest algorithm handed to the tool, e.g. "sha256".
    pub digest_algorithm: String,
    /// SHA-1 hex identifier selecting a certificate from the host's store.
    pub certificate_thumbprint: String,
    /// Optional timestamp authority URL; omitted from the command when absent.
    pub timestamp_url: Option<String>,
}

} // verus!
