//! Failure taxonomy for flag lookup and identity resolution.

use vstd::prelude::*;

verus! {

/// A typed failure.
///
/// - `Io`: a file could not be opened or fully read; carries the file
///   path and the underlying OS error text.
/// - `NotFound`: a requested flag was absent, or present only with a
///   value that trims to empty; carries the flag name and source path.
/// - `Construction`: a lookup failed while an identity was being built;
///   names the effective level under construction and wraps the cause.
#[derive(Debug)]
pub enum IdentityError {
    Io { path: String, detail: String },
    NotFound { flag: String, path: String },
    Construction { level: String, cause: Box<IdentityError> },
}

} // verus!
