//! Errors reported by the library.
use vstd::prelude::*;

verus! {

/// Why an operation of the library failed.
#[derive(Debug)]
pub enum ManifestError {
    /// A version string that was extracted from a tag or release name is not a
    /// valid semantic version.
    VersionParse { name: String },
    /// A derived artifact URL is not a valid URL.
    ParseUrl,
}

} // verus!
