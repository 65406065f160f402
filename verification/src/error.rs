use vstd::prelude::*;

verus! {

/// Every way a run can fail inside the library's own logic.
#[derive(Clone, Copy, Debug, PartialEq, Eq, Structural)]
pub enum PinError {
    /// A source line has a scheme before `://` that is not recognized.
    UnknownScheme,
    /// A local file path has no final segment to use as a filename.
    MissingFilename,
    /// A URL could not be parsed at all.
    InvalidUrl,
    /// A URL parsed, but has no path segments to take a filename from.
    UrlWithoutPath,
    /// The derived filename would be empty.
    EmptyFilename,
    /// A pin's source carries no `#tag=` suffix, so there is nothing to resolve.
    NoTagConfigured,
    /// A pin entry is a plain file or URL source, which cannot be pinned.
    PinSourceNotGit,
    /// The manifest declares no pins at all.
    NoPinsConfigured,
    /// A `_commit` or `_tag` line was found but no pin was resolved.
    NoPinForSubstitution,
}

} // verus!
