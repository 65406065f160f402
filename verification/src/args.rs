use vstd::prelude::*;

verus! {

/// The choices one run is made with: verbosity, the manifest to work on,
/// whether to write the result back, where to write it, and whether to
/// pin commits instead of tag hashes.
#[derive(Debug, Clone)]
pub struct Args {
    pub verbose: u8,
    pub pkgbuild: String,
    pub dry_run: bool,
    pub output: Option<String>,
    pub pin_commit: bool,
}

} // verus!
