//! The tool's configuration as plain data. The unverified shell parses the
//! command line into its own flag structure and converts into this one, which
//! the pipeline logic reads.

use vstd::prelude::*;

verus! {

/// Every switch and value the tool accepts, already parsed.
pub struct Args {
    /// Files to stage; everything is staged when none are named.
    pub add: Option<Vec<String>>,
    /// Preview the commands without running any.
    pub dryrun: bool,
    /// The commit message.
    pub commitmessage: Option<String>,
    /// Print the version and stop.
    pub version: bool,
    /// Print help and stop.
    pub help: bool,
    /// Print a greeting and stop.
    pub meow: bool,
    /// Reserved: hand the pipeline over to direct command running.
    pub run: bool,
    /// Upstream branch to set while pushing.
    pub upstream: Option<String>,
    /// Force level: one adds the lease-guarded flag, two or more the
    /// unconditional one.
    pub force: u8,
    /// Verbosity level.
    pub verbose: u8,
    /// Stop the pipeline at the first failed stage.
    pub exitonerror: bool,
}

} // verus!
