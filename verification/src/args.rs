//! The settings that the command line may give.

use vstd::prelude::*;

verus! {

/// What was given on the command line; each setting may be absent.
pub struct ServiceArguments {
    /// The directory of the snapshot file.
    pub dir: Option<String>,
    /// The name of the snapshot file.
    pub dbfilename: Option<String>,
    /// The port to listen on.
    pub port: Option<usize>,
    /// The primary to follow, as host and port with a space between them.
    pub replicaof: Option<String>,
}

} // verus!
