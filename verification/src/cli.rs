//! Host configuration: the command-line options the process is
//! started with. The host parses the command line and hands the
//! library this plain record; only `port` and `bind` select where the
//! service listens, and none of the fields affect core behavior.

use vstd::prelude::*;

verus! {

/// The command-line options of the server process.
pub struct Cli {
    /// Activate debug mode.
    pub debug: bool,
    /// Verbosity level: how often the verbose flag was given.
    pub verbose: u8,
    /// Port to listen on.
    pub port: u16,
    /// Bind address, as the textual form of an IPv4 address.
    pub bind: String,
    /// Files to process, as paths in textual form.
    pub files: Vec<String>,
}

} // verus!
