//! The command line of Wingman, as values.
use vstd::prelude::*;

verus! {

/// The arguments of the `wingman` command.
pub struct Args {
    pub command: Option<Command>,
}

/// The subcommands of `wingman`.
pub enum Command {
    /// Initialise a new Wingman project.
    Init {
        /// Create the project files whatever the directory holds.
        force: bool,
    },
    /// Build the project into its distribution directory.
    Build {
        /// Watch the sources and rebuild what changes.
        watch: bool,
    },
    /// Serve the site on a web server.
    Serve {
        /// The port to serve on.
        port: u16,
    },
}

/// The port that `serve` uses unless told otherwise.
pub const DEFAULT_PORT: u16 = 3030;

} // verus!
