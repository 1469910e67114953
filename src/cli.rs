//! The program's subcommands.

use vstd::prelude::*;

verus! {

/// Which program to run.
#[derive(Clone, Copy, PartialEq, Eq, Structural)]
pub enum Commands {
    /// The agent: keeps a tunnel open to the hub and answers its commands.
    Client,
    /// The hub: accepts tunnels and proxies requests to them.
    Hub,
}

/// The command line.
#[derive(Clone, Copy, PartialEq, Eq, Structural)]
pub struct Args {
    pub command: Option<Commands>,
}

} // verus!
