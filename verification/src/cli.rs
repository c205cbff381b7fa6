//! The process roles that the command line selects.

use vstd::prelude::*;

verus! {

/// A process role.
#[derive(Debug)]
pub enum Command {
    /// The unprivileged Web/API and local SOCKS control plane.
    Serve,
    /// The privileged network namespace and OpenVPN helper.
    Netd,
    /// A private SOCKS server inside one worker network namespace.
    Worker { socket: String, require_tun: bool },
    /// Per-network-namespace kernel hardening from a private mount namespace.
    NamespaceSetup,
}

/// The parsed command line.
#[derive(Debug)]
pub struct Arguments {
    pub command: Option<Command>,
}

impl Arguments {
    /// The role to run: the subcommand, or the control plane when none is given.
    pub fn role(self) -> (r: Command)
        ensures
            match self.command {
                Some(c) => r == c,
                None => r == Command::Serve,
            },
    {
        match self.command {
            Some(c) => c,
            None => Command::Serve,
        }
    }
}

} // verus!
