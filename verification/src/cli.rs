//! Command-line settings of the server.

use vstd::prelude::*;

verus! {

/// How the server talks to its clients.
#[derive(Clone, Copy, Debug, PartialEq, Eq, Structural, PartialOrd, Ord)]
pub enum TransportMode {
    /// Use HTTP.
    Http,
    /// Use standard I/O.
    Stdio,
}

/// The settings given on the command line.
#[derive(Debug)]
pub struct Cli {
    /// Path to configuration file.
    pub config: Option<String>,
    /// Transport to use.
    pub transport: TransportMode,
}

/// The transport used when the command line names none.
pub open spec fn default_transport() -> TransportMode {
    TransportMode::Http
}

/// Builds the settings from what the command line gave: the configuration
/// path as given, and the transport, HTTP when none was given.
pub fn build_cli(config: Option<String>, transport: Option<TransportMode>) -> (cli: Cli)
    ensures
        cli.config == config,
        cli.transport == match transport {
            Some(t) => t,
            None => default_transport(),
        },
{
    let transport = match transport {
        Some(t) => t,
        None => TransportMode::Http,
    };
    Cli { config, transport }
}

} // verus!
