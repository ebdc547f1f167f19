use vstd::prelude::*;

use crate::text::{decimal, decimal_string, str_eq};

verus! {

broadcast use vstd::string::group_string_axioms;

/// The command line.
#[derive(Debug)]
pub struct Cli {
    pub command: Commands,
}

/// The commands of the `gatekeeper` tool.
#[derive(Debug)]
pub enum Commands {
    /// Run the proxy (`standalone` or `node` mode) or the rule-sync server (`central`).
    Run {
        port: u16,
        upstream: String,
        mode: String,
        central: Option<String>,
        config: String,
        log_file: String,
    },
    /// Check a configuration file.
    Test { file: String },
    /// Show the audit log, optionally filtered.
    Inspect { file: String, decision: Option<String>, ip: Option<String> },
    /// Evaluate the requests of a file against the rules.
    Replay { file: String },
    /// Print the Argon2 hash of a password.
    HashPassword { password: String },
}

/// What `run` starts.
#[derive(Debug, Clone, Copy, PartialEq, Eq, Structural)]
pub enum RunMode {
    /// The rule-sync server for nodes.
    Central,
    /// A proxy that takes its rules from a central server.
    Node,
    /// A proxy on its own.
    Standalone,
}

/// The mode that a `--mode` value selects: `central`, `node`, and anything else standalone.
pub open spec fn run_mode_spec(mode: Seq<char>) -> RunMode {
    if mode == "central"@ {
        RunMode::Central
    } else if mode == "node"@ {
        RunMode::Node
    } else {
        RunMode::Standalone
    }
}

/// The mode that a `--mode` value selects.
pub fn run_mode(mode: &str) -> (m: RunMode)
    ensures
        m == run_mode_spec(mode@),
{
    if str_eq(mode, "central") {
        RunMode::Central
    } else if str_eq(mode, "node") {
        RunMode::Node
    } else {
        RunMode::Standalone
    }
}

/// Where the rule-sync server listens by default: loopback, one port above the proxy's.
pub open spec fn default_grpc_addr_spec(port: u16) -> Seq<char> {
    "127.0.0.1:"@ + decimal((port + 1) as nat)
}

/// The default address of the rule-sync server for a proxy on `port`.
pub fn default_grpc_addr(port: u16) -> (s: String)
    requires
        port < u16::MAX,
    ensures
        s@ == default_grpc_addr_spec(port),
{
    let mut s = "127.0.0.1:".to_owned();
    let p = decimal_string((port + 1) as u128);
    s.append(p.as_str());
    s
}

/// The name of a node, from its proxy port: `node-<port>`.
pub fn node_id(port: u16) -> (s: String)
    ensures
        s@ == "node-"@ + decimal(port as nat),
{
    let mut s = "node-".to_owned();
    let p = decimal_string(port as u128);
    s.append(p.as_str());
    s
}

} // verus!
