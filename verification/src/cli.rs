//! The model subcommands the command line accepts. Argument parsing itself
//! belongs to the binary; these are the parsed shapes it hands over.

use vstd::prelude::*;

verus! {

/// One model-management action requested on the command line.
#[derive(Debug)]
pub enum ModelCommand {
    /// List the configured definitions.
    List,
    /// Show one definition, or all of them.
    Config { alias_or_index: Option<String> },
    /// Load a definition on a running server.
    Load { port: u16, tail: bool, json: bool, alias_or_index: String },
    /// List what a running server has loaded.
    Loaded { port: u16 },
    /// Unload a definition from a running server.
    Unload { port: u16, alias_or_index: String },
    /// Fetch or follow a loaded definition's logs.
    Logs { port: u16, tail: bool, json: bool, alias_or_index: String },
}

} // verus!
