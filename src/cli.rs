use vstd::prelude::*;

verus! {

/// A command line: one subcommand and the output style.
pub struct Cli {
    pub command: Command,
    /// Structured output instead of the human summary.
    pub json: bool,
}

/// The subcommands.
#[allow(inconsistent_fields)]
pub enum Command {
    Host { name: String, pid: Option<u32>, why: bool },
    User { name: String, pid: Option<u32>, why: bool },
    Group { name: String, pid: Option<u32>, why: bool },
    Diff { pid: u32, pid2: u32 },
}

} // verus!
