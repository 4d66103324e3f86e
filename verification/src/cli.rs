//! The command line: the server takes no options besides `--help` and
//! `--version` (parsed in the binary).

use vstd::prelude::*;

verus! {

/// The parsed command line.
#[derive(Debug, Clone, Copy, PartialEq, Eq, Default)]
pub struct Cli;

} // verus!
