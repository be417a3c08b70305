//! The command-line surface: which subcommand runs and where the
//! configuration comes from. Argument parsing itself happens outside
//! the library; these types carry its outcome.

use vstd::prelude::*;

verus! {

/// What the agent is asked to do.
#[derive(Clone, Copy, Debug, PartialEq, Eq, Structural)]
pub enum Command {
    /// Parse and validate configuration, then exit.
    ConfigTest,
    /// Additionally load MIB files and resolve every configured symbol.
    MibTest,
    /// Both of the above.
    PreflightCheck,
    /// Print the Carbon key template of every configured value column.
    ShowOutputKeys,
    /// Collect.
    Run,
}

impl Command {
    /// Whether this command loads MIB files and resolves symbols;
    /// only a bare configuration test does not.
    pub fn loads_mibs(self) -> (r: bool)
        ensures
            r == (self != Command::ConfigTest),
    {
        !matches!(self, Command::ConfigTest)
    }

    /// Whether this command stops once configuration and MIBs have
    /// been checked.
    pub fn is_check_only(self) -> (r: bool)
        ensures
            r == (self == Command::ConfigTest || self == Command::MibTest || self
                == Command::PreflightCheck),
    {
        matches!(self, Command::ConfigTest | Command::MibTest | Command::PreflightCheck)
    }

    /// Whether this command starts collection.
    pub fn runs_collection(self) -> (r: bool)
        ensures
            r == (self == Command::Run),
    {
        matches!(self, Command::Run)
    }
}

/// The parsed command line: one configuration source and a subcommand.
/// `config` and `config_dir` are mutually exclusive.
#[derive(Clone, Debug)]
pub struct Opts {
    pub config: Option<String>,
    pub config_dir: Option<String>,
    pub command: Command,
}

} // verus!
