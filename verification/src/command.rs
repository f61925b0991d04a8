//! What running an outside command leaves behind, and the decisions the
//! engine takes on it.
//!
//! The library never spawns a process itself: the caller runs the command
//! and hands the captured output in; the decision half lives here, where it
//! is verified.

use vstd::prelude::*;

use crate::strutil::trimmed;

verus! {

/// The captured output of one finished command.
#[derive(Debug)]
pub struct CommandOutput {
    pub stdout: String,
    pub stderr: String,
}

/// The ghost view of a command's output.
pub struct CommandOutputV {
    pub stdout: Seq<char>,
    pub stderr: Seq<char>,
}

impl View for CommandOutput {
    type V = CommandOutputV;

    open spec fn view(&self) -> CommandOutputV {
        CommandOutputV { stdout: self.stdout@, stderr: self.stderr@ }
    }
}

/// A command failure, keeping what the command printed on stderr.
#[derive(Debug)]
pub struct CommandError {
    pub stderr: String,
}

impl CommandError {
    pub fn new(s: CommandOutput) -> (r: CommandError)
        ensures
            r.stderr == s.stderr,
    {
        CommandError { stderr: s.stderr }
    }
}

/// How one command should be run: the caller interprets this and performs
/// the spawn.
pub struct CommandConfig<'a> {
    pub command: &'a str,
    pub current_dir: Option<&'a str>,
    pub stdin: Option<&'a str>,
    pub envs: Option<Vec<StringPair<'a>>>,
}

/// One environment binding handed to a command.
pub struct StringPair<'a> {
    pub key: &'a str,
    pub value: &'a str,
}

/// Whether a `which` probe for a cluster tool succeeded: the tool is
/// installed exactly when the probe command exited cleanly.
pub fn is_installed(probe: &Result<CommandOutput, CommandOutput>) -> (r: bool)
    ensures
        r == (probe is Ok),
{
    probe.is_ok()
}

/// Whether the named cluster exists, decided from what the cluster tool
/// listed: it does exactly when the listing succeeded and its trimmed
/// output is the cluster's name.
pub fn cluster_exists(cluster_name: &str, listing: &Result<CommandOutput, CommandOutput>) -> (r:
    bool)
    ensures
        r == match listing {
            Ok(o) => trimmed(o.stdout@) == cluster_name@,
            Err(_) => false,
        },
{
    match listing {
        Ok(o) => crate::strutil::eq_str(crate::strutil::trim(o.stdout.as_str()), cluster_name),
        Err(_) => false,
    }
}

} // verus!
