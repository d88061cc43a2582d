//! What the command line tool can be asked for.

use crate::msg::Message;
use vstd::prelude::*;

verus! {

/// The arguments of the command line tool.
#[derive(Debug, PartialEq, Eq)]
pub struct Cli {
    pub cmd: CliCommand,
}

/// One command of the command line tool.
#[derive(Debug, PartialEq, Eq)]
pub enum CliCommand {
    /// List of information from all timers
    List,
    /// Get the information of a specific timer
    Get { name: String },
    /// Status bar
    Bar { name: String, size: usize, fill: String, empty: String, left: String, right: String, blink: bool },
    /// Reset a specific timer
    Reset { name: String },
    /// Reset all timers
    ResetAll,
    /// Get duration of running
    Running,
}

impl Clone for Cli {
    fn clone(&self) -> (r: Cli)
        ensures
            r == *self,
    {
        Cli { cmd: self.cmd.clone() }
    }
}

impl Clone for CliCommand {
    fn clone(&self) -> (r: CliCommand)
        ensures
            r == *self,
    {
        match self {
            CliCommand::List => CliCommand::List,
            CliCommand::Get { name } => CliCommand::Get { name: name.clone() },
            CliCommand::Bar { name, size, fill, empty, left, right, blink } => CliCommand::Bar {
                name: name.clone(),
                size: *size,
                fill: fill.clone(),
                empty: empty.clone(),
                left: left.clone(),
                right: right.clone(),
                blink: *blink,
            },
            CliCommand::Reset { name } => CliCommand::Reset { name: name.clone() },
            CliCommand::ResetAll => CliCommand::ResetAll,
            CliCommand::Running => CliCommand::Running,
        }
    }
}

impl vstd::std_specs::convert::FromSpecImpl<CliCommand> for Message {
    open spec fn obeys_from_spec() -> bool {
        true
    }

    /// The request that a command sends: a status bar asks for its timer as
    /// `Get` does.
    open spec fn from_spec(command: CliCommand) -> Message {
        match command {
            CliCommand::List => Message::List,
            CliCommand::Get { name } => Message::Get(name),
            CliCommand::Bar { name, .. } => Message::Get(name),
            CliCommand::Reset { name } => Message::Reset(name),
            CliCommand::ResetAll => Message::ResetAll,
            CliCommand::Running => Message::Running,
        }
    }
}

impl From<CliCommand> for Message {
    fn from(command: CliCommand) -> (message: Message) {
        match command {
            CliCommand::List => Message::List,
            CliCommand::Get { name } => Message::Get(name),
            CliCommand::Bar { name, .. } => Message::Get(name),
            CliCommand::Reset { name } => Message::Reset(name),
            CliCommand::ResetAll => Message::ResetAll,
            CliCommand::Running => Message::Running,
        }
    }
}

} // verus!
