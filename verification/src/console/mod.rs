pub mod parser;

use crate::text::{trim, trimmed};
use vstd::prelude::*;

verus! {

/// A command typed at the console.
#[derive(Debug)]
pub enum Command {
    Help,
    Spawn,
    Broadcast,
    Exit,
    Unknown,
}

/// The command that a line of input names, once trimmed.
pub open spec fn command_named(name: Seq<char>) -> Command {
    if name == "help"@ {
        Command::Help
    } else if name == "spawn"@ {
        Command::Spawn
    } else if name == "broadcast"@ {
        Command::Broadcast
    } else if name == "exit"@ {
        Command::Exit
    } else {
        Command::Unknown
    }
}

/// The command that `line` names: its text without leading and trailing
/// whitespace is `help`, `spawn`, `broadcast` or `exit`, or else unknown.
pub fn command_of(line: &str) -> (r: Command)
    ensures
        r == command_named(trimmed(line@)),
{
    let name = trim(line).to_owned();
    if name == "help".to_owned() {
        Command::Help
    } else if name == "spawn".to_owned() {
        Command::Spawn
    } else if name == "broadcast".to_owned() {
        Command::Broadcast
    } else if name == "exit".to_owned() {
        Command::Exit
    } else {
        Command::Unknown
    }
}

} // verus!
