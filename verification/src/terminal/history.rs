//! Command history as structured blocks, kept independently of rendering so
//! that every frontend (and block-aware features) can work on commands
//! rather than on rendered text.
use vstd::prelude::*;

verus! {

/// One command execution unit.
#[derive(Clone, Debug, PartialEq, Eq)]
pub struct CommandBlock {
    pub id: String,
    pub command: String,
    pub output: String,
    pub cwd: String,
    pub exit_code: Option<i32>,
    pub timestamp: u64,
}

impl Default for CommandBlock {
    fn default() -> (b: Self)
        ensures
            b.id@.len() == 0,
            b.command@.len() == 0,
            b.output@.len() == 0,
            b.cwd@.len() == 0,
            b.exit_code is None,
            b.timestamp == 0,
    {
        CommandBlock {
            id: String::new(),
            command: String::new(),
            output: String::new(),
            cwd: String::new(),
            exit_code: None,
            timestamp: 0,
        }
    }
}

} // verus!
