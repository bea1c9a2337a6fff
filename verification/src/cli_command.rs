//! Context handed to a command's action when its pattern matched.

use vstd::prelude::*;

verus! {

/// Context for the execution of the command
pub struct CommandContext {
    /// What followed the matched pattern on the line
    pub args: Vec<u8>,
    /// The path under which the command was registered
    pub current_path: Vec<u8>,
}

impl CommandContext {
    /// The trailing arguments of the matched line.
    pub fn get_args(&self) -> (r: &Vec<u8>)
        ensures
            r@ == self.args@,
    {
        &self.args
    }

    /// The path under which the command was registered.
    pub fn get_current_path(&self) -> (r: &Vec<u8>)
        ensures
            r@ == self.current_path@,
    {
        &self.current_path
    }
}

} // verus!
