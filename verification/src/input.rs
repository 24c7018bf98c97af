//! Keys typed by the operator.
use vstd::prelude::*;

verus! {

#[verifier::external_type_specification]
#[verifier::external_body]
pub struct ExIoError(std::io::Error);

/// What a key typed by the operator asks for.
#[derive(Clone, Copy, Debug, PartialEq, Eq, Structural)]
pub enum InputCommand {
    /// Stop what runs.
    Stop,
    /// Quit the program.
    Quit,
    /// Nothing.
    Idle,
}

impl InputCommand {
    /// `q` or `Q` quits, `s` or `S` stops; any other key, or a failed read,
    /// asks for nothing.
    pub fn from_input(input: std::io::Result<u8>) -> (r: InputCommand)
        ensures
            r == match input {
                Ok(key) => if key == 113u8 || key == 81u8 {
                    InputCommand::Quit
                } else if key == 115u8 || key == 83u8 {
                    InputCommand::Stop
                } else {
                    InputCommand::Idle
                },
                Err(_) => InputCommand::Idle,
            },
    {
        if let Ok(key) = input {
            match key {
                113u8 | 81u8 => InputCommand::Quit,
                115u8 | 83u8 => InputCommand::Stop,
                _ => InputCommand::Idle,
            }
        } else {
            InputCommand::Idle
        }
    }
}

} // verus!
