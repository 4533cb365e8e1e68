//! The messages that pass between the threads of a streaming session.
use vstd::prelude::*;

verus! {

/// What the session loop is told: a line of input, a line from the
/// device, or the end of the input.
#[derive(Debug)]
pub enum Event {
    Input(String),
    Data(String),
    EOF,
}

/// What the session loop asks of the input side: the next line, or stop.
#[derive(Debug, Clone, Copy, PartialEq, Eq, Structural)]
pub enum EventCommand {
    Next,
    Quit,
}

} // verus!
