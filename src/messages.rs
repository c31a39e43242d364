use vstd::prelude::*;

verus! {

/// What the text region of a selection spans.
#[derive(Clone, Copy, Debug, PartialEq, Eq, Structural)]
pub enum Scope {
    Character,
    Line,
}

/// An editing command sent from the window to the editor.
#[derive(Clone, Debug, PartialEq, Eq)]
pub enum Command {
    Open(String),
    Select(Scope),
    Insert(char),
    Delete,
    NewLine,
    Undo,
    Redo,
    MoveLeft,
    MoveRight,
    MoveUp,
    MoveDown,
}

/// A message from the window thread to the editor.
#[derive(Debug)]
pub enum ClientMessage {
    Command(Command),
    Shutdown,
}

/// A message from the editor to the window thread; it carries nothing yet.
#[derive(Clone, Copy, Debug, PartialEq, Eq)]
pub struct ServerMessage;

} // verus!
