//! What the user did in the header and in the connect panel. Drawing the
//! window is the caller's part; it reports these actions back.
use vstd::prelude::*;

verus! {

/// What the connect panel asks for.
#[derive(Debug, Clone, Copy, PartialEq, Eq, Structural)]
pub enum ConnectAction {
    /// Nothing to do.
    Idle,
    /// The Connect button was pressed; the caller opens the connection.
    Connect,
}

/// What the header bar asks for.
#[derive(Debug, Clone, Copy, PartialEq, Eq, Structural)]
pub enum HeaderAction {
    /// Nothing to do.
    Idle,
    Disconnect,
    /// Start logging to the path in the header's Log menu.
    StartLog,
    StopLog,
}

} // verus!
