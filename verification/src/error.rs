//! Errors of the device interface.

use vstd::prelude::*;

verus! {

/// What can go wrong when talking to the device.
#[derive(Debug)]
pub enum MakcuError {
    /// The port could not be opened, or is not open.
    Connection(String),
    /// A command failed or was answered with an error.
    Command(String),
    /// No reply came in time for the tracked command with this id.
    Timeout(u32),
}

/// Result of a device operation.
pub type MakcuResult<T> = Result<T, MakcuError>;

/// A command may be sent only to a device that was connected and whose port
/// is open; otherwise the error says that it is not connected.
pub fn ensure_connected(connected: bool, port_open: bool) -> (r: MakcuResult<()>)
    ensures
        r is Ok <==> (connected && port_open),
        r matches Err(e) ==> e matches MakcuError::Connection(m) && m@ == "Not connected"@,
{
    if connected && port_open {
        Ok(())
    } else {
        Err(MakcuError::Connection("Not connected".to_owned()))
    }
}

/// A command can be queued only on an open port; otherwise the error says
/// that the port is not open.
pub fn ensure_port_open(port_open: bool) -> (r: MakcuResult<()>)
    ensures
        r is Ok <==> port_open,
        r matches Err(e) ==> e matches MakcuError::Connection(m) && m@ == "Port not open"@,
{
    if port_open {
        Ok(())
    } else {
        Err(MakcuError::Connection("Port not open".to_owned()))
    }
}

} // verus!
