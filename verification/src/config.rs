//! Defaults of the client's configuration file.

use vstd::prelude::*;

verus! {

/// A bridge is enabled unless the file says otherwise.
pub fn default_true() -> (enabled: bool)
    ensures
        enabled,
{
    true
}

/// Packets go over a single path unless the file says otherwise.
pub fn default_paths() -> (paths: u8)
    ensures
        paths == 1,
{
    1
}

/// The pipe that the user interface connects to.
pub fn default_pipe() -> (pipe: String)
    ensures
        pipe@ == "\\\\.\\pipe\\lowping"@,
{
    "\\\\.\\pipe\\lowping".to_owned()
}

} // verus!
