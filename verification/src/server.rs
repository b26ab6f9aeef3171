//! What a server worker shares between its connections, and the writer of
//! responses.

use vstd::prelude::*;

pub mod h2writer;
pub mod settings;

verus! {

/// The size of the buffer from which on a writer asks for a pause.
pub const MAX_WRITE_BUFFER_SIZE: usize = 65_536;

/// What a writer says after it took a part of a message.
#[derive(Clone, Copy, Debug, PartialEq, Eq, Structural)]
pub enum WriterState {
    /// It takes more.
    Done,
    /// Its buffer is full: no more until it has drained.
    Pause,
}

} // verus!
