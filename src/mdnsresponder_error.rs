//! Errors of the library.
use vstd::prelude::*;

verus! {

/// Why reading a frame from the socket's byte stream did not yield a message.
#[derive(Debug, Clone, Copy, PartialEq, Eq, Structural)]
pub enum InternalError {
    /// More bytes must arrive before the frame is complete.
    IncompleteFrame,
    /// The frame's header cannot be read.
    FrameParsingFailed,
}

/// Errors that reach users of the library.
#[derive(Debug, Clone, Copy, PartialEq, Eq, Structural)]
pub enum MDnsResponderError {
    /// The event channel's capacity was zero.
    ChannelCreationFailed,
    /// The daemon's socket could not be connected.
    IpcConnectionCreationFailed,
    /// A request could not be written to the socket.
    IpcWriteFailed,
}

impl MDnsResponderError {
    /// The sentence that describes the error.
    pub open spec fn spec_message(self) -> Seq<char> {
        match self {
            MDnsResponderError::ChannelCreationFailed => "Failed to create channel"@,
            MDnsResponderError::IpcConnectionCreationFailed => "Failed to create IPC connection"@,
            MDnsResponderError::IpcWriteFailed => "Failed to write to IPC"@,
        }
    }

    /// The sentence that describes the error.
    pub fn message(&self) -> (r: &'static str)
        ensures
            r@ == self.spec_message(),
    {
        match self {
            MDnsResponderError::ChannelCreationFailed => "Failed to create channel",
            MDnsResponderError::IpcConnectionCreationFailed => "Failed to create IPC connection",
            MDnsResponderError::IpcWriteFailed => "Failed to write to IPC",
        }
    }
}

/// Checks the capacity asked for the event channel: it must be at least one.
pub fn channel_capacity(capacity: usize) -> (r: Result<usize, MDnsResponderError>)
    ensures
        capacity > 0 ==> r == Ok::<usize, MDnsResponderError>(capacity),
        capacity == 0 ==> r == Err::<usize, MDnsResponderError>(
            MDnsResponderError::ChannelCreationFailed,
        ),
{
    if capacity == 0 {
        Err(MDnsResponderError::ChannelCreationFailed)
    } else {
        Ok(capacity)
    }
}

} // verus!
