//! The size bound of the unreliable transport, checked before any send.
use vstd::prelude::*;

verus! {

/// The largest payload, in bytes, that the unreliable transport carries.
pub const MAX_DATAGRAM_LEN: usize = 1600;

/// Why a send was refused before it reached a transport.
#[derive(Clone, Copy, Debug, PartialEq, Eq, Structural)]
pub enum SendError {
    /// The payload is longer than the unreliable transport carries.
    TooLarge,
    /// The connection is not established yet.
    NotConnected,
}

/// Accepts a payload for the unreliable transport exactly when it fits.
pub fn check_datagram(payload: &[u8]) -> (r: Result<(), SendError>)
    ensures
        r is Ok <==> payload@.len() <= MAX_DATAGRAM_LEN,
        r is Err ==> r == Err::<(), SendError>(SendError::TooLarge),
{
    if payload.len() > MAX_DATAGRAM_LEN {
        Err(SendError::TooLarge)
    } else {
        Ok(())
    }
}

} // verus!
