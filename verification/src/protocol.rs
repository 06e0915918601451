//! Wire frames exchanged between a client and a server.
//!
//! The transport that carries them, and its error type, are
//! asynchronous I/O and live outside the verified library; here are the
//! frames themselves.

use vstd::prelude::*;

verus! {

/// Identifier of a request, chosen by the client.
pub type RequestId = u64;

/// Identifier of a subscription, chosen by the client.
pub type SubId = u64;

/// A frame sent by the client.
#[derive(Debug)]
pub enum OutFrame {
    /// Call the procedure `name` with serialised `args`.
    Call { id: RequestId, name: String, args: Vec<u8> },
    /// Subscribe to the view `name`.
    Subscribe { sub: SubId, name: String },
}

/// A frame received by the client.
#[derive(Debug)]
pub enum InFrame {
    /// The serialised result of the call `id`.
    Reply { id: RequestId, ret: Vec<u8> },
}

impl InFrame {
    /// The request a frame answers.
    pub fn request_id(&self) -> (id: RequestId)
        ensures
            *self matches InFrame::Reply { id: i, .. } && id == i,
    {
        match self {
            InFrame::Reply { id, .. } => *id,
        }
    }
}

} // verus!
