//! The decisions of a client of a remote graph server: which request
//! id a call gets, where an incoming frame goes, and what a reply means
//! for the caller. Channels, tasks and the transport are asynchronous
//! I/O and live outside the verified library; they hand events to a
//! [`Demux`] and carry out the action it returns.

use vstd::prelude::*;

use crate::common::patch::Patch;
use crate::protocol::{InFrame, OutFrame, RequestId};

verus! {

/// A domain error the server returned for a call, as it sent it.
#[derive(Debug)]
pub struct CallError {
    pub payload: Vec<u8>,
}

/// Failure modes of a call.
#[derive(Debug)]
pub enum ClientCallError {
    /// The server processed the request and returned a domain error.
    Call(CallError),
    /// The transport closed before the reply arrived (peer disconnect,
    /// demultiplexer gone, channel closed).
    Closed,
    /// The server sent a frame that is not the reply to this call.
    UnexpectedFrame,
}

impl From<CallError> for ClientCallError {
    fn from(e: CallError) -> (r: Self)
        ensures
            r == ClientCallError::Call(e),
    {
        ClientCallError::Call(e)
    }
}

impl vstd::std_specs::convert::FromSpecImpl<CallError> for ClientCallError {
    open spec fn obeys_from_spec() -> bool {
        true
    }

    open spec fn from_spec(e: CallError) -> Self {
        ClientCallError::Call(e)
    }
}

/// A graph received from the server: the patches that build it.
pub struct ImmutableGraph {
    snapshot: Vec<Patch>,
}

impl ImmutableGraph {
    /// The graph the patches of `snapshot` build.
    pub fn new(snapshot: Vec<Patch>) -> (g: Self)
        ensures
            g.patches() == snapshot@,
    {
        ImmutableGraph { snapshot }
    }

    /// The patches that build the graph.
    pub closed spec fn patches(&self) -> Seq<Patch> {
        self.snapshot@
    }

    /// The patches that build the graph, in order.
    pub fn snapshot(&self) -> (r: &Vec<Patch>)
        ensures
            r@ == self.patches(),
    {
        &self.snapshot
    }
}

/// What the result of the call `id` is, given the frame that arrived
/// for it: its payload where it is the reply to `id`, else
/// `UnexpectedFrame`.
pub fn call_outcome(id: RequestId, frame: InFrame) -> (r: Result<Vec<u8>, ClientCallError>)
    ensures
        match frame {
            InFrame::Reply { id: i, ret } => if i == id {
                r == Ok::<Vec<u8>, ClientCallError>(ret)
            } else {
                r matches Err(ClientCallError::UnexpectedFrame)
            },
        },
{
    match frame {
        InFrame::Reply { id: i, ret } => if i == id {
            Ok(ret)
        } else {
            Err(ClientCallError::UnexpectedFrame)
        },
    }
}

/// Something that happened to the client's connection.
pub enum DemuxEvent {
    /// A caller queued a frame to send; `None` once every caller is gone.
    Outgoing(Option<OutFrame>),
    /// The transport yielded a frame; `None` once the peer closed.
    Incoming(Option<InFrame>),
    /// The transport failed.
    TransportFailed,
}

/// What to do about an event.
pub enum DemuxAction {
    /// Send the frame to the server.
    Send(OutFrame),
    /// Hand the frame to the caller waiting for the request it answers.
    Deliver(InFrame),
    /// Drop the frame: nobody waits for it.
    Discard,
    /// Stop: close the transport and end the connection.
    Stop,
}

/// The routing state of a connection: the calls waiting for a reply
/// and the next request id.
pub struct Demux {
    pending: Vec<RequestId>,
    next_id: RequestId,
}

impl Demux {
    #[verifier::type_invariant]
    closed spec fn distinct(&self) -> bool {
        self.pending@.no_duplicates()
    }

    /// The calls waiting for a reply.
    pub closed spec fn waiting(&self) -> Set<RequestId> {
        self.pending@.to_set()
    }

    /// The id the next call gets.
    pub closed spec fn next(&self) -> RequestId {
        self.next_id
    }

    /// No call waiting; ids start at 0.
    pub fn new() -> (d: Self)
        ensures
            d.waiting() == Set::<RequestId>::empty(),
            d.next() == 0,
    {
        let d = Demux { pending: Vec::new(), next_id: 0 };
        assert(d.pending@.to_set() =~= Set::<RequestId>::empty());
        d
    }

    /// Give a new call its id (ids wrap around) and wait for its reply.
    /// Registering before sending means the reply cannot arrive first.
    pub fn register_call(&mut self) -> (id: RequestId)
        ensures
            id == old(self).next(),
            final(self).next() == old(self).next().wrapping_add(1),
            final(self).waiting() == old(self).waiting().insert(id),
    {
        proof { use_type_invariant(&*self); }
        let id = self.next_id;
        self.next_id = self.next_id.wrapping_add(1);
        let ghost before = self.pending@;
        if self.position(id).is_none() {
            let mut waiting: Vec<RequestId> = Vec::new();
            std::mem::swap(&mut waiting, &mut self.pending);
            waiting.push(id);
            self.pending = waiting;
            assert(self.pending@.to_set() =~= before.to_set().insert(id)) by {
                assert forall|x: RequestId| self.pending@.to_set().contains(x) == before.to_set().insert(id).contains(x) by {
                    if x != id && self.pending@.contains(x) {
                        let k = choose|k: int| 0 <= k < self.pending@.len() && self.pending@[k] == x;
                        assert(before[k] == x);
                    }
                    if before.contains(x) {
                        let k = choose|k: int| 0 <= k < before.len() && before[k] == x;
                        assert(self.pending@[k] == x);
                    }
                    if x == id {
                        assert(self.pending@[before.len() as int] == id);
                    }
                }
            }
        } else {
            assert(self.pending@.to_set() =~= before.to_set().insert(id));
        }
        id
    }

    /// Decide what to do about `ev`: send what callers queue, deliver a
    /// reply to the call waiting for it (which then waits no more),
    /// discard a reply nobody waits for, and stop when the callers or
    /// the peer are gone or the transport fails.
    pub fn step(&mut self, ev: DemuxEvent) -> (a: DemuxAction)
        ensures
            final(self).next() == old(self).next(),
            match ev {
                DemuxEvent::Outgoing(Some(f)) => a == DemuxAction::Send(f) && final(self).waiting() == old(self).waiting(),
                DemuxEvent::Incoming(Some(InFrame::Reply { id, ret })) => if old(self).waiting().contains(id) {
                    a == DemuxAction::Deliver(InFrame::Reply { id, ret }) && final(self).waiting() == old(self).waiting().remove(id)
                } else {
                    a == DemuxAction::Discard && final(self).waiting() == old(self).waiting()
                },
                _ => a == DemuxAction::Stop && final(self).waiting() == old(self).waiting(),
            },
    {
        proof { use_type_invariant(&*self); }
        match ev {
            DemuxEvent::Outgoing(Some(f)) => DemuxAction::Send(f),
            DemuxEvent::Incoming(Some(frame)) => {
                let id = frame.request_id();
                match self.position(id) {
                    Some(i) => {
                        let ghost before = self.pending@;
                        let mut waiting: Vec<RequestId> = Vec::new();
                        std::mem::swap(&mut waiting, &mut self.pending);
                        waiting.remove(i);
                        proof {
                            assert(waiting@ == before.remove(i as int));
                            assert forall|a: int, b: int| 0 <= a < waiting@.len() && 0 <= b < waiting@.len() && a != b
                                implies waiting@[a] != waiting@[b] by {
                                let oa = if a < i { a } else { a + 1 };
                                let ob = if b < i { b } else { b + 1 };
                                assert(waiting@[a] == before[oa]);
                                assert(waiting@[b] == before[ob]);
                            }
                            assert(waiting@.to_set() =~= before.to_set().remove(id)) by {
                                assert forall|x: RequestId| waiting@.to_set().contains(x) == before.to_set().remove(id).contains(x) by {
                                    if waiting@.contains(x) {
                                        let k = choose|k: int| 0 <= k < waiting@.len() && waiting@[k] == x;
                                        if k < i {
                                            assert(before[k] == x);
                                        } else {
                                            assert(before[k + 1] == x);
                                        }
                                    }
                                    if before.contains(x) && x != id {
                                        let k = choose|k: int| 0 <= k < before.len() && before[k] == x;
                                        if k < i {
                                            assert(waiting@[k] == x);
                                        } else {
                                            assert(waiting@[k - 1] == x);
                                        }
                                    }
                                }
                            }
                        }
                        self.pending = waiting;
                        DemuxAction::Deliver(frame)
                    },
                    None => DemuxAction::Discard,
                }
            },
            _ => DemuxAction::Stop,
        }
    }

    /// Where `id` waits, if it does.
    fn position(&self, id: RequestId) -> (r: Option<usize>)
        ensures
            match r {
                Some(i) => i < self.pending@.len() && self.pending@[i as int] == id && self.waiting().contains(id),
                None => !self.waiting().contains(id),
            },
    {
        let mut i: usize = 0;
        while i < self.pending.len()
            invariant
                i <= self.pending@.len(),
                forall|k: int| 0 <= k < i ==> self.pending@[k] != id,
            decreases self.pending@.len() - i,
        {
            if self.pending[i] == id {
                assert(self.pending@.contains(id));
                return Some(i);
            }
            i = i + 1;
        }
        proof {
            if self.pending@.to_set().contains(id) {
                let k = choose|k: int| 0 <= k < self.pending@.len() && self.pending@[k] == id;
            }
        }
        None
    }
}

} // verus!
