//! Client-side call multiplexer: the fixed table of 256 call slots and the
//! decisions of the connection loop.
//!
//! The loop itself runs in the asynchronous shell; every decision it takes
//! — which ID a submitted call gets, what a received frame means, which
//! handle a response completes — is made here, over the slot table. The
//! table is indexed by call ID, so two outstanding calls can never share
//! one, and a handle leaves the table exactly once.

use crate::wire::changes_view;
use crate::wire::decode_server_message;
use crate::wire::encode_client_message;
use crate::wire::spec_decode_server;
use crate::wire::spec_encode_client;
use crate::wire::ClientMessage;
use crate::wire::ClientMsgView;
use crate::wire::output_view;
use crate::wire::HandlerResult;
use crate::wire::ServerMessage;
use crate::wire::ServerMsgView;
use vstd::prelude::*;

verus! {

/// Number of call slots: one per ID in `0..=255`.
pub const SLOT_COUNT: usize = 256;

/// The outcome of submitting one call to the multiplexer.
pub enum SubmitOutcome<T> {
    /// The call was assigned the lowest free ID and its handle was stored;
    /// the frame is ready to send on the socket.
    Accepted { id: u8, frame: Vec<u8> },
    /// All 256 slots were outstanding; the handle is returned so the caller
    /// can complete it with `TooManyCallsInFlight`. No slot was evicted.
    Rejected { handle: T },
}

/// What one received server frame means for the client.
pub enum ClientFrameAction<T> {
    /// A response to the outstanding call with this ID: the stored handle,
    /// now removed from its slot, must be completed with `output`.
    Deliver { id: u8, handle: T, output: HandlerResult<Vec<u8>> },
    /// A response whose ID has no outstanding call; logged and dropped.
    Stale { id: u8 },
    /// A state-change batch to apply to the local replica.
    Apply { changes: Vec<(String, Vec<u8>)> },
    /// A reserved event envelope; logged and ignored.
    EventIgnored,
    /// Not the encoding of any envelope; logged and dropped, the
    /// connection continues.
    Malformed,
}

/// The client multiplexer state: slot `i` holds the completion handle of
/// the outstanding call with ID `i`, or nothing.
pub struct ClientMux<T> {
    slots: Vec<Option<T>>,
}

impl<T> View for ClientMux<T> {
    type V = Seq<Option<T>>;

    closed spec fn view(&self) -> Seq<Option<T>> {
        self.slots@
    }
}

impl<T> ClientMux<T> {
    /// The table always holds exactly one slot per ID.
    pub open spec fn wf(&self) -> bool {
        self@.len() == SLOT_COUNT
    }

    /// A fresh multiplexer: every slot free, no call outstanding.
    pub fn new() -> (r: Self)
        ensures
            r.wf(),
            forall|i: int| 0 <= i < SLOT_COUNT ==> r@[i] is None,
    {
        let mut slots: Vec<Option<T>> = Vec::new();
        let mut i: usize = 0;
        while i < SLOT_COUNT
            invariant
                i <= SLOT_COUNT,
                slots@.len() == i,
                forall|j: int| 0 <= j < i ==> slots@[j] is None,
            decreases SLOT_COUNT - i,
        {
            slots.push(None);
            i = i + 1;
        }
        ClientMux { slots }
    }

    /// Submits one call: scans for the lowest free ID, stores the handle
    /// there and builds the request frame; if every slot is outstanding,
    /// returns the handle untouched and evicts nothing. Encoding a request
    /// is total, so submission never fails for the request's bytes.
    pub fn submit(&mut self, payload: Vec<u8>, handle: T) -> (r: SubmitOutcome<T>)
        requires
            old(self).wf(),
        ensures
            final(self).wf(),
            match r {
                SubmitOutcome::Accepted { id, frame } => {
                    &&& old(self)@[id as int] is None
                    &&& forall|j: int| 0 <= j < id ==> old(self)@[j] is Some
                    &&& final(self)@ == old(self)@.update(id as int, Some(handle))
                    &&& frame@ == spec_encode_client(
                        ClientMsgView::RpcRequest { id, payload: payload@ },
                    )
                },
                SubmitOutcome::Rejected { handle: h } => {
                    &&& h == handle
                    &&& forall|j: int| 0 <= j < SLOT_COUNT ==> old(self)@[j] is Some
                    &&& final(self)@ == old(self)@
                },
            },
    {
        let mut id: usize = 0;
        while id < SLOT_COUNT
            invariant
                self == old(self),
                self.wf(),
                id <= SLOT_COUNT,
                forall|j: int| 0 <= j < id ==> self@[j] is Some,
            decreases SLOT_COUNT - id,
        {
            if self.slots[id].is_none() {
                let frame = encode_client_message(
                    &ClientMessage::RPCRequest { id: id as u8, internal: payload },
                );
                self.slots[id] = Some(handle);
                return SubmitOutcome::Accepted { id: id as u8, frame };
            }
            id = id + 1;
        }
        SubmitOutcome::Rejected { handle }
    }

    /// Removes and returns the handle outstanding at `id`, freeing the
    /// slot. Every other slot is untouched. The loop uses this when a send
    /// fails after the slot was reserved; a later response with this ID is
    /// then stale.
    pub fn take_handle(&mut self, id: u8) -> (r: Option<T>)
        requires
            old(self).wf(),
        ensures
            final(self).wf(),
            r == old(self)@[id as int],
            final(self)@ == old(self)@.update(id as int, None),
    {
        let mut slot: Option<T> = None;
        core::mem::swap(&mut slot, &mut self.slots[id as usize]);
        slot
    }

    /// Decides what one received frame means, updating the table: a
    /// response frees its slot and surrenders the stored handle exactly
    /// once; every other frame leaves the table unchanged.
    pub fn on_frame(&mut self, bytes: &Vec<u8>) -> (r: ClientFrameAction<T>)
        requires
            old(self).wf(),
        ensures
            final(self).wf(),
            match r {
                ClientFrameAction::Deliver { id, handle, output } => {
                    &&& spec_decode_server(bytes@) == Some(
                        ServerMsgView::RpcResponse { id, output: output_view(output) },
                    )
                    &&& old(self)@[id as int] == Some(handle)
                    &&& final(self)@ == old(self)@.update(id as int, None)
                },
                ClientFrameAction::Stale { id } => {
                    &&& (spec_decode_server(bytes@) matches Some(
                        ServerMsgView::RpcResponse { id: rid, output: _ },
                    ) && rid == id)
                    &&& old(self)@[id as int] is None
                    &&& final(self)@ == old(self)@
                },
                ClientFrameAction::Apply { changes } => {
                    &&& spec_decode_server(bytes@) == Some(
                        ServerMsgView::StateChange { changes: changes_view(changes@) },
                    )
                    &&& final(self)@ == old(self)@
                },
                ClientFrameAction::EventIgnored => {
                    &&& spec_decode_server(bytes@) matches Some(
                        ServerMsgView::NewEvent { payload: _ },
                    )
                    &&& final(self)@ == old(self)@
                },
                ClientFrameAction::Malformed => {
                    &&& spec_decode_server(bytes@) is None
                    &&& final(self)@ == old(self)@
                },
            },
    {
        match decode_server_message(bytes) {
            Some(msg) => match msg {
                ServerMessage::RPCResponse { id, output } => {
                    match self.take_handle(id) {
                        Some(handle) => ClientFrameAction::Deliver { id, handle, output },
                        None => {
                            proof {
                                assert(old(self)@.update(id as int, None) =~= old(self)@);
                            }
                            ClientFrameAction::Stale { id }
                        },
                    }
                },
                ServerMessage::StateChange(changes) => ClientFrameAction::Apply { changes },
                ServerMessage::NewEvent(_) => ClientFrameAction::EventIgnored,
            },
            None => ClientFrameAction::Malformed,
        }
    }
}

/// ID uniqueness: an ID accepted for a new call is never the ID of a call
/// still outstanding. A slot that holds a handle is `Some`, and submission
/// only ever picks a slot that is `None`, so across any interleaving of
/// submissions and completions no two concurrently outstanding calls share
/// an ID.
pub proof fn lemma_submit_ids_distinct<T>(s: Seq<Option<T>>, id1: int, h1: T, id2: int)
    requires
        0 <= id1 < s.len(),
        0 <= id2 < s.len(),
        s.update(id1, Some(h1))[id2] is None,
    ensures
        id1 != id2,
{
}

/// Completion exactness, table half: the handle stored for an accepted
/// call is exactly what its completion later removes, and the removal
/// leaves the slot empty, so no second completion can find it. Together
/// with move semantics on the handle itself — rejection, send failure and
/// delivery each consume it — every call's handle is signalled exactly
/// once, or dropped (cancellation) when the loop exits with the slot
/// still outstanding.
pub proof fn lemma_completion_exactness<T>(s: Seq<Option<T>>, id: int, h: T)
    requires
        0 <= id < s.len(),
    ensures
        s.update(id, Some(h))[id] == Some(h),
        s.update(id, Some(h)).update(id, None)[id] is None,
{
}

/// Response independence: completing the call at one ID leaves every other
/// slot exactly as it was, so a fast call's completion neither waits for
/// nor disturbs a slower call on a different ID.
pub proof fn lemma_slots_independent<T>(s: Seq<Option<T>>, done: int, other: int)
    requires
        0 <= done < s.len(),
        0 <= other < s.len(),
        done != other,
    ensures
        s.update(done, None)[other] == s[other],
{
}

} // verus!
