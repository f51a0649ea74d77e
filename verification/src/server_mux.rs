//! Server-side per-connection bookkeeping: the 256-entry busy table and
//! the decisions of the connection loop.
//!
//! The loop owns the WebSocket and is the connection's only writer; each
//! inbound request is dispatched to an independently running handler task,
//! and each finished handler hands its result back to the loop, which
//! frames it here. A request whose ID is already busy is ignored, so one
//! reply is in flight per ID at a time.

use crate::wire::changes_view;
use crate::wire::decode_client_message;
use crate::wire::encode_server_message;
use crate::wire::output_view;
use crate::wire::spec_decode_client;
use crate::wire::spec_encode_server;
use crate::wire::ClientMessage;
use crate::wire::ClientMsgView;
use crate::wire::HandlerResult;
use crate::wire::ServerMessage;
use crate::wire::ServerMsgView;
use vstd::prelude::*;

verus! {

/// Number of server call slots: one per ID in `0..=255`.
pub const BUSY_COUNT: usize = 256;

/// What one received client frame means for the server.
pub enum ServerFrameAction {
    /// A fresh call: its ID is now marked busy and a handler task must be
    /// spawned on the payload.
    Dispatch { id: u8, payload: Vec<u8> },
    /// A call whose ID is already busy: ignored, the first call proceeds
    /// untouched.
    DuplicateId { id: u8 },
    /// Not the encoding of any envelope: the connection is terminated.
    Malformed,
}

/// The server multiplexer state: entry `i` is true while a handler task
/// for the call with ID `i` is running and its reply is still owed.
pub struct ServerMux {
    busy: Vec<bool>,
}

impl View for ServerMux {
    type V = Seq<bool>;

    closed spec fn view(&self) -> Seq<bool> {
        self.busy@
    }
}

impl ServerMux {
    /// The table always holds exactly one entry per ID.
    pub open spec fn wf(&self) -> bool {
        self@.len() == BUSY_COUNT
    }

    /// A fresh connection: no call busy.
    pub fn new() -> (r: Self)
        ensures
            r.wf(),
            forall|i: int| 0 <= i < BUSY_COUNT ==> r@[i] == false,
    {
        let mut busy: Vec<bool> = Vec::new();
        let mut i: usize = 0;
        while i < BUSY_COUNT
            invariant
                i <= BUSY_COUNT,
                busy@.len() == i,
                forall|j: int| 0 <= j < i ==> busy@[j] == false,
            decreases BUSY_COUNT - i,
        {
            busy.push(false);
            i = i + 1;
        }
        ServerMux { busy }
    }

    /// Decides what one received frame means: a fresh request marks its ID
    /// busy and is dispatched; a request on a busy ID is ignored whole, so
    /// the call already running keeps its slot and completes normally; a
    /// malformed frame terminates the connection.
    pub fn on_client_frame(&mut self, bytes: &Vec<u8>) -> (r: ServerFrameAction)
        requires
            old(self).wf(),
        ensures
            final(self).wf(),
            match r {
                ServerFrameAction::Dispatch { id, payload } => {
                    &&& spec_decode_client(bytes@) == Some(
                        ClientMsgView::RpcRequest { id, payload: payload@ },
                    )
                    &&& old(self)@[id as int] == false
                    &&& final(self)@ == old(self)@.update(id as int, true)
                },
                ServerFrameAction::DuplicateId { id } => {
                    &&& (spec_decode_client(bytes@) matches Some(
                        ClientMsgView::RpcRequest { id: rid, payload: _ },
                    ) && rid == id)
                    &&& old(self)@[id as int] == true
                    &&& final(self)@ == old(self)@
                },
                ServerFrameAction::Malformed => {
                    &&& spec_decode_client(bytes@) is None
                    &&& final(self)@ == old(self)@
                },
            },
    {
        match decode_client_message(bytes) {
            Some(msg) => match msg {
                ClientMessage::RPCRequest { id, internal } => {
                    if self.busy[id as usize] {
                        ServerFrameAction::DuplicateId { id }
                    } else {
                        self.busy[id as usize] = true;
                        ServerFrameAction::Dispatch { id, payload: internal }
                    }
                },
            },
            None => ServerFrameAction::Malformed,
        }
    }

    /// Frames the reply of a finished handler task and frees its ID: the
    /// frame is exactly the encoding of the response envelope, and only
    /// this ID's entry changes, so replies for other IDs are unaffected.
    pub fn on_handler_response(&mut self, id: u8, output: HandlerResult<Vec<u8>>) -> (frame: Vec<
        u8,
    >)
        requires
            old(self).wf(),
        ensures
            final(self).wf(),
            final(self)@ == old(self)@.update(id as int, false),
            frame@ == spec_encode_server(
                ServerMsgView::RpcResponse { id, output: output_view(output) },
            ),
    {
        self.busy[id as usize] = false;
        encode_server_message(&ServerMessage::RPCResponse { id, output })
    }

    /// Frames one batch of state changes received from a released guard.
    /// The busy table is untouched: state replication and call dispatch
    /// are independent.
    pub fn on_state_changes(&self, changes: Vec<(String, Vec<u8>)>) -> (frame: Vec<u8>)
        ensures
            frame@ == spec_encode_server(
                ServerMsgView::StateChange { changes: changes_view(changes@) },
            ),
    {
        encode_server_message(&ServerMessage::StateChange(changes))
    }
}

/// Duplicate-ID guard: once a call is dispatched its ID is busy, and a
/// second request carrying the same ID while it is busy is ignored with
/// nothing changed, so the first call still completes normally.
pub proof fn lemma_duplicate_id_guard(s: Seq<bool>, id: int)
    requires
        0 <= id < s.len(),
    ensures
        s.update(id, true)[id] == true,
{
}

} // verus!
