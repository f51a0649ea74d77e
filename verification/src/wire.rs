//! The three wire envelope kinds and their deterministic, length-delimited
//! binary codec.
//!
//! Every WebSocket binary frame carries exactly one encoded envelope. The
//! codec is total on the encoding side, and the checked decoder accepts a
//! byte string if and only if it is the encoding of some envelope, so equal
//! values produce equal bytes and decoding inverts encoding.

use vstd::bytes::*;
use vstd::prelude::*;
use vstd::slice::*;
use vstd::utf8::*;

verus! {

/// The closed set of per-call failures a completion handle can report.
#[derive(Clone, Copy, Debug, PartialEq, Eq, Structural)]
pub enum RpcHandlerError {
    /// The request bytes could not be decoded by the callee.
    BadInputBytes,
    /// The response bytes could not be decoded by the caller.
    BadOutputBytes,
    /// All 256 call slots were outstanding when the call was submitted.
    TooManyCallsInFlight,
    /// The client has no live connection to send on.
    ClientNotConnected,
    /// The per-connection state mutex was poisoned by a panicking handler.
    StatePoisoned,
}

/// Result type used by handlers and completion handles.
pub type HandlerResult<T> = Result<T, RpcHandlerError>;

/// Envelope sent from client to server.
#[derive(Debug, PartialEq, Eq)]
pub enum ClientMessage {
    /// One RPC call: a slot ID in 0..=255 and the opaque request bytes.
    RPCRequest { id: u8, internal: Vec<u8> },
}

/// Envelope sent from server to client.
#[derive(Debug, PartialEq, Eq)]
pub enum ServerMessage {
    /// The reply to the call that holds the same ID.
    RPCResponse { id: u8, output: HandlerResult<Vec<u8>> },
    /// One batch of field mutations, emitted when a state guard is released.
    StateChange(Vec<(String, Vec<u8>)>),
    /// Reserved for a future event subsystem; ignored on receipt.
    NewEvent(Vec<u8>),
}

/// Mathematical value of one field mutation: the field's stable name and its
/// newly encoded value.
pub struct ChangeView {
    pub name: Seq<char>,
    pub value: Seq<u8>,
}

/// Mathematical value of a client-to-server envelope.
pub enum ClientMsgView {
    RpcRequest { id: u8, payload: Seq<u8> },
}

/// Mathematical value of a server-to-client envelope.
pub enum ServerMsgView {
    RpcResponse { id: u8, output: Result<Seq<u8>, RpcHandlerError> },
    StateChange { changes: Seq<ChangeView> },
    NewEvent { payload: Seq<u8> },
}

/// View of a call result, used to tie delivered outputs to decoded frames.
pub open spec fn output_view(o: HandlerResult<Vec<u8>>) -> Result<Seq<u8>, RpcHandlerError> {
    match o {
        Ok(b) => Ok(b@),
        Err(e) => Err(e),
    }
}

/// View of one `(field name, encoded value)` pair.
pub open spec fn change_view(e: (String, Vec<u8>)) -> ChangeView {
    ChangeView { name: e.0@, value: e.1@ }
}

/// View of a whole batch of `(field name, encoded value)` pairs.
pub open spec fn changes_view(v: Seq<(String, Vec<u8>)>) -> Seq<ChangeView> {
    v.map_values(|e: (String, Vec<u8>)| change_view(e))
}

impl View for ClientMessage {
    type V = ClientMsgView;

    open spec fn view(&self) -> ClientMsgView {
        match self {
            ClientMessage::RPCRequest { id, internal } => ClientMsgView::RpcRequest {
                id: *id,
                payload: internal@,
            },
        }
    }
}

impl View for ServerMessage {
    type V = ServerMsgView;

    open spec fn view(&self) -> ServerMsgView {
        match self {
            ServerMessage::RPCResponse { id, output } => ServerMsgView::RpcResponse {
                id: *id,
                output: match output {
                    Ok(bytes) => Ok(bytes@),
                    Err(e) => Err(*e),
                },
            },
            ServerMessage::StateChange(changes) => ServerMsgView::StateChange {
                changes: changes_view(changes@),
            },
            ServerMessage::NewEvent(payload) => ServerMsgView::NewEvent { payload: payload@ },
        }
    }
}

/// Tag byte of each error variant inside an `RPCResponse` envelope.
pub open spec fn spec_err_tag(e: RpcHandlerError) -> u8 {
    match e {
        RpcHandlerError::BadInputBytes => 0,
        RpcHandlerError::BadOutputBytes => 1,
        RpcHandlerError::TooManyCallsInFlight => 2,
        RpcHandlerError::ClientNotConnected => 3,
        RpcHandlerError::StatePoisoned => 4,
    }
}

/// The error variant a tag byte stands for, if any.
pub open spec fn spec_err_from_tag(t: u8) -> Option<RpcHandlerError> {
    if t == 0 {
        Some(RpcHandlerError::BadInputBytes)
    } else if t == 1 {
        Some(RpcHandlerError::BadOutputBytes)
    } else if t == 2 {
        Some(RpcHandlerError::TooManyCallsInFlight)
    } else if t == 3 {
        Some(RpcHandlerError::ClientNotConnected)
    } else if t == 4 {
        Some(RpcHandlerError::StatePoisoned)
    } else {
        None
    }
}

/// A byte string short enough for its length to be carried in the 8-byte
/// length prefix.
pub open spec fn fits_len(b: Seq<u8>) -> bool {
    b.len() < 0x1_0000_0000_0000_0000
}

/// Length-delimited encoding of an opaque byte string: 8-byte little-endian
/// length, then the bytes themselves.
pub open spec fn spec_encode_blob(b: Seq<u8>) -> Seq<u8> {
    spec_u64_to_le_bytes(b.len() as u64) + b
}

/// Encoding of one field mutation: the UTF-8 bytes of the name as a blob,
/// then the encoded value as a blob.
pub open spec fn spec_encode_change(c: ChangeView) -> Seq<u8> {
    spec_encode_blob(encode_utf8(c.name)) + spec_encode_blob(c.value)
}

/// Concatenated encodings of a batch of field mutations, in batch order.
pub open spec fn spec_encode_changes(cs: Seq<ChangeView>) -> Seq<u8>
    decreases cs.len(),
{
    if cs.len() == 0 {
        Seq::empty()
    } else {
        spec_encode_change(cs[0]) + spec_encode_changes(cs.drop_first())
    }
}

/// Encoding of a client-to-server envelope.
pub open spec fn spec_encode_client(m: ClientMsgView) -> Seq<u8> {
    match m {
        ClientMsgView::RpcRequest { id, payload } => seq![0u8, id] + spec_encode_blob(payload),
    }
}

/// Encoding of a server-to-client envelope.
pub open spec fn spec_encode_server(m: ServerMsgView) -> Seq<u8> {
    match m {
        ServerMsgView::RpcResponse { id, output } => match output {
            Ok(bytes) => seq![0u8, id, 1u8] + spec_encode_blob(bytes),
            Err(e) => seq![0u8, id, 0u8, spec_err_tag(e)],
        },
        ServerMsgView::StateChange { changes } => seq![1u8] + spec_u64_to_le_bytes(
            changes.len() as u64,
        ) + spec_encode_changes(changes),
        ServerMsgView::NewEvent { payload } => seq![2u8] + spec_encode_blob(payload),
    }
}

/// A field mutation whose name and value are short enough to encode.
pub open spec fn wf_change(c: ChangeView) -> bool {
    &&& fits_len(encode_utf8(c.name))
    &&& fits_len(c.value)
}

/// A client envelope the codec is faithful on: every length fits its prefix.
pub open spec fn wf_client_msg(m: ClientMsgView) -> bool {
    match m {
        ClientMsgView::RpcRequest { id, payload } => fits_len(payload),
    }
}

/// A server envelope the codec is faithful on: every length fits its prefix.
pub open spec fn wf_server_msg(m: ServerMsgView) -> bool {
    match m {
        ServerMsgView::RpcResponse { id, output } => match output {
            Ok(bytes) => fits_len(bytes),
            Err(e) => true,
        },
        ServerMsgView::StateChange { changes } => {
            &&& changes.len() < 0x1_0000_0000_0000_0000
            &&& forall|i: int| 0 <= i < changes.len() ==> wf_change(#[trigger] changes[i])
        },
        ServerMsgView::NewEvent { payload } => fits_len(payload),
    }
}

/// Reads the 8-byte little-endian length word at position `i`.
pub open spec fn parse_u64(s: Seq<u8>, i: int) -> Option<(u64, int)> {
    if 0 <= i && i + 8 <= s.len() {
        Some((spec_u64_from_le_bytes(s.subrange(i, i + 8)), i + 8))
    } else {
        None
    }
}

/// Reads one length-delimited byte string starting at position `i`.
pub open spec fn parse_blob(s: Seq<u8>, i: int) -> Option<(Seq<u8>, int)> {
    match parse_u64(s, i) {
        Some((n, j)) => if j + n <= s.len() {
            Some((s.subrange(j, j + n), j + n))
        } else {
            None
        },
        None => None,
    }
}

/// Reads one length-delimited UTF-8 string starting at position `i`.
pub open spec fn parse_string(s: Seq<u8>, i: int) -> Option<(Seq<char>, int)> {
    match parse_blob(s, i) {
        Some((b, j)) => if valid_utf8(b) {
            Some((decode_utf8(b), j))
        } else {
            None
        },
        None => None,
    }
}

/// Reads `n` encoded field mutations starting at position `i`.
pub open spec fn parse_changes(s: Seq<u8>, i: int, n: nat) -> Option<(Seq<ChangeView>, int)>
    decreases n,
{
    if n == 0 {
        Some((Seq::empty(), i))
    } else {
        match parse_string(s, i) {
            Some((name, j)) => match parse_blob(s, j) {
                Some((value, k)) => match parse_changes(s, k, (n - 1) as nat) {
                    Some((rest, m)) => Some(
                        (seq![ChangeView { name, value }] + rest, m),
                    ),
                    None => None,
                },
                None => None,
            },
            None => None,
        }
    }
}

/// The client envelope a byte string encodes, if any. A byte string decodes
/// if and only if it is, in full, the encoding of one envelope.
pub open spec fn spec_decode_client(s: Seq<u8>) -> Option<ClientMsgView> {
    if s.len() < 2 || s[0] != 0u8 {
        None
    } else {
        match parse_blob(s, 2) {
            Some((payload, j)) => if j == s.len() {
                Some(ClientMsgView::RpcRequest { id: s[1], payload })
            } else {
                None
            },
            None => None,
        }
    }
}

/// The server envelope a byte string encodes, if any. A byte string decodes
/// if and only if it is, in full, the encoding of one envelope.
pub open spec fn spec_decode_server(s: Seq<u8>) -> Option<ServerMsgView> {
    if s.len() < 1 {
        None
    } else if s[0] == 0u8 {
        if s.len() < 3 {
            None
        } else if s[2] == 1u8 {
            match parse_blob(s, 3) {
                Some((bytes, j)) => if j == s.len() {
                    Some(ServerMsgView::RpcResponse { id: s[1], output: Ok(bytes) })
                } else {
                    None
                },
                None => None,
            }
        } else if s[2] == 0u8 {
            if s.len() == 4 {
                match spec_err_from_tag(s[3]) {
                    Some(e) => Some(ServerMsgView::RpcResponse { id: s[1], output: Err(e) }),
                    None => None,
                }
            } else {
                None
            }
        } else {
            None
        }
    } else if s[0] == 1u8 {
        match parse_u64(s, 1) {
            Some((n, j)) => match parse_changes(s, j, n as nat) {
                Some((changes, k)) => if k == s.len() {
                    Some(ServerMsgView::StateChange { changes })
                } else {
                    None
                },
                None => None,
            },
            None => None,
        }
    } else if s[0] == 2u8 {
        match parse_blob(s, 1) {
            Some((payload, j)) => if j == s.len() {
                Some(ServerMsgView::NewEvent { payload })
            } else {
                None
            },
            None => None,
        }
    } else {
        None
    }
}

/// The error tag bytes are read back as the variants they stand for.
pub proof fn lemma_err_tag_round_trip(e: RpcHandlerError)
    ensures
        spec_err_from_tag(spec_err_tag(e)) == Some(e),
{
}

/// A length word written at position `i` is read back unchanged.
proof fn lemma_parse_u64_at(s: Seq<u8>, i: int, n: u64)
    requires
        0 <= i,
        i + 8 <= s.len(),
        s.subrange(i, i + 8) == spec_u64_to_le_bytes(n),
    ensures
        parse_u64(s, i) == Some((n, i + 8)),
{
    lemma_auto_spec_u64_to_from_le_bytes();
}

/// A window of `s` known to hold `t` agrees with `t` on every inner window.
proof fn lemma_subrange_within(s: Seq<u8>, i: int, t: Seq<u8>, a: int, b: int)
    requires
        0 <= i,
        i + t.len() <= s.len(),
        s.subrange(i, i + t.len() as int) == t,
        i <= a <= b <= i + t.len(),
    ensures
        s.subrange(a, b) == t.subrange(a - i, b - i),
{
    assert forall|k: int| 0 <= k < b - a implies s.subrange(a, b)[k] == t.subrange(
        a - i,
        b - i,
    )[k] by {
        assert(s.subrange(i, i + t.len() as int)[a - i + k] == t[a - i + k]);
    }
    assert(s.subrange(a, b) =~= t.subrange(a - i, b - i));
}

/// A blob written at position `i` is read back unchanged, with the cursor
/// left just past it.
proof fn lemma_parse_blob_at(s: Seq<u8>, i: int, b: Seq<u8>)
    requires
        0 <= i,
        fits_len(b),
        i + 8 + b.len() <= s.len(),
        s.subrange(i, i + 8 + b.len()) == spec_encode_blob(b),
    ensures
        parse_blob(s, i) == Some((b, i + 8 + b.len())),
{
    lemma_auto_spec_u64_to_from_le_bytes();
    let enc = spec_encode_blob(b);
    let lenb = spec_u64_to_le_bytes(b.len() as u64);
    assert(lenb.len() == 8);
    assert(enc.len() == 8 + b.len());
    lemma_subrange_within(s, i, enc, i, i + 8);
    assert(enc.subrange(0, 8) =~= lenb);
    lemma_parse_u64_at(s, i, b.len() as u64);
    lemma_subrange_within(s, i, enc, i + 8, i + 8 + b.len() as int);
    assert(enc.subrange(8, 8 + b.len() as int) =~= b);
}

/// Encoding a batch of changes and then a second batch writes the two
/// encodings one after the other.
proof fn lemma_encode_changes_append(a: Seq<ChangeView>, b: Seq<ChangeView>)
    ensures
        spec_encode_changes(a + b) == spec_encode_changes(a) + spec_encode_changes(b),
    decreases a.len(),
{
    if a.len() == 0 {
        assert(a + b =~= b);
        assert(spec_encode_changes(a) + spec_encode_changes(b) =~= spec_encode_changes(b));
    } else {
        assert((a + b).drop_first() =~= a.drop_first() + b);
        lemma_encode_changes_append(a.drop_first(), b);
        assert(spec_encode_change((a + b)[0]) + (spec_encode_changes(a.drop_first())
            + spec_encode_changes(b)) =~= spec_encode_changes(a) + spec_encode_changes(b));
    }
}

/// A batch of changes written at position `i` is read back unchanged.
proof fn lemma_parse_changes_at(s: Seq<u8>, i: int, cs: Seq<ChangeView>)
    requires
        0 <= i,
        forall|j: int| 0 <= j < cs.len() ==> wf_change(#[trigger] cs[j]),
        i + spec_encode_changes(cs).len() <= s.len(),
        s.subrange(i, i + spec_encode_changes(cs).len()) == spec_encode_changes(cs),
    ensures
        parse_changes(s, i, cs.len()) == Some((cs, i + spec_encode_changes(cs).len())),
    decreases cs.len(),
{
    if cs.len() == 0 {
        assert(parse_changes(s, i, 0) == Some((Seq::<ChangeView>::empty(), i)));
        assert(cs =~= Seq::<ChangeView>::empty());
    } else {
        let c = cs[0];
        let rest = cs.drop_first();
        let name_bytes = encode_utf8(c.name);
        let enc_c = spec_encode_change(c);
        let enc_rest = spec_encode_changes(rest);
        let total = spec_encode_changes(cs);
        assert(total == enc_c + enc_rest);
        lemma_auto_spec_u64_to_from_le_bytes();

        let blob_n = spec_encode_blob(name_bytes);
        let blob_v = spec_encode_blob(c.value);
        assert(total.len() == enc_c.len() + enc_rest.len());
        assert(enc_c.len() == blob_n.len() + blob_v.len());
        assert(blob_n.len() == 8 + name_bytes.len());
        assert(blob_v.len() == 8 + c.value.len());

        // the name blob
        let name_end = i + 8 + name_bytes.len() as int;
        lemma_subrange_within(s, i, total, i, name_end);
        assert(total.subrange(0, blob_n.len() as int) =~= blob_n) by {
            assert forall|k: int| 0 <= k < blob_n.len() implies total[k] == blob_n[k] by {
                assert(total[k] == (enc_c + enc_rest)[k]);
                assert(enc_c[k] == (blob_n + blob_v)[k]);
            }
        }
        lemma_parse_blob_at(s, i, name_bytes);
        encode_utf8_valid_utf8(c.name);
        encode_utf8_decode_utf8(c.name);
        assert(parse_string(s, i) == Some((c.name, name_end)));

        // the value blob
        let val_end = name_end + 8 + c.value.len() as int;
        lemma_subrange_within(s, i, total, name_end, val_end);
        assert(total.subrange(blob_n.len() as int, enc_c.len() as int) =~= blob_v) by {
            assert forall|k: int| blob_n.len() <= k < enc_c.len() implies total[k] == blob_v[k
                - blob_n.len()] by {
                assert(total[k] == (enc_c + enc_rest)[k]);
                assert(enc_c[k] == (blob_n + blob_v)[k]);
            }
        }
        lemma_parse_blob_at(s, name_end, c.value);

        // the remaining changes
        lemma_subrange_within(s, i, total, val_end, val_end + enc_rest.len() as int);
        assert(total.subrange(enc_c.len() as int, total.len() as int) =~= enc_rest) by {
            assert forall|k: int| enc_c.len() <= k < total.len() implies total[k] == enc_rest[k
                - enc_c.len()] by {
                assert(total[k] == (enc_c + enc_rest)[k]);
            }
        }
        lemma_parse_changes_at(s, val_end, rest);

        assert(seq![c] + rest =~= cs);
        assert(val_end + enc_rest.len() == i + total.len());
    }
}

/// Decoding inverts encoding for client envelopes: every well-formed
/// envelope is read back exactly from its own bytes.
pub proof fn lemma_client_round_trip(m: ClientMsgView)
    requires
        wf_client_msg(m),
    ensures
        spec_decode_client(spec_encode_client(m)) == Some(m),
{
    match m {
        ClientMsgView::RpcRequest { id, payload } => {
            let s = spec_encode_client(m);
            lemma_auto_spec_u64_to_from_le_bytes();
            assert(s.len() == 2 + 8 + payload.len());
            assert(s[0] == 0u8 && s[1] == id);
            assert(s.subrange(2, 2 + 8 + payload.len() as int) =~= spec_encode_blob(payload));
            lemma_parse_blob_at(s, 2, payload);
        },
    }
}

/// Decoding inverts encoding for server envelopes: every well-formed
/// envelope is read back exactly from its own bytes.
pub proof fn lemma_server_round_trip(m: ServerMsgView)
    requires
        wf_server_msg(m),
    ensures
        spec_decode_server(spec_encode_server(m)) == Some(m),
{
    let s = spec_encode_server(m);
    lemma_auto_spec_u64_to_from_le_bytes();
    match m {
        ServerMsgView::RpcResponse { id, output } => {
            match output {
                Ok(bytes) => {
                    assert(s.len() == 3 + 8 + bytes.len());
                    assert(s[0] == 0u8 && s[1] == id && s[2] == 1u8);
                    assert(s.subrange(3, 3 + 8 + bytes.len() as int) =~= spec_encode_blob(bytes));
                    lemma_parse_blob_at(s, 3, bytes);
                },
                Err(e) => {
                    assert(s.len() == 4);
                    assert(s[0] == 0u8 && s[1] == id && s[2] == 0u8 && s[3] == spec_err_tag(e));
                    lemma_err_tag_round_trip(e);
                },
            }
        },
        ServerMsgView::StateChange { changes } => {
            let n = changes.len() as u64;
            let enc = spec_encode_changes(changes);
            assert(s.len() == 9 + enc.len());
            assert(s[0] == 1u8);
            assert(s.subrange(1, 9) =~= spec_u64_to_le_bytes(n));
            lemma_parse_u64_at(s, 1, n);
            assert(s.subrange(9, 9 + enc.len() as int) =~= enc);
            lemma_parse_changes_at(s, 9, changes);
        },
        ServerMsgView::NewEvent { payload } => {
            assert(s.len() == 1 + 8 + payload.len());
            assert(s[0] == 2u8);
            assert(s.subrange(1, 1 + 8 + payload.len() as int) =~= spec_encode_blob(payload));
            lemma_parse_blob_at(s, 1, payload);
        },
    }
}

/// The codec is deterministic and injective: two well-formed envelopes with
/// the same bytes are the same envelope.
pub proof fn lemma_encode_client_injective(a: ClientMsgView, b: ClientMsgView)
    requires
        wf_client_msg(a),
        wf_client_msg(b),
        spec_encode_client(a) == spec_encode_client(b),
    ensures
        a == b,
{
    lemma_client_round_trip(a);
    lemma_client_round_trip(b);
}

/// The codec is deterministic and injective: two well-formed envelopes with
/// the same bytes are the same envelope.
pub proof fn lemma_encode_server_injective(a: ServerMsgView, b: ServerMsgView)
    requires
        wf_server_msg(a),
        wf_server_msg(b),
        spec_encode_server(a) == spec_encode_server(b),
    ensures
        a == b,
{
    lemma_server_round_trip(a);
    lemma_server_round_trip(b);
}

/// Byte-for-byte equality of two byte strings.
pub fn bytes_eq(a: &Vec<u8>, b: &Vec<u8>) -> (r: bool)
    ensures
        r == (a@ == b@),
{
    if a.len() != b.len() {
        return false;
    }
    let mut i: usize = 0;
    while i < a.len()
        invariant
            a@.len() == b@.len(),
            i <= a@.len(),
            forall|j: int| 0 <= j < i ==> a@[j] == b@[j],
        decreases a@.len() - i,
    {
        if a[i] != b[i] {
            return false;
        }
        i = i + 1;
    }
    proof {
        assert(a@ =~= b@);
    }
    true
}

/// Appends the bytes of a slice to the output buffer.
fn push_bytes(dst: &mut Vec<u8>, src: &[u8])
    ensures
        final(dst)@ == old(dst)@ + src@,
{
    let mut i: usize = 0;
    while i < src.len()
        invariant
            i <= src@.len(),
            dst@ == old(dst)@ + src@.subrange(0, i as int),
        decreases src@.len() - i,
    {
        dst.push(*slice_index_get(src, i));
        i = i + 1;
        proof {
            assert(old(dst)@ + src@.subrange(0, i as int) =~= (old(dst)@ + src@.subrange(
                0,
                i - 1,
            )).push(src@[i - 1]));
        }
    }
    proof {
        assert(src@.subrange(0, src@.len() as int) =~= src@);
    }
}

/// Appends one 8-byte little-endian length word.
fn push_le64(dst: &mut Vec<u8>, x: u64)
    ensures
        final(dst)@ == old(dst)@ + spec_u64_to_le_bytes(x),
{
    let mut word = u64_to_le_bytes(x);
    dst.append(&mut word);
}

/// Appends one length-delimited byte string.
fn push_blob(dst: &mut Vec<u8>, b: &[u8])
    ensures
        final(dst)@ == old(dst)@ + spec_encode_blob(b@),
{
    push_le64(dst, b.len() as u64);
    push_bytes(dst, b);
    proof {
        assert(dst@ =~= old(dst)@ + spec_encode_blob(b@));
    }
}

/// The tag byte a given error variant is sent as.
pub fn err_tag(e: RpcHandlerError) -> (t: u8)
    ensures
        t == spec_err_tag(e),
{
    match e {
        RpcHandlerError::BadInputBytes => 0,
        RpcHandlerError::BadOutputBytes => 1,
        RpcHandlerError::TooManyCallsInFlight => 2,
        RpcHandlerError::ClientNotConnected => 3,
        RpcHandlerError::StatePoisoned => 4,
    }
}

/// The error variant a received tag byte stands for, if any.
pub fn err_from_tag(t: u8) -> (r: Option<RpcHandlerError>)
    ensures
        r == spec_err_from_tag(t),
{
    if t == 0 {
        Some(RpcHandlerError::BadInputBytes)
    } else if t == 1 {
        Some(RpcHandlerError::BadOutputBytes)
    } else if t == 2 {
        Some(RpcHandlerError::TooManyCallsInFlight)
    } else if t == 3 {
        Some(RpcHandlerError::ClientNotConnected)
    } else if t == 4 {
        Some(RpcHandlerError::StatePoisoned)
    } else {
        None
    }
}

/// Encodes one client-to-server envelope. Encoding is total and
/// deterministic: the result is exactly `spec_encode_client` of the value.
pub fn encode_client_message(m: &ClientMessage) -> (r: Vec<u8>)
    ensures
        r@ == spec_encode_client(m@),
{
    match m {
        ClientMessage::RPCRequest { id, internal } => {
            let mut out: Vec<u8> = Vec::new();
            out.push(0u8);
            out.push(*id);
            push_blob(&mut out, internal.as_slice());
            proof {
                assert(out@ =~= spec_encode_client(m@));
            }
            out
        },
    }
}

/// One encode step extends the encoding of the batch done so far.
proof fn lemma_encode_changes_snoc(cs: Seq<ChangeView>, i: int)
    requires
        0 <= i < cs.len(),
    ensures
        spec_encode_changes(cs.take(i + 1)) == spec_encode_changes(cs.take(i))
            + spec_encode_change(cs[i]),
{
    assert(cs.take(i + 1) =~= cs.take(i) + seq![cs[i]]);
    lemma_encode_changes_append(cs.take(i), seq![cs[i]]);
    let single = seq![cs[i]];
    assert(single.len() == 1);
    assert(single[0] == cs[i]);
    assert(single.drop_first() =~= Seq::<ChangeView>::empty());
    assert(spec_encode_changes(single.drop_first()) == Seq::<u8>::empty());
    assert(spec_encode_changes(single) == spec_encode_change(cs[i]) + Seq::<u8>::empty());
    assert(spec_encode_change(cs[i]) + Seq::<u8>::empty() =~= spec_encode_change(cs[i]));
}

/// Encodes one server-to-client envelope. Encoding is total and
/// deterministic: the result is exactly `spec_encode_server` of the value.
pub fn encode_server_message(m: &ServerMessage) -> (r: Vec<u8>)
    ensures
        r@ == spec_encode_server(m@),
{
    match m {
        ServerMessage::RPCResponse { id, output } => {
            let mut out: Vec<u8> = Vec::new();
            out.push(0u8);
            out.push(*id);
            match output {
                Ok(bytes) => {
                    out.push(1u8);
                    push_blob(&mut out, bytes.as_slice());
                },
                Err(e) => {
                    out.push(0u8);
                    out.push(err_tag(*e));
                },
            }
            proof {
                assert(out@ =~= spec_encode_server(m@));
            }
            out
        },
        ServerMessage::StateChange(changes) => {
            let ghost cvs = changes_view(changes@);
            let mut out: Vec<u8> = Vec::new();
            out.push(1u8);
            push_le64(&mut out, changes.len() as u64);
            let ghost header = out@;
            let mut i: usize = 0;
            while i < changes.len()
                invariant
                    i <= changes@.len(),
                    cvs == changes_view(changes@),
                    cvs.len() == changes@.len(),
                    header == seq![1u8] + spec_u64_to_le_bytes(changes@.len() as u64),
                    out@ == header + spec_encode_changes(cvs.take(i as int)),
                decreases changes@.len() - i,
            {
                let entry = &changes[i];
                push_blob(&mut out, entry.0.as_str().as_bytes());
                push_blob(&mut out, entry.1.as_slice());
                proof {
                    lemma_encode_changes_snoc(cvs, i as int);
                    assert(cvs[i as int] == change_view(changes@[i as int]));
                    assert(out@ =~= header + spec_encode_changes(cvs.take(i + 1)));
                }
                i = i + 1;
            }
            proof {
                assert(cvs.take(cvs.len() as int) =~= cvs);
                assert(out@ =~= spec_encode_server(m@));
            }
            out
        },
        ServerMessage::NewEvent(payload) => {
            let mut out: Vec<u8> = Vec::new();
            out.push(2u8);
            push_blob(&mut out, payload.as_slice());
            proof {
                assert(out@ =~= spec_encode_server(m@));
            }
            out
        },
    }
}

/// Relies on `String::from_utf8`: it returns `Ok` exactly on valid UTF-8,
/// and the returned string holds exactly the decoded characters of the
/// input bytes.
#[verifier::external_body]
fn string_from_utf8(bytes: Vec<u8>) -> (r: Option<String>)
    ensures
        r matches Some(s) ==> valid_utf8(bytes@) && s@ == decode_utf8(bytes@),
        r is None ==> !valid_utf8(bytes@),
{
    match String::from_utf8(bytes) {
        Ok(s) => Some(s),
        Err(_) => None,
    }
}

/// Reads the 8-byte little-endian length word at `i`, if there is one.
fn read_u64(s: &Vec<u8>, i: usize) -> (r: Option<(u64, usize)>)
    ensures
        match r {
            Some(p) => parse_u64(s@, i as int) == Some((p.0, p.1 as int)) && p.1 <= s@.len(),
            None => parse_u64(s@, i as int) is None,
        },
{
    if i <= s.len() && s.len() - i >= 8 {
        let word = slice_subrange(s.as_slice(), i, i + 8);
        Some((u64_from_le_bytes(word), i + 8))
    } else {
        None
    }
}

/// Reads the length-delimited byte string at `i`, if there is one.
fn read_blob(s: &Vec<u8>, i: usize) -> (r: Option<(Vec<u8>, usize)>)
    ensures
        match r {
            Some(p) => parse_blob(s@, i as int) == Some((p.0@, p.1 as int)) && p.1 <= s@.len(),
            None => parse_blob(s@, i as int) is None,
        },
{
    match read_u64(s, i) {
        Some((n, j)) => {
            if n <= (s.len() - j) as u64 {
                let len = n as usize;
                let body = slice_to_vec(slice_subrange(s.as_slice(), j, j + len));
                Some((body, j + len))
            } else {
                None
            }
        },
        None => None,
    }
}

/// Reads the length-delimited UTF-8 string at `i`, if there is one.
fn read_string(s: &Vec<u8>, i: usize) -> (r: Option<(String, usize)>)
    ensures
        match r {
            Some(p) => parse_string(s@, i as int) == Some((p.0@, p.1 as int)) && p.1 <= s@.len(),
            None => parse_string(s@, i as int) is None,
        },
{
    match read_blob(s, i) {
        Some((body, j)) => {
            match string_from_utf8(body) {
                Some(text) => Some((text, j)),
                None => None,
            }
        },
        None => None,
    }
}

/// Decodes one client-to-server envelope from untrusted bytes. Returns the
/// envelope exactly when the bytes are, in full, the encoding of one;
/// malformed input is rejected, never misread.
pub fn decode_client_message(bytes: &Vec<u8>) -> (r: Option<ClientMessage>)
    ensures
        match r {
            Some(m) => spec_decode_client(bytes@) == Some(m@),
            None => spec_decode_client(bytes@) is None,
        },
{
    if bytes.len() < 2 {
        return None;
    }
    if bytes[0] != 0u8 {
        return None;
    }
    let id = bytes[1];
    match read_blob(bytes, 2) {
        Some((payload, j)) => {
            if j == bytes.len() {
                Some(ClientMessage::RPCRequest { id, internal: payload })
            } else {
                None
            }
        },
        None => None,
    }
}

/// What remains of a batch parse once a prefix of the batch is already in
/// hand: the parsed prefix, then whatever the remaining count yields.
pub open spec fn compose_changes(
    s: Seq<u8>,
    done: Seq<ChangeView>,
    pos: int,
    remaining: nat,
) -> Option<(Seq<ChangeView>, int)> {
    match parse_changes(s, pos, remaining) {
        Some((rest, end)) => Some((done + rest, end)),
        None => None,
    }
}

/// Decodes one server-to-client envelope from untrusted bytes. Returns the
/// envelope exactly when the bytes are, in full, the encoding of one;
/// malformed input is rejected, never misread.
pub fn decode_server_message(bytes: &Vec<u8>) -> (r: Option<ServerMessage>)
    ensures
        match r {
            Some(m) => spec_decode_server(bytes@) == Some(m@),
            None => spec_decode_server(bytes@) is None,
        },
{
    if bytes.len() < 1 {
        return None;
    }
    let tag = bytes[0];
    if tag == 0u8 {
        if bytes.len() < 3 {
            return None;
        }
        let id = bytes[1];
        if bytes[2] == 1u8 {
            match read_blob(bytes, 3) {
                Some((body, j)) => {
                    if j == bytes.len() {
                        Some(ServerMessage::RPCResponse { id, output: Ok(body) })
                    } else {
                        None
                    }
                },
                None => None,
            }
        } else if bytes[2] == 0u8 {
            if bytes.len() == 4 {
                match err_from_tag(bytes[3]) {
                    Some(e) => Some(ServerMessage::RPCResponse { id, output: Err(e) }),
                    None => None,
                }
            } else {
                None
            }
        } else {
            None
        }
    } else if tag == 1u8 {
        match read_u64(bytes, 1) {
            Some((n, start)) => {
                let mut acc: Vec<(String, Vec<u8>)> = Vec::new();
                let mut pos = start;
                let mut k: u64 = 0;
                while k < n
                    invariant
                        k <= n,
                        pos <= bytes@.len(),
                        changes_view(acc@).len() == k,
                        parse_u64(bytes@, 1) == Some((n, start as int)),
                        bytes@.len() >= 1 && bytes@[0] == 1u8,
                        parse_changes(bytes@, start as int, n as nat) == compose_changes(
                            bytes@,
                            changes_view(acc@),
                            pos as int,
                            (n - k) as nat,
                        ),
                    decreases n - k,
                {
                    match read_string(bytes, pos) {
                        Some((name, p2)) => {
                            match read_blob(bytes, p2) {
                                Some((value, p3)) => {
                                    proof {
                                        let cv = ChangeView { name: name@, value: value@ };
                                        let done = changes_view(acc@);
                                        let rem = (n - k) as nat;
                                        assert(parse_changes(bytes@, pos as int, rem)
                                            == match parse_changes(
                                            bytes@,
                                            p3 as int,
                                            (rem - 1) as nat,
                                        ) {
                                            Some((rest, end)) => Some((seq![cv] + rest, end)),
                                            None => None,
                                        });
                                        assert(changes_view(acc@.push((name, value))) =~= done.push(
                                            cv,
                                        ));
                                        assert forall|rest: Seq<ChangeView>|
                                            true implies done + (seq![cv] + rest) == done.push(cv)
                                            + rest by {
                                            assert(done + (seq![cv] + rest) =~= done.push(cv)
                                                + rest);
                                        }
                                    }
                                    acc.push((name, value));
                                    pos = p3;
                                    k = k + 1;
                                },
                                None => {
                                    return None;
                                },
                            }
                        },
                        None => {
                            return None;
                        },
                    }
                }
                proof {
                    assert(parse_changes(bytes@, pos as int, 0) == Some(
                        (Seq::<ChangeView>::empty(), pos as int),
                    ));
                    assert(changes_view(acc@) + Seq::<ChangeView>::empty() =~= changes_view(acc@));
                }
                if pos == bytes.len() {
                    Some(ServerMessage::StateChange(acc))
                } else {
                    None
                }
            },
            None => None,
        }
    } else if tag == 2u8 {
        match read_blob(bytes, 1) {
            Some((payload, j)) => {
                if j == bytes.len() {
                    Some(ServerMessage::NewEvent(payload))
                } else {
                    None
                }
            },
            None => None,
        }
    } else {
        None
    }
}

} // verus!
