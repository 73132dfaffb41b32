//! Framing of i3/Sway IPC messages:
//! `"i3-ipc"` (6 bytes), payload length (u32 LE), message type (u32 LE), payload.

use vstd::prelude::*;

verus! {

/// The six magic bytes that open every IPC message.
pub const MAGIC: [u8; 6] = [105u8, 51u8, 45u8, 105u8, 112u8, 99u8];

/// Size of a message header in bytes: magic, length and type.
pub const HEADER_SIZE: usize = 14;

/// The magic bytes as a sequence.
pub open spec fn magic_seq() -> Seq<u8> {
    seq![105u8, 51u8, 45u8, 105u8, 112u8, 99u8]
}

/// Little-endian bytes of a `u32`.
pub open spec fn le32(x: u32) -> Seq<u8> {
    seq![
        (x & 0xff) as u8,
        ((x >> 8u32) & 0xff) as u8,
        ((x >> 16u32) & 0xff) as u8,
        ((x >> 24u32) & 0xff) as u8,
    ]
}

/// The `u32` whose little-endian bytes are `b0 b1 b2 b3`.
pub open spec fn from_le32(b0: u8, b1: u8, b2: u8, b3: u8) -> u32 {
    (b0 as u32) | ((b1 as u32) << 8u32) | ((b2 as u32) << 16u32) | ((b3 as u32) << 24u32)
}

/// The wire form of a message: header, then the payload as given.
pub open spec fn spec_encode(msg_type: u32, payload: Seq<u8>) -> Seq<u8> {
    magic_seq() + le32(payload.len() as u32) + le32(msg_type) + payload
}

/// Errors met while reading a message header.
#[derive(Debug, Clone, PartialEq, Eq)]
pub enum ProtocolError {
    /// The first six bytes are not `"i3-ipc"`; carries what was found.
    InvalidMagic([u8; 6]),
    /// Fewer than `HEADER_SIZE` bytes were available; carries how many.
    HeaderTooShort(usize),
}

/// What a header says: `Some((payload length, message type))`, or `None` when
/// the magic is wrong.
pub open spec fn spec_decode(h: Seq<u8>) -> Option<(u32, u32)> {
    if h.subrange(0, 6) == magic_seq() {
        Some((from_le32(h[6], h[7], h[8], h[9]), from_le32(h[10], h[11], h[12], h[13])))
    } else {
        None
    }
}

/// Request types sent by clients.
#[derive(Debug, Clone, Copy, PartialEq, Eq)]
pub enum MessageType {
    RunCommand,
    GetWorkspaces,
    Subscribe,
    GetOutputs,
    GetTree,
    GetMarks,
    GetBarConfig,
    GetVersion,
    GetBindingModes,
    GetConfig,
    SendTick,
    Sync,
    GetBindingState,
    GetInputs,
    GetSeats,
}

/// Wire number of each request type.
pub open spec fn message_code(t: MessageType) -> u32 {
    match t {
        MessageType::RunCommand => 0,
        MessageType::GetWorkspaces => 1,
        MessageType::Subscribe => 2,
        MessageType::GetOutputs => 3,
        MessageType::GetTree => 4,
        MessageType::GetMarks => 5,
        MessageType::GetBarConfig => 6,
        MessageType::GetVersion => 7,
        MessageType::GetBindingModes => 8,
        MessageType::GetConfig => 9,
        MessageType::SendTick => 10,
        MessageType::Sync => 11,
        MessageType::GetBindingState => 12,
        MessageType::GetInputs => 100,
        MessageType::GetSeats => 101,
    }
}

impl MessageType {
    /// The number that stands for this request type on the wire.
    pub fn code(self) -> (c: u32)
        ensures
            c == message_code(self),
    {
        match self {
            MessageType::RunCommand => 0,
            MessageType::GetWorkspaces => 1,
            MessageType::Subscribe => 2,
            MessageType::GetOutputs => 3,
            MessageType::GetTree => 4,
            MessageType::GetMarks => 5,
            MessageType::GetBarConfig => 6,
            MessageType::GetVersion => 7,
            MessageType::GetBindingModes => 8,
            MessageType::GetConfig => 9,
            MessageType::SendTick => 10,
            MessageType::Sync => 11,
            MessageType::GetBindingState => 12,
            MessageType::GetInputs => 100,
            MessageType::GetSeats => 101,
        }
    }
}

/// Event types pushed by the server (high bit set).
#[derive(Debug, Clone, Copy, PartialEq, Eq)]
pub enum EventType {
    Workspace,
    Output,
    Mode,
    Window,
    BarConfigUpdate,
    Binding,
    Shutdown,
    Tick,
    BarStateUpdate,
    Input,
}

/// Wire number of each event type.
pub open spec fn event_code(t: EventType) -> u32 {
    match t {
        EventType::Workspace => 0x80000000,
        EventType::Output => 0x80000001,
        EventType::Mode => 0x80000002,
        EventType::Window => 0x80000003,
        EventType::BarConfigUpdate => 0x80000004,
        EventType::Binding => 0x80000005,
        EventType::Shutdown => 0x80000006,
        EventType::Tick => 0x80000007,
        EventType::BarStateUpdate => 0x80000014,
        EventType::Input => 0x80000015,
    }
}

impl EventType {
    /// The number that stands for this event type on the wire.
    pub fn code(self) -> (c: u32)
        ensures
            c == event_code(self),
            c >= 0x80000000,
    {
        match self {
            EventType::Workspace => 0x80000000,
            EventType::Output => 0x80000001,
            EventType::Mode => 0x80000002,
            EventType::Window => 0x80000003,
            EventType::BarConfigUpdate => 0x80000004,
            EventType::Binding => 0x80000005,
            EventType::Shutdown => 0x80000006,
            EventType::Tick => 0x80000007,
            EventType::BarStateUpdate => 0x80000014,
            EventType::Input => 0x80000015,
        }
    }
}

fn push_le32(buf: &mut Vec<u8>, x: u32)
    ensures
        final(buf)@ == old(buf)@ + le32(x),
{
    buf.push((x & 0xff) as u8);
    buf.push(((x >> 8u32) & 0xff) as u8);
    buf.push(((x >> 16u32) & 0xff) as u8);
    buf.push(((x >> 24u32) & 0xff) as u8);
    assert(buf@ =~= old(buf)@ + le32(x));
}

/// Encodes a message in the IPC wire format. The length field holds the
/// payload's length taken modulo 2^32, as a `u32` cast gives it.
pub fn encode_message(msg_type: u32, payload: &[u8]) -> (buf: Vec<u8>)
    ensures
        buf@ == spec_encode(msg_type, payload@),
{
    #[verifier::truncate]
    let payload_len: u32 = payload.len() as u32;
    let mut buf: Vec<u8> = Vec::new();
    let mut i: usize = 0;
    while i < 6
        invariant
            0 <= i <= 6,
            buf@ == magic_seq().subrange(0, i as int),
        decreases 6 - i,
    {
        buf.push(MAGIC[i]);
        i = i + 1;
    }
    push_le32(&mut buf, payload_len);
    push_le32(&mut buf, msg_type);
    let mut j: usize = 0;
    while j < payload.len()
        invariant
            0 <= j <= payload@.len(),
            buf@ == magic_seq() + le32(payload_len) + le32(msg_type) + payload@.subrange(0, j as int),
        decreases payload@.len() - j,
    {
        buf.push(payload[j]);
        j = j + 1;
    }
    buf
}

/// Reads a 14-byte header: `Ok((payload length, message type))` when it opens
/// with the magic, else `InvalidMagic` with the six bytes found.
pub fn decode_header(header: &[u8; 14]) -> (r: Result<(u32, u32), ProtocolError>)
    ensures
        match r {
            Ok(p) => spec_decode(header@) == Some(p),
            Err(e) => spec_decode(header@) is None && e == ProtocolError::InvalidMagic(
                [header[0], header[1], header[2], header[3], header[4], header[5]],
            ),
        },
{
    let magic: [u8; 6] = [header[0], header[1], header[2], header[3], header[4], header[5]];
    assert(MAGIC@ =~= magic_seq());
    let mut ok = true;
    let mut i: usize = 0;
    while i < 6
        invariant
            0 <= i <= 6,
            MAGIC@ == magic_seq(),
            magic@ == header@.subrange(0, 6),
            ok <==> forall|k: int| 0 <= k < i ==> header@[k] == magic_seq()[k],
        decreases 6 - i,
    {
        if magic[i] != MAGIC[i] {
            ok = false;
        }
        i = i + 1;
    }
    if !ok {
        assert(header@.subrange(0, 6) != magic_seq()) by {
            let k = choose|k: int| 0 <= k < 6 && header@[k] != magic_seq()[k];
            assert(header@.subrange(0, 6)[k] != magic_seq()[k]);
        }
        return Err(ProtocolError::InvalidMagic(magic));
    }
    assert(header@.subrange(0, 6) =~= magic_seq());
    let payload_len: u32 = (header[6] as u32) | ((header[7] as u32) << 8u32) | ((header[8] as u32) << 16u32) | ((header[9] as u32) << 24u32);
    let msg_type: u32 = (header[10] as u32) | ((header[11] as u32) << 8u32) | ((header[12] as u32) << 16u32) | ((header[13] as u32) << 24u32);
    Ok((payload_len, msg_type))
}

/// Decoding the header of an encoded message gives back the length field
/// (the payload length as a `u32`) and the message type.
pub proof fn lemma_encode_decode_roundtrip(msg_type: u32, payload: Seq<u8>)
    ensures
        spec_decode(spec_encode(msg_type, payload).subrange(0, 14)) == Some(
            (payload.len() as u32, msg_type),
        ),
        spec_encode(msg_type, payload).subrange(14, spec_encode(msg_type, payload).len() as int)
            == payload,
{
    let e = spec_encode(msg_type, payload);
    let h = e.subrange(0, 14);
    let n = payload.len() as u32;
    assert(h.subrange(0, 6) =~= magic_seq());
    lemma_le32_roundtrip(n);
    lemma_le32_roundtrip(msg_type);
    assert(h[6] == le32(n)[0] && h[7] == le32(n)[1] && h[8] == le32(n)[2] && h[9] == le32(n)[3]);
    assert(h[10] == le32(msg_type)[0] && h[11] == le32(msg_type)[1] && h[12] == le32(msg_type)[2]
        && h[13] == le32(msg_type)[3]);
    assert(e.subrange(14, e.len() as int) =~= payload);
}

/// The little-endian bytes of a `u32` read back as that `u32`.
pub proof fn lemma_le32_roundtrip(x: u32)
    ensures
        from_le32(le32(x)[0], le32(x)[1], le32(x)[2], le32(x)[3]) == x,
{
    let b0 = (x & 0xff) as u8;
    let b1 = ((x >> 8u32) & 0xff) as u8;
    let b2 = ((x >> 16u32) & 0xff) as u8;
    let b3 = ((x >> 24u32) & 0xff) as u8;
    assert((b0 as u32) | ((b1 as u32) << 8u32) | ((b2 as u32) << 16u32) | ((b3 as u32) << 24u32) == x)
        by (bit_vector)
        requires
            b0 == (x & 0xff) as u8,
            b1 == ((x >> 8u32) & 0xff) as u8,
            b2 == ((x >> 16u32) & 0xff) as u8,
            b3 == ((x >> 24u32) & 0xff) as u8,
    ;
}

/// Each message type has a code of its own, so reading a type back from its
/// code gives that type.
pub proof fn lemma_message_code_injective(a: MessageType, b: MessageType)
    ensures
        message_code(a) == message_code(b) ==> a == b,
{
}

/// Each event type has a code of its own.
pub proof fn lemma_event_code_injective(a: EventType, b: EventType)
    ensures
        event_code(a) == event_code(b) ==> a == b,
{
}

} // verus!
