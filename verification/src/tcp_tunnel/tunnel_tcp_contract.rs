//! The tunnel's packet model and its byte-exact codec.
//!
//! Every message exchanged over the tunnel socket is one
//! [`TunnelTcpContract`] value. On the wire a packet is one tag byte naming
//! the kind, then the kind's fields in declared order: a `u32` id as four
//! little-endian bytes, a text field as a pascal string, a payload as a
//! length-prefixed blob.

use vstd::prelude::*;
use vstd::utf8::{
    decode_utf8, encode_utf8, encode_utf8_decode_utf8, encode_utf8_valid_utf8, valid_utf8,
};

use crate::common_deserializers::{
    le_u32_of, string_from_utf8, u32_from_le_bytes, ByteSource, DecodeFailure,
};
use crate::common_serializers::{
    serialize_pascal_string, serialize_payload, serialize_u32, spec_pascal_string,
    spec_payload_block, spec_u32_le,
};

verus! {

pub const PING_PACKET: u8 = 0;

pub const PONG_PACKET: u8 = 1;

pub const CONNECT_PACKET: u8 = 2;

pub const CONNECTED_PACKET: u8 = 3;

pub const CAN_NOT_CONNECT_PACKET: u8 = 4;

pub const DISCONNECTED_A_PACKET: u8 = 5;

pub const DISCONNECTED_B_PACKET: u8 = 6;

pub const PAYLOAD: u8 = 7;

pub const GREETING: u8 = 8;

/// The mathematical model of one packet: what a [`TunnelTcpContract`] value
/// says, with text as character sequences and payloads as byte sequences.
pub enum Packet {
    Ping,
    Pong,
    ConnectTo { id: u32, url: Seq<char> },
    Connected(u32),
    CanNotConnect { id: u32, reason: Seq<char> },
    DisconnectedFromSideA(u32),
    DisconnectedFromSideB(u32),
    Payload { id: u32, payload: Seq<u8> },
    Greeting(Seq<char>),
}

impl Packet {
    /// A packet the wire format can carry: text fields fit the one-byte
    /// length prefix, payloads fit the four-byte length prefix.
    pub open spec fn wf(self) -> bool {
        match self {
            Packet::ConnectTo { url, .. } => encode_utf8(url).len() <= 255,
            Packet::CanNotConnect { reason, .. } => encode_utf8(reason).len() <= 255,
            Packet::Greeting(phrase) => encode_utf8(phrase).len() <= 255,
            Packet::Payload { payload, .. } => payload.len() <= u32::MAX,
            _ => true,
        }
    }

    /// The diagnostic one-line label of a packet, for logging; not
    /// wire-significant.
    pub open spec fn spec_packet_name(self) -> Seq<char> {
        match self {
            Packet::Ping => "Ping"@,
            Packet::Pong => "Pong"@,
            Packet::ConnectTo { id, url } => "ConnectTo: "@ + spec_decimal(id as nat) + "/"@ + url,
            Packet::Connected(id) => "Connected:"@ + spec_decimal(id as nat),
            Packet::CanNotConnect { id, reason } => "CanNptConnect:"@ + spec_decimal(id as nat)
                + ". Reason:"@ + reason,
            Packet::DisconnectedFromSideA(id) => "Disconnected from side A "@ + spec_decimal(
                id as nat,
            ),
            Packet::DisconnectedFromSideB(id) => "Disconnected from side B "@ + spec_decimal(
                id as nat,
            ),
            Packet::Payload { id, payload } => "Payload from id "@ + spec_decimal(id as nat)
                + " with len:"@ + spec_decimal(payload.len()),
            Packet::Greeting(phrase) => "Greeting from "@ + phrase,
        }
    }

    /// The canonical encoding of a packet: the tag byte, then the fields in
    /// declared order.
    pub open spec fn spec_serialize(self) -> Seq<u8> {
        match self {
            Packet::Ping => seq![PING_PACKET],
            Packet::Pong => seq![PONG_PACKET],
            Packet::ConnectTo { id, url } => seq![CONNECT_PACKET] + spec_u32_le(id)
                + spec_pascal_string(url),
            Packet::Connected(id) => seq![CONNECTED_PACKET] + spec_u32_le(id),
            Packet::CanNotConnect { id, reason } => seq![CAN_NOT_CONNECT_PACKET] + spec_u32_le(id)
                + spec_pascal_string(reason),
            Packet::DisconnectedFromSideA(id) => seq![DISCONNECTED_A_PACKET] + spec_u32_le(id),
            Packet::DisconnectedFromSideB(id) => seq![DISCONNECTED_B_PACKET] + spec_u32_le(id),
            Packet::Payload { id, payload } => seq![PAYLOAD] + spec_u32_le(id) + spec_payload_block(
                payload,
            ),
            Packet::Greeting(phrase) => seq![GREETING] + spec_pascal_string(phrase),
        }
    }
}

/// The character naming a decimal digit.
pub open spec fn spec_decimal_digit(d: int) -> char {
    if d == 0 {
        '0'
    } else if d == 1 {
        '1'
    } else if d == 2 {
        '2'
    } else if d == 3 {
        '3'
    } else if d == 4 {
        '4'
    } else if d == 5 {
        '5'
    } else if d == 6 {
        '6'
    } else if d == 7 {
        '7'
    } else if d == 8 {
        '8'
    } else {
        '9'
    }
}

/// The decimal digits of `n`, most significant first, with no leading
/// zeroes (a single `'0'` for zero).
pub open spec fn spec_decimal(n: nat) -> Seq<char>
    decreases n,
{
    if n < 10 {
        seq![spec_decimal_digit(n as int)]
    } else {
        spec_decimal(n / 10) + seq![spec_decimal_digit((n % 10) as int)]
    }
}

/// The one-character text of a decimal digit.
fn digit_str(d: u64) -> (r: &'static str)
    requires
        d < 10,
    ensures
        r@.len() == 1,
        r@[0] == spec_decimal_digit(d as int),
{
    proof {
        reveal_strlit("0");
        reveal_strlit("1");
        reveal_strlit("2");
        reveal_strlit("3");
        reveal_strlit("4");
        reveal_strlit("5");
        reveal_strlit("6");
        reveal_strlit("7");
        reveal_strlit("8");
        reveal_strlit("9");
    }
    if d == 0 {
        "0"
    } else if d == 1 {
        "1"
    } else if d == 2 {
        "2"
    } else if d == 3 {
        "3"
    } else if d == 4 {
        "4"
    } else if d == 5 {
        "5"
    } else if d == 6 {
        "6"
    } else if d == 7 {
        "7"
    } else if d == 8 {
        "8"
    } else {
        "9"
    }
}

/// Appends the decimal digits of `v` to `out`.
fn decimal_append(v: u64, out: &mut String)
    ensures
        final(out)@ == old(out)@ + spec_decimal(v as nat),
    decreases v,
{
    if v >= 10 {
        decimal_append(v / 10, out);
    }
    let d = digit_str(v % 10);
    out.append(d);
    proof {
        assert(out@ =~= old(out)@ + spec_decimal(v as nat));
    }
}

/// Renders `v` in decimal, as ordinary digits.
pub fn u64_decimal(v: u64) -> (r: String)
    ensures
        r@ == spec_decimal(v as nat),
{
    let mut out = String::new();
    decimal_append(v, &mut out);
    proof {
        assert(out@ =~= spec_decimal(v as nat));
    }
    out
}

/// One message of the tunnel protocol.
///
/// `id` names the leg (one logical end-to-end connection multiplexed over
/// the tunnel) the message belongs to; the codec itself imposes no
/// uniqueness on ids.
#[derive(Debug)]
pub enum TunnelTcpContract {
    /// Heartbeat request.
    Ping,
    /// Heartbeat reply; the only packet that counts as a pong.
    Pong,
    /// Request to open leg `id` to destination `url`.
    ConnectTo { id: u32, url: String },
    /// Leg `id` was established.
    Connected(u32),
    /// Leg `id` failed to establish, with a human-readable reason.
    CanNotConnect { id: u32, reason: String },
    /// Leg `id` closed, initiated by the connecting side.
    DisconnectedFromSideA(u32),
    /// Leg `id` closed, initiated by the destination side.
    DisconnectedFromSideB(u32),
    /// Opaque application bytes for leg `id`.
    Payload { id: u32, payload: Vec<u8> },
    /// Endpoint identification sent once at session start.
    Greeting(String),
}

impl View for TunnelTcpContract {
    type V = Packet;

    open spec fn view(&self) -> Packet {
        match self {
            TunnelTcpContract::Ping => Packet::Ping,
            TunnelTcpContract::Pong => Packet::Pong,
            TunnelTcpContract::ConnectTo { id, url } => Packet::ConnectTo { id: *id, url: url@ },
            TunnelTcpContract::Connected(id) => Packet::Connected(*id),
            TunnelTcpContract::CanNotConnect { id, reason } => Packet::CanNotConnect {
                id: *id,
                reason: reason@,
            },
            TunnelTcpContract::DisconnectedFromSideA(id) => Packet::DisconnectedFromSideA(*id),
            TunnelTcpContract::DisconnectedFromSideB(id) => Packet::DisconnectedFromSideB(*id),
            TunnelTcpContract::Payload { id, payload } => Packet::Payload {
                id: *id,
                payload: payload@,
            },
            TunnelTcpContract::Greeting(phrase) => Packet::Greeting(phrase@),
        }
    }
}

impl TunnelTcpContract {
    /// The diagnostic one-line label of this packet, for logging; not
    /// wire-significant.
    pub fn get_packet_name(&self) -> (r: String)
        ensures
            r@ == self@.spec_packet_name(),
    {
        match self {
            TunnelTcpContract::Ping => String::from_str("Ping"),
            TunnelTcpContract::Pong => String::from_str("Pong"),
            TunnelTcpContract::ConnectTo { id, url } => {
                let mut out = String::from_str("ConnectTo: ");
                decimal_append(*id as u64, &mut out);
                out.append("/");
                out.append(url.as_str());
                proof {
                    assert(out@ =~= self@.spec_packet_name());
                }
                out
            },
            TunnelTcpContract::Connected(id) => {
                let mut out = String::from_str("Connected:");
                decimal_append(*id as u64, &mut out);
                proof {
                    assert(out@ =~= self@.spec_packet_name());
                }
                out
            },
            TunnelTcpContract::CanNotConnect { id, reason } => {
                let mut out = String::from_str("CanNptConnect:");
                decimal_append(*id as u64, &mut out);
                out.append(". Reason:");
                out.append(reason.as_str());
                proof {
                    assert(out@ =~= self@.spec_packet_name());
                }
                out
            },
            TunnelTcpContract::DisconnectedFromSideA(id) => {
                let mut out = String::from_str("Disconnected from side A ");
                decimal_append(*id as u64, &mut out);
                proof {
                    assert(out@ =~= self@.spec_packet_name());
                }
                out
            },
            TunnelTcpContract::DisconnectedFromSideB(id) => {
                let mut out = String::from_str("Disconnected from side B ");
                decimal_append(*id as u64, &mut out);
                proof {
                    assert(out@ =~= self@.spec_packet_name());
                }
                out
            },
            TunnelTcpContract::Payload { id, payload } => {
                let mut out = String::from_str("Payload from id ");
                decimal_append(*id as u64, &mut out);
                out.append(" with len:");
                decimal_append(payload.len() as u64, &mut out);
                proof {
                    assert(out@ =~= self@.spec_packet_name());
                }
                out
            },
            TunnelTcpContract::Greeting(phrase) => {
                let mut out = String::from_str("Greeting from ");
                out.append(phrase.as_str());
                proof {
                    assert(out@ =~= self@.spec_packet_name());
                }
                out
            },
        }
    }

    /// True exactly for the heartbeat reply, the packet the liveness
    /// tracker watches for.
    pub fn is_pong(&self) -> (r: bool)
        ensures
            r == (self@ is Pong),
    {
        match self {
            TunnelTcpContract::Pong => true,
            _ => false,
        }
    }

    /// True when the wire format can carry this packet: every text field
    /// fits 255 bytes of UTF-8 and a payload fits `u32::MAX` bytes.
    pub fn is_serializable(&self) -> (r: bool)
        ensures
            r == self@.wf(),
    {
        match self {
            TunnelTcpContract::ConnectTo { url, .. } => url.as_str().as_bytes().len() <= 255,
            TunnelTcpContract::CanNotConnect { reason, .. } => reason.as_str().as_bytes().len()
                <= 255,
            TunnelTcpContract::Greeting(phrase) => phrase.as_str().as_bytes().len() <= 255,
            TunnelTcpContract::Payload { payload, .. } => payload.len() as u64 <= u32::MAX as u64,
            _ => true,
        }
    }

    /// Encodes this packet as its canonical byte sequence: the tag byte,
    /// then each field in declared order. Total on well-formed packets;
    /// oversized fields are an encoding precondition, checked by
    /// [`Self::try_serialize`].
    pub fn serialize(&self) -> (r: Vec<u8>)
        requires
            self@.wf(),
        ensures
            r@ == self@.spec_serialize(),
    {
        match self {
            TunnelTcpContract::Ping => {
                let mut data: Vec<u8> = Vec::with_capacity(1);
                data.push(PING_PACKET);
                proof {
                    assert(data@ =~= self@.spec_serialize());
                }
                data
            },
            TunnelTcpContract::Pong => {
                let mut data: Vec<u8> = Vec::with_capacity(1);
                data.push(PONG_PACKET);
                proof {
                    assert(data@ =~= self@.spec_serialize());
                }
                data
            },
            TunnelTcpContract::ConnectTo { id, url } => {
                let mut result: Vec<u8> = Vec::with_capacity(264);
                result.push(CONNECT_PACKET);
                serialize_u32(&mut result, *id);
                serialize_pascal_string(&mut result, url.as_str());
                proof {
                    assert(result@ =~= self@.spec_serialize());
                }
                result
            },
            TunnelTcpContract::Connected(id) => {
                let mut result: Vec<u8> = Vec::with_capacity(5);
                result.push(CONNECTED_PACKET);
                serialize_u32(&mut result, *id);
                proof {
                    assert(result@ =~= self@.spec_serialize());
                }
                result
            },
            TunnelTcpContract::CanNotConnect { id, reason } => {
                let mut result: Vec<u8> = Vec::with_capacity(261);
                result.push(CAN_NOT_CONNECT_PACKET);
                serialize_u32(&mut result, *id);
                serialize_pascal_string(&mut result, reason.as_str());
                proof {
                    assert(result@ =~= self@.spec_serialize());
                }
                result
            },
            TunnelTcpContract::DisconnectedFromSideA(id) => {
                let mut result: Vec<u8> = Vec::with_capacity(5);
                result.push(DISCONNECTED_A_PACKET);
                serialize_u32(&mut result, *id);
                proof {
                    assert(result@ =~= self@.spec_serialize());
                }
                result
            },
            TunnelTcpContract::DisconnectedFromSideB(id) => {
                let mut result: Vec<u8> = Vec::with_capacity(5);
                result.push(DISCONNECTED_B_PACKET);
                serialize_u32(&mut result, *id);
                proof {
                    assert(result@ =~= self@.spec_serialize());
                }
                result
            },
            TunnelTcpContract::Payload { id, payload } => {
                let mut result: Vec<u8> = Vec::new();
                result.push(PAYLOAD);
                serialize_u32(&mut result, *id);
                serialize_payload(&mut result, payload.as_slice());
                proof {
                    assert(result@ =~= self@.spec_serialize());
                }
                result
            },
            TunnelTcpContract::Greeting(phrase) => {
                let mut result: Vec<u8> = Vec::with_capacity(2 + phrase.as_str().as_bytes().len());
                result.push(GREETING);
                serialize_pascal_string(&mut result, phrase.as_str());
                proof {
                    assert(result@ =~= self@.spec_serialize());
                }
                result
            },
        }
    }

    /// Encodes this packet, first rejecting one the wire format cannot
    /// carry: `None` exactly when a text field exceeds 255 bytes of UTF-8
    /// or a payload exceeds `u32::MAX` bytes — never a silent truncation.
    pub fn try_serialize(&self) -> (r: Option<Vec<u8>>)
        ensures
            r is Some <==> self@.wf(),
            r is Some ==> r.unwrap()@ == self@.spec_serialize(),
    {
        if self.is_serializable() {
            Some(self.serialize())
        } else {
            None
        }
    }

    /// Decodes exactly one packet from the source. On success the cursor
    /// sits on the first byte of the next packet, so the call is safe in a
    /// loop, one packet per call. On failure the cursor can no longer be
    /// trusted and the transport must drop the stream.
    pub fn deserialize(reader: &mut ByteSource) -> (r: Result<TunnelTcpContract, DecodeFailure>)
        ensures
            match spec_decode(old(reader)@) {
                Ok(pn) => r is Ok && r.unwrap()@ == pn.0 && final(reader)@ == old(reader)@.skip(
                    pn.1,
                ),
                Err(f) => r == Err::<TunnelTcpContract, DecodeFailure>(f),
            },
    {
        let mut state = DecodeState::Tag;
        let ghost mut consumed: int = 0;
        loop
            invariant
                0 <= consumed <= old(reader)@.len(),
                reader@ == old(reader)@.skip(consumed),
                run_equiv(spec_decode(old(reader)@), spec_run(state, reader@), consumed),
            decreases reader@.len(),
        {
            let ghost pre_rem = reader@;
            let need = state.need();
            let chunk = match reader.read_buf(need) {
                Ok(c) => c,
                Err(f) => {
                    return Err(f);
                },
            };
            match decode_step(state, chunk) {
                Err(f) => {
                    return Err(f);
                },
                Ok(DecodeStep::Done(p)) => {
                    proof {
                        assert(pre_rem.take(need as int) == chunk@);
                        assert(spec_run(state, pre_rem) == Ok::<(Packet, int), DecodeFailure>(
                            (p@, need as int),
                        ));
                        assert(reader@ =~= old(reader)@.skip(consumed + need));
                    }
                    return Ok(p);
                },
                Ok(DecodeStep::More(s2)) => {
                    proof {
                        assert(pre_rem.take(need as int) == chunk@);
                        // a state that asks for more bytes consumed some itself
                        assert(state.spec_need() > 0);
                        assert(reader@ =~= old(reader)@.skip(consumed + need));
                        consumed = consumed + need;
                    }
                    state = s2;
                },
            }
        }
    }
}

/// One state of the decoder: which part of the packet in flight remains to
/// be read. Decoding is a strict state machine driven by whoever owns the
/// byte source: each state names how many bytes it needs next, and one
/// step on those bytes either finishes the packet or names the next state.
#[allow(inconsistent_fields)]
#[derive(Clone, Copy, Debug, PartialEq, Eq, Structural)]
pub enum DecodeState {
    /// Waiting for the tag byte of the next packet.
    Tag,
    /// Waiting for the four-byte id of a packet with kind `tag`.
    Id { tag: u8 },
    /// Waiting for the length byte of the text field of kind `tag`; `id`
    /// is 0 for the one kind without an id (`Greeting`).
    TextLen { tag: u8, id: u32 },
    /// Waiting for `len` UTF-8 bytes of the text field of kind `tag`.
    Text { tag: u8, id: u32, len: u8 },
    /// Waiting for the four-byte payload length of a `Payload` packet.
    PayloadLen { id: u32 },
    /// Waiting for `len` payload bytes of a `Payload` packet.
    PayloadBytes { id: u32, len: u32 },
}

impl DecodeState {
    /// How many bytes this state consumes in one step.
    pub open spec fn spec_need(self) -> int {
        match self {
            DecodeState::Tag => 1,
            DecodeState::Id { .. } => 4,
            DecodeState::TextLen { .. } => 1,
            DecodeState::Text { len, .. } => len as int,
            DecodeState::PayloadLen { .. } => 4,
            DecodeState::PayloadBytes { len, .. } => len as int,
        }
    }

    /// How many bytes to hand to the next [`decode_step`].
    pub fn need(&self) -> (r: usize)
        ensures
            r as int == self.spec_need(),
    {
        match self {
            DecodeState::Tag => 1,
            DecodeState::Id { .. } => 4,
            DecodeState::TextLen { .. } => 1,
            DecodeState::Text { len, .. } => *len as usize,
            DecodeState::PayloadLen { .. } => 4,
            DecodeState::PayloadBytes { len, .. } => *len as usize,
        }
    }
}

/// What one step of the decoder yields, at the model level.
pub enum DecodeStepModel {
    Done(Packet),
    More(DecodeState),
}

/// One step of the decode state machine, on exactly the
/// `s.spec_need()`-byte chunk the state asked for.
pub open spec fn spec_step(s: DecodeState, b: Seq<u8>) -> Result<DecodeStepModel, DecodeFailure>
    recommends
        b.len() == s.spec_need(),
{
    match s {
        DecodeState::Tag => {
            let tag = b[0];
            if tag == PING_PACKET {
                Ok(DecodeStepModel::Done(Packet::Ping))
            } else if tag == PONG_PACKET {
                Ok(DecodeStepModel::Done(Packet::Pong))
            } else if tag == GREETING {
                Ok(DecodeStepModel::More(DecodeState::TextLen { tag, id: 0 }))
            } else if tag <= PAYLOAD {
                Ok(DecodeStepModel::More(DecodeState::Id { tag }))
            } else {
                Err(DecodeFailure::UnknownTag)
            }
        },
        DecodeState::Id { tag } => {
            let id = le_u32_of(b);
            if tag == CONNECT_PACKET || tag == CAN_NOT_CONNECT_PACKET {
                Ok(DecodeStepModel::More(DecodeState::TextLen { tag, id }))
            } else if tag == CONNECTED_PACKET {
                Ok(DecodeStepModel::Done(Packet::Connected(id)))
            } else if tag == DISCONNECTED_A_PACKET {
                Ok(DecodeStepModel::Done(Packet::DisconnectedFromSideA(id)))
            } else if tag == DISCONNECTED_B_PACKET {
                Ok(DecodeStepModel::Done(Packet::DisconnectedFromSideB(id)))
            } else if tag == PAYLOAD {
                Ok(DecodeStepModel::More(DecodeState::PayloadLen { id }))
            } else {
                Err(DecodeFailure::UnknownTag)
            }
        },
        DecodeState::TextLen { tag, id } => Ok(
            DecodeStepModel::More(DecodeState::Text { tag, id, len: b[0] }),
        ),
        DecodeState::Text { tag, id, len: _ } => {
            if !valid_utf8(b) {
                Err(DecodeFailure::InvalidUtf8)
            } else {
                let text = decode_utf8(b);
                if tag == CONNECT_PACKET {
                    Ok(DecodeStepModel::Done(Packet::ConnectTo { id, url: text }))
                } else if tag == CAN_NOT_CONNECT_PACKET {
                    Ok(DecodeStepModel::Done(Packet::CanNotConnect { id, reason: text }))
                } else if tag == GREETING {
                    Ok(DecodeStepModel::Done(Packet::Greeting(text)))
                } else {
                    Err(DecodeFailure::UnknownTag)
                }
            }
        },
        DecodeState::PayloadLen { id } => Ok(
            DecodeStepModel::More(DecodeState::PayloadBytes { id, len: le_u32_of(b) }),
        ),
        DecodeState::PayloadBytes { id, len: _ } => Ok(
            DecodeStepModel::Done(Packet::Payload { id, payload: b }),
        ),
    }
}

/// Runs the decoder from state `s` over the bytes `b`: the packet and the
/// count of bytes it consumed, or the definite failure.
pub open spec fn spec_run(s: DecodeState, b: Seq<u8>) -> Result<(Packet, int), DecodeFailure>
    decreases b.len(),
{
    let need = s.spec_need();
    if b.len() < need {
        Err(DecodeFailure::Incomplete)
    } else {
        match spec_step(s, b.take(need)) {
            Err(f) => Err(f),
            Ok(DecodeStepModel::Done(p)) => Ok((p, need)),
            Ok(DecodeStepModel::More(s2)) => {
                if need <= 0 {
                    // every state that asks for more consumed at least one byte
                    Err(DecodeFailure::Incomplete)
                } else {
                    match spec_run(s2, b.skip(need)) {
                        Ok(pn) => Ok((pn.0, need + pn.1)),
                        Err(f) => Err(f),
                    }
                }
            },
        }
    }
}

/// Decoding one packet from the front of `b`: the packet and the count of
/// bytes it occupies, or the definite failure. This is the read side of
/// the wire contract.
pub open spec fn spec_decode(b: Seq<u8>) -> Result<(Packet, int), DecodeFailure> {
    spec_run(DecodeState::Tag, b)
}

/// Relates a whole-packet decode to a decode resumed mid-packet: the same
/// outcome, with `off` bytes already consumed.
pub open spec fn run_equiv(
    total: Result<(Packet, int), DecodeFailure>,
    local: Result<(Packet, int), DecodeFailure>,
    off: int,
) -> bool {
    match (total, local) {
        (Ok(t), Ok(l)) => t.0 == l.0 && t.1 == l.1 + off,
        (Err(ft), Err(fl)) => ft == fl,
        _ => false,
    }
}

/// What one executable decode step yields: a complete packet, or the next
/// state of the machine.
pub enum DecodeStep {
    Done(TunnelTcpContract),
    More(DecodeState),
}

impl View for DecodeStep {
    type V = DecodeStepModel;

    open spec fn view(&self) -> DecodeStepModel {
        match self {
            DecodeStep::Done(p) => DecodeStepModel::Done(p@),
            DecodeStep::More(s) => DecodeStepModel::More(*s),
        }
    }
}

/// One step of the decode state machine. `chunk` is exactly the bytes the
/// state asked for; the step finishes the packet, names the next state, or
/// fails for good.
pub fn decode_step(s: DecodeState, chunk: Vec<u8>) -> (r: Result<DecodeStep, DecodeFailure>)
    requires
        chunk@.len() == s.spec_need(),
    ensures
        match (r, spec_step(s, chunk@)) {
            (Ok(st), Ok(sm)) => st@ == sm,
            (Err(f), Err(fm)) => f == fm,
            _ => false,
        },
{
    match s {
        DecodeState::Tag => {
            let tag = chunk[0];
            if tag == PING_PACKET {
                Ok(DecodeStep::Done(TunnelTcpContract::Ping))
            } else if tag == PONG_PACKET {
                Ok(DecodeStep::Done(TunnelTcpContract::Pong))
            } else if tag == GREETING {
                Ok(DecodeStep::More(DecodeState::TextLen { tag, id: 0 }))
            } else if tag <= PAYLOAD {
                Ok(DecodeStep::More(DecodeState::Id { tag }))
            } else {
                Err(DecodeFailure::UnknownTag)
            }
        },
        DecodeState::Id { tag } => {
            let id = u32_from_le_bytes(&chunk);
            if tag == CONNECT_PACKET || tag == CAN_NOT_CONNECT_PACKET {
                Ok(DecodeStep::More(DecodeState::TextLen { tag, id }))
            } else if tag == CONNECTED_PACKET {
                Ok(DecodeStep::Done(TunnelTcpContract::Connected(id)))
            } else if tag == DISCONNECTED_A_PACKET {
                Ok(DecodeStep::Done(TunnelTcpContract::DisconnectedFromSideA(id)))
            } else if tag == DISCONNECTED_B_PACKET {
                Ok(DecodeStep::Done(TunnelTcpContract::DisconnectedFromSideB(id)))
            } else if tag == PAYLOAD {
                Ok(DecodeStep::More(DecodeState::PayloadLen { id }))
            } else {
                Err(DecodeFailure::UnknownTag)
            }
        },
        DecodeState::TextLen { tag, id } => Ok(
            DecodeStep::More(DecodeState::Text { tag, id, len: chunk[0] }),
        ),
        DecodeState::Text { tag, id, len: _ } => {
            match string_from_utf8(chunk) {
                None => Err(DecodeFailure::InvalidUtf8),
                Some(text) => {
                    if tag == CONNECT_PACKET {
                        Ok(DecodeStep::Done(TunnelTcpContract::ConnectTo { id, url: text }))
                    } else if tag == CAN_NOT_CONNECT_PACKET {
                        Ok(DecodeStep::Done(TunnelTcpContract::CanNotConnect { id, reason: text }))
                    } else if tag == GREETING {
                        Ok(DecodeStep::Done(TunnelTcpContract::Greeting(text)))
                    } else {
                        Err(DecodeFailure::UnknownTag)
                    }
                },
            }
        },
        DecodeState::PayloadLen { id } => Ok(
            DecodeStep::More(DecodeState::PayloadBytes { id, len: u32_from_le_bytes(&chunk) }),
        ),
        DecodeState::PayloadBytes { id, len: _ } => Ok(
            DecodeStep::Done(TunnelTcpContract::Payload { id, payload: chunk }),
        ),
    }
}

// ---------------------------------------------------------------------------
// The laws that make the codec a codec: encoding and decoding are lossless
// inverses, packet by packet and over whole back-to-back streams; an unknown
// tag and a truncated packet fail in exactly the advertised way.
// ---------------------------------------------------------------------------
/// The little-endian primitives are inverses: reading back the four bytes
/// of `v` yields `v` again.
pub proof fn lemma_le_u32_round_trip(v: u32)
    ensures
        le_u32_of(spec_u32_le(v)) == v,
{
    assert(((v & 0xff) as u8 as u32) | (((v >> 8) & 0xff) as u8 as u32) << 8 | (((v >> 16)
        & 0xff) as u8 as u32) << 16 | (((v >> 24) & 0xff) as u8 as u32) << 24 == v)
        by (bit_vector);
}

/// Every packet's encoding starts with its tag byte, so it is never empty.
pub proof fn lemma_serialize_len_pos(p: Packet)
    ensures
        p.spec_serialize().len() >= 1,
{
}

/// Running the decoder over a four-byte block yields the `u32` it holds
/// and hands the rest of the stream on.
proof fn lemma_run_le_u32_block(v: u32, tail: Seq<u8>)
    ensures
        (spec_u32_le(v) + tail).take(4) =~= spec_u32_le(v),
        (spec_u32_le(v) + tail).skip(4) =~= tail,
        le_u32_of((spec_u32_le(v) + tail).take(4)) == v,
{
    lemma_le_u32_round_trip(v);
    assert((spec_u32_le(v) + tail).take(4) =~= spec_u32_le(v));
}

/// Running the decoder from the text-length state over a pascal string
/// block decodes exactly the characters that were encoded.
proof fn lemma_run_pascal(tag: u8, id: u32, s: Seq<char>, rest: Seq<u8>)
    requires
        encode_utf8(s).len() <= 255,
        tag == CONNECT_PACKET || tag == CAN_NOT_CONNECT_PACKET || tag == GREETING,
    ensures
        spec_run(DecodeState::TextLen { tag, id }, spec_pascal_string(s) + rest) == Ok::<
            (Packet, int),
            DecodeFailure,
        >(
            (
                if tag == CONNECT_PACKET {
                    Packet::ConnectTo { id, url: s }
                } else if tag == CAN_NOT_CONNECT_PACKET {
                    Packet::CanNotConnect { id, reason: s }
                } else {
                    Packet::Greeting(s)
                },
                1 + encode_utf8(s).len() as int,
            ),
        ),
{
    let ebytes = encode_utf8(s);
    let l = ebytes.len() as int;
    let lb = ebytes.len() as u8;
    let b2 = spec_pascal_string(s) + rest;
    let b3 = ebytes + rest;
    encode_utf8_valid_utf8(s);
    encode_utf8_decode_utf8(s);
    let pkt = if tag == CONNECT_PACKET {
        Packet::ConnectTo { id, url: s }
    } else if tag == CAN_NOT_CONNECT_PACKET {
        Packet::CanNotConnect { id, reason: s }
    } else {
        Packet::Greeting(s)
    };
    let st3 = DecodeState::Text { tag, id, len: lb };
    assert(st3.spec_need() == l);
    assert(b3.take(l) =~= ebytes);
    assert(spec_step(st3, ebytes) == Ok::<DecodeStepModel, DecodeFailure>(
        DecodeStepModel::Done(pkt),
    ));
    assert(spec_run(st3, b3) == Ok::<(Packet, int), DecodeFailure>((pkt, l)));
    assert(b2.take(1) =~= seq![lb]);
    assert(b2.skip(1) =~= b3);
    assert(spec_run(DecodeState::TextLen { tag, id }, b2) == Ok::<(Packet, int), DecodeFailure>(
        (pkt, 1 + l),
    ));
}

/// Decoding starts over wherever an encoded packet starts: one encoded
/// packet followed by anything decodes to exactly that packet, consuming
/// exactly its own bytes. This is the heart of both the round-trip and
/// the concatenation laws.
#[verifier::rlimit(50)]
pub proof fn lemma_serialize_decode(p: Packet, rest: Seq<u8>)
    requires
        p.wf(),
    ensures
        spec_decode(p.spec_serialize() + rest) == Ok::<(Packet, int), DecodeFailure>(
            (p, p.spec_serialize().len() as int),
        ),
{
    let enc = p.spec_serialize();
    let b = enc + rest;
    match p {
        Packet::Ping => {
            assert(b.take(1) =~= seq![0u8]);
        },
        Packet::Pong => {
            assert(b.take(1) =~= seq![1u8]);
        },
        Packet::ConnectTo { id, url } => {
            let l = encode_utf8(url).len() as int;
            let b1 = spec_u32_le(id) + (spec_pascal_string(url) + rest);
            lemma_run_le_u32_block(id, spec_pascal_string(url) + rest);
            lemma_run_pascal(CONNECT_PACKET, id, url, rest);
            assert(spec_run(DecodeState::Id { tag: CONNECT_PACKET }, b1) == Ok::<
                (Packet, int),
                DecodeFailure,
            >((p, 5 + l)));
            assert(b.take(1) =~= seq![CONNECT_PACKET]);
            assert(b.skip(1) =~= b1);
            assert(enc.len() == 6 + l);
        },
        Packet::Connected(id) => {
            let b1 = spec_u32_le(id) + rest;
            lemma_run_le_u32_block(id, rest);
            assert(spec_run(DecodeState::Id { tag: CONNECTED_PACKET }, b1) == Ok::<
                (Packet, int),
                DecodeFailure,
            >((p, 4)));
            assert(b.take(1) =~= seq![CONNECTED_PACKET]);
            assert(b.skip(1) =~= b1);
        },
        Packet::CanNotConnect { id, reason } => {
            let l = encode_utf8(reason).len() as int;
            let b1 = spec_u32_le(id) + (spec_pascal_string(reason) + rest);
            lemma_run_le_u32_block(id, spec_pascal_string(reason) + rest);
            lemma_run_pascal(CAN_NOT_CONNECT_PACKET, id, reason, rest);
            assert(spec_run(DecodeState::Id { tag: CAN_NOT_CONNECT_PACKET }, b1) == Ok::<
                (Packet, int),
                DecodeFailure,
            >((p, 5 + l)));
            assert(b.take(1) =~= seq![CAN_NOT_CONNECT_PACKET]);
            assert(b.skip(1) =~= b1);
            assert(enc.len() == 6 + l);
        },
        Packet::DisconnectedFromSideA(id) => {
            let b1 = spec_u32_le(id) + rest;
            lemma_run_le_u32_block(id, rest);
            assert(spec_run(DecodeState::Id { tag: DISCONNECTED_A_PACKET }, b1) == Ok::<
                (Packet, int),
                DecodeFailure,
            >((p, 4)));
            assert(b.take(1) =~= seq![DISCONNECTED_A_PACKET]);
            assert(b.skip(1) =~= b1);
        },
        Packet::DisconnectedFromSideB(id) => {
            let b1 = spec_u32_le(id) + rest;
            lemma_run_le_u32_block(id, rest);
            assert(spec_run(DecodeState::Id { tag: DISCONNECTED_B_PACKET }, b1) == Ok::<
                (Packet, int),
                DecodeFailure,
            >((p, 4)));
            assert(b.take(1) =~= seq![DISCONNECTED_B_PACKET]);
            assert(b.skip(1) =~= b1);
        },
        Packet::Payload { id, payload } => {
            let pl = payload.len() as int;
            let lw = payload.len() as u32;
            let b3 = payload + rest;
            let b2 = spec_u32_le(lw) + b3;
            let b1 = spec_u32_le(id) + b2;
            let st3 = DecodeState::PayloadBytes { id, len: lw };
            assert(st3.spec_need() == pl);
            assert(b3.take(pl) =~= payload);
            assert(spec_run(st3, b3) == Ok::<(Packet, int), DecodeFailure>((p, pl)));
            lemma_run_le_u32_block(lw, b3);
            assert(spec_run(DecodeState::PayloadLen { id }, b2) == Ok::<
                (Packet, int),
                DecodeFailure,
            >((p, 4 + pl)));
            lemma_run_le_u32_block(id, b2);
            assert(spec_run(DecodeState::Id { tag: PAYLOAD }, b1) == Ok::<
                (Packet, int),
                DecodeFailure,
            >((p, 8 + pl)));
            assert(b.take(1) =~= seq![PAYLOAD]);
            assert(b.skip(1) =~= b1);
            assert(enc.len() == 9 + pl);
        },
        Packet::Greeting(phrase) => {
            lemma_run_pascal(GREETING, 0u32, phrase, rest);
            assert(b.take(1) =~= seq![GREETING]);
            assert(b.skip(1) =~= spec_pascal_string(phrase) + rest);
            assert(enc.len() == 2 + encode_utf8(phrase).len());
        },
    }
}

/// Round trip: decoding the encoding of any well-formed packet yields that
/// packet back, consuming the whole encoding.
pub proof fn lemma_round_trip(p: Packet)
    requires
        p.wf(),
    ensures
        spec_decode(p.spec_serialize()) == Ok::<(Packet, int), DecodeFailure>(
            (p, p.spec_serialize().len() as int),
        ),
{
    lemma_serialize_decode(p, Seq::empty());
    assert(p.spec_serialize() + Seq::<u8>::empty() =~= p.spec_serialize());
}

/// The bytes of a whole sequence of packets, encoded back to back.
pub open spec fn spec_serialize_seq(ps: Seq<Packet>) -> Seq<u8>
    decreases ps.len(),
{
    if ps.len() == 0 {
        Seq::empty()
    } else {
        ps[0].spec_serialize() + spec_serialize_seq(ps.drop_first())
    }
}

/// Decoding packets one after another until the source is exhausted.
pub open spec fn spec_decode_seq(b: Seq<u8>) -> Result<Seq<Packet>, DecodeFailure>
    decreases b.len(),
{
    if b.len() == 0 {
        Ok(Seq::empty())
    } else {
        match spec_decode(b) {
            Err(f) => Err(f),
            Ok(pn) => if 0 < pn.1 <= b.len() {
                match spec_decode_seq(b.skip(pn.1)) {
                    Ok(ps) => Ok(seq![pn.0] + ps),
                    Err(f) => Err(f),
                }
            } else {
                // a successful decode always consumes between 1 byte and the whole source
                Err(DecodeFailure::Incomplete)
            },
        }
    }
}

/// Concatenation: encoding packets back to back and decoding sequentially
/// yields exactly those packets, in order, with the source exhausted after
/// the last one.
pub proof fn lemma_serialize_seq_decode_seq(ps: Seq<Packet>)
    requires
        forall|i: int| 0 <= i < ps.len() ==> #[trigger] ps[i].wf(),
    ensures
        spec_decode_seq(spec_serialize_seq(ps)) == Ok::<Seq<Packet>, DecodeFailure>(ps),
    decreases ps.len(),
{
    if ps.len() == 0 {
        assert(spec_serialize_seq(ps).len() == 0);
        assert(ps =~= Seq::<Packet>::empty());
    } else {
        let p = ps[0];
        let tail = ps.drop_first();
        let rest = spec_serialize_seq(tail);
        let enc = p.spec_serialize();
        let b = spec_serialize_seq(ps);
        assert(ps[0].wf());
        lemma_serialize_decode(p, rest);
        lemma_serialize_len_pos(p);
        assert(b == enc + rest);
        assert(b.skip(enc.len() as int) =~= rest);
        assert forall|i: int| 0 <= i < tail.len() implies #[trigger] tail[i].wf() by {
            assert(tail[i] == ps[i + 1]);
        }
        lemma_serialize_seq_decode_seq(tail);
        assert(spec_decode_seq(b) == Ok::<Seq<Packet>, DecodeFailure>(seq![p] + tail));
        assert(seq![p] + tail =~= ps);
    }
}

/// Unknown tag: a stream whose first byte names no packet kind fails with
/// `UnknownTag`, whatever follows — never a packet, never a panic.
pub proof fn lemma_unknown_tag(b: Seq<u8>)
    requires
        b.len() >= 1,
        b[0] > GREETING,
    ensures
        spec_decode(b) == Err::<(Packet, int), DecodeFailure>(DecodeFailure::UnknownTag),
{
    assert(b.take(1) =~= seq![b[0]]);
}

/// A successful run consumes at least what its first state asked for and
/// never more than the source holds.
proof fn lemma_run_bounds(s: DecodeState, b: Seq<u8>)
    requires
        spec_run(s, b) is Ok,
    ensures
        s.spec_need() <= spec_run(s, b).unwrap().1 <= b.len(),
    decreases b.len(),
{
    let need = s.spec_need();
    match spec_step(s, b.take(need)) {
        Ok(DecodeStepModel::More(s2)) => {
            lemma_run_bounds(s2, b.skip(need));
        },
        _ => {},
    }
}

/// Cutting a decodable stream anywhere before the packet's end turns the
/// outcome into `Incomplete`, from whatever decoder state.
proof fn lemma_run_prefix(s: DecodeState, b: Seq<u8>, i: int)
    requires
        spec_run(s, b) is Ok,
        0 <= i < spec_run(s, b).unwrap().1,
    ensures
        spec_run(s, b.take(i)) == Err::<(Packet, int), DecodeFailure>(DecodeFailure::Incomplete),
    decreases b.len(),
{
    let need = s.spec_need();
    lemma_run_bounds(s, b);
    if i < need {
        assert(b.take(i).len() < need);
    } else {
        assert(b.take(i).take(need) =~= b.take(need));
        match spec_step(s, b.take(need)) {
            Ok(DecodeStepModel::Done(_)) => {
                assert(false);
            },
            Ok(DecodeStepModel::More(s2)) => {
                assert(need > 0);
                assert(b.take(i).skip(need) =~= b.skip(need).take(i - need));
                lemma_run_prefix(s2, b.skip(need), i - need);
            },
            Err(_) => {
                assert(false);
            },
        }
    }
}

/// Truncation: every strict prefix of one packet's encoding decodes to the
/// distinct `Incomplete` failure — never a packet, and never a
/// malformed-content failure.
pub proof fn lemma_truncated_incomplete(p: Packet, i: int)
    requires
        p.wf(),
        0 <= i < p.spec_serialize().len(),
    ensures
        spec_decode(p.spec_serialize().take(i)) == Err::<(Packet, int), DecodeFailure>(
            DecodeFailure::Incomplete,
        ),
{
    lemma_round_trip(p);
    lemma_run_prefix(DecodeState::Tag, p.spec_serialize(), i);
}

} // verus!
