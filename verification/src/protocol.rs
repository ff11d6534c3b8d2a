//! The typed message protocol.
//!
//! One `Envelope` travels per transport frame.  The encoding is deterministic
//! and self-describing: the first byte is a variant discriminator, and chat
//! strings are carried as length-prefixed UTF-8 bytes (lengths as 8-byte
//! little-endian integers).  Decoding never panics on malformed input: an
//! unrecognized discriminator yields `ProtocolError::UnknownVariant`, and any
//! other invalid input yields `ProtocolError::MalformedPayload`, so the caller
//! can drop the offending frame without closing the connection.

use vstd::prelude::*;

use vstd::bytes::{
    lemma_auto_spec_u64_to_from_le_bytes, spec_u64_from_le_bytes, spec_u64_to_le_bytes,
    u64_from_le_bytes, u64_to_le_bytes,
};
use vstd::slice::slice_subrange;
use vstd::string::{StrSliceExecFns, StringSliceAdditionalSpecFns};
use vstd::utf8::{decode_utf8, encode_utf8, encode_utf8_decode_utf8, encode_utf8_valid_utf8,
    valid_utf8};

use crate::machine::MachineState;

verus! {

/// Discriminator byte of a chat envelope.
pub const TAG_CHAT: u8 = 0;

/// Discriminator byte of a control-event envelope.
pub const TAG_CONTROL: u8 = 1;

/// Discriminator byte of a state-notice envelope.
pub const TAG_NOTICE: u8 = 2;

/// A client-issued command intended to change the server's operational state.
#[derive(Clone, Copy, PartialEq, Eq, Structural, Debug)]
pub enum ControlEventKind {
    Start,
    Stop,
    Pause,
    Emergency,
    Power,
}

/// One decoded unit of the wire protocol; every envelope carries exactly one
/// variant.
#[derive(Clone, PartialEq, Eq, Debug)]
pub enum Envelope {
    /// Free-text chat, echoed to all connections tagged with its author.
    ChatMessage { author: String, body: String },
    /// A control event issued by a client.
    ControlEvent { kind: ControlEventKind },
    /// A server-issued notice that the operational state has changed.
    StateNotice { state: MachineState },
}

/// The mathematical value of an `Envelope`: its strings as character
/// sequences.  Contracts speak of this view.
#[verifier::ext_equal]
pub enum EnvelopeView {
    ChatMessage { author: Seq<char>, body: Seq<char> },
    ControlEvent { kind: ControlEventKind },
    StateNotice { state: MachineState },
}

impl View for Envelope {
    type V = EnvelopeView;

    open spec fn view(&self) -> EnvelopeView {
        match self {
            Envelope::ChatMessage { author, body } => EnvelopeView::ChatMessage {
                author: author@,
                body: body@,
            },
            Envelope::ControlEvent { kind } => EnvelopeView::ControlEvent { kind: *kind },
            Envelope::StateNotice { state } => EnvelopeView::StateNotice { state: *state },
        }
    }
}

/// Why a frame failed to decode.
#[derive(Clone, Copy, PartialEq, Eq, Structural, Debug)]
pub enum ProtocolError {
    /// The variant discriminator is not one this protocol defines.
    UnknownVariant,
    /// The discriminator is known but the payload does not have the shape the
    /// variant requires.
    MalformedPayload,
}

/// Wire byte of a control-event kind.
pub open spec fn kind_byte(kind: ControlEventKind) -> u8 {
    match kind {
        ControlEventKind::Start => 0,
        ControlEventKind::Stop => 1,
        ControlEventKind::Pause => 2,
        ControlEventKind::Emergency => 3,
        ControlEventKind::Power => 4,
    }
}

/// The control-event kind a wire byte stands for, if any.
pub open spec fn kind_of_byte(b: u8) -> Option<ControlEventKind> {
    if b == 0 {
        Some(ControlEventKind::Start)
    } else if b == 1 {
        Some(ControlEventKind::Stop)
    } else if b == 2 {
        Some(ControlEventKind::Pause)
    } else if b == 3 {
        Some(ControlEventKind::Emergency)
    } else if b == 4 {
        Some(ControlEventKind::Power)
    } else {
        None
    }
}

/// Wire byte of a machine state.
pub open spec fn state_byte(state: MachineState) -> u8 {
    match state {
        MachineState::Idle => 0,
        MachineState::Running => 1,
        MachineState::Paused => 2,
        MachineState::Stopped => 3,
        MachineState::EmergencyStop => 4,
    }
}

/// The machine state a wire byte stands for, if any.
pub open spec fn state_of_byte(b: u8) -> Option<MachineState> {
    if b == 0 {
        Some(MachineState::Idle)
    } else if b == 1 {
        Some(MachineState::Running)
    } else if b == 2 {
        Some(MachineState::Paused)
    } else if b == 3 {
        Some(MachineState::Stopped)
    } else if b == 4 {
        Some(MachineState::EmergencyStop)
    } else {
        None
    }
}

/// A string on the wire: 8-byte little-endian count of UTF-8 bytes, then the
/// bytes themselves.
pub open spec fn string_field(chars: Seq<char>) -> Seq<u8> {
    let utf8 = encode_utf8(chars);
    spec_u64_to_le_bytes(utf8.len() as u64) + utf8
}

/// The bytes an envelope encodes to.
pub open spec fn encode_spec(v: EnvelopeView) -> Seq<u8> {
    match v {
        EnvelopeView::ChatMessage { author, body } => seq![TAG_CHAT] + string_field(author)
            + string_field(body),
        EnvelopeView::ControlEvent { kind } => seq![TAG_CONTROL, kind_byte(kind)],
        EnvelopeView::StateNotice { state } => seq![TAG_NOTICE, state_byte(state)],
    }
}

/// Decoding of a chat payload (everything after the discriminator byte): two
/// length-prefixed UTF-8 strings filling the payload exactly.
pub open spec fn decode_chat_spec(payload: Seq<u8>) -> Result<EnvelopeView, ProtocolError> {
    if payload.len() < 8 {
        Err(ProtocolError::MalformedPayload)
    } else {
        let alen = spec_u64_from_le_bytes(payload.subrange(0, 8)) as int;
        if payload.len() < 8 + alen {
            Err(ProtocolError::MalformedPayload)
        } else {
            let abytes = payload.subrange(8, 8 + alen);
            let rest = payload.subrange(8 + alen, payload.len() as int);
            if rest.len() < 8 {
                Err(ProtocolError::MalformedPayload)
            } else {
                let blen = spec_u64_from_le_bytes(rest.subrange(0, 8)) as int;
                if rest.len() != 8 + blen {
                    Err(ProtocolError::MalformedPayload)
                } else {
                    let bbytes = rest.subrange(8, 8 + blen);
                    if valid_utf8(abytes) && valid_utf8(bbytes) {
                        Ok(EnvelopeView::ChatMessage {
                            author: decode_utf8(abytes),
                            body: decode_utf8(bbytes),
                        })
                    } else {
                        Err(ProtocolError::MalformedPayload)
                    }
                }
            }
        }
    }
}

/// The envelope a byte sequence decodes to, or the error that rejects it.
/// Every frame must be consumed exactly; trailing bytes are malformed.
pub open spec fn decode_spec(bytes: Seq<u8>) -> Result<EnvelopeView, ProtocolError> {
    if bytes.len() == 0 {
        Err(ProtocolError::MalformedPayload)
    } else if bytes[0] == TAG_CHAT {
        decode_chat_spec(bytes.drop_first())
    } else if bytes[0] == TAG_CONTROL {
        if bytes.len() != 2 {
            Err(ProtocolError::MalformedPayload)
        } else {
            match kind_of_byte(bytes[1]) {
                Some(kind) => Ok(EnvelopeView::ControlEvent { kind }),
                None => Err(ProtocolError::MalformedPayload),
            }
        }
    } else if bytes[0] == TAG_NOTICE {
        if bytes.len() != 2 {
            Err(ProtocolError::MalformedPayload)
        } else {
            match state_of_byte(bytes[1]) {
                Some(state) => Ok(EnvelopeView::StateNotice { state }),
                None => Err(ProtocolError::MalformedPayload),
            }
        }
    } else {
        Err(ProtocolError::UnknownVariant)
    }
}

/// A decode result, seen at the view level.
pub open spec fn decoded_view(r: Result<Envelope, ProtocolError>) -> Result<
    EnvelopeView,
    ProtocolError,
> {
    match r {
        Ok(env) => Ok(env@),
        Err(e) => Err(e),
    }
}

/// Appends one length-prefixed string field to the output buffer.
fn push_string_field(out: &mut Vec<u8>, s: &String)
    ensures
        final(out)@ == old(out)@ + string_field(s@),
{
    let utf8 = s.as_str().as_bytes_vec();
    assert(utf8@ == encode_utf8(s@));
    let mut prefix = u64_to_le_bytes(utf8.len() as u64);
    out.append(&mut prefix);
    let mut utf8 = utf8;
    out.append(&mut utf8);
}

fn kind_to_byte(kind: ControlEventKind) -> (b: u8)
    ensures
        b == kind_byte(kind),
{
    match kind {
        ControlEventKind::Start => 0,
        ControlEventKind::Stop => 1,
        ControlEventKind::Pause => 2,
        ControlEventKind::Emergency => 3,
        ControlEventKind::Power => 4,
    }
}

fn kind_from_byte(b: u8) -> (r: Option<ControlEventKind>)
    ensures
        r == kind_of_byte(b),
{
    if b == 0 {
        Some(ControlEventKind::Start)
    } else if b == 1 {
        Some(ControlEventKind::Stop)
    } else if b == 2 {
        Some(ControlEventKind::Pause)
    } else if b == 3 {
        Some(ControlEventKind::Emergency)
    } else if b == 4 {
        Some(ControlEventKind::Power)
    } else {
        None
    }
}

fn state_to_byte(state: MachineState) -> (b: u8)
    ensures
        b == state_byte(state),
{
    match state {
        MachineState::Idle => 0,
        MachineState::Running => 1,
        MachineState::Paused => 2,
        MachineState::Stopped => 3,
        MachineState::EmergencyStop => 4,
    }
}

fn state_from_byte(b: u8) -> (r: Option<MachineState>)
    ensures
        r == state_of_byte(b),
{
    if b == 0 {
        Some(MachineState::Idle)
    } else if b == 1 {
        Some(MachineState::Running)
    } else if b == 2 {
        Some(MachineState::Paused)
    } else if b == 3 {
        Some(MachineState::Stopped)
    } else if b == 4 {
        Some(MachineState::EmergencyStop)
    } else {
        None
    }
}

/// Encodes an envelope to its wire bytes.  Deterministic and self-describing;
/// the dispatcher encodes each broadcast exactly once.
pub fn encode(env: &Envelope) -> (bytes: Vec<u8>)
    ensures
        bytes@ == encode_spec(env@),
{
    let mut out: Vec<u8> = Vec::new();
    match env {
        Envelope::ChatMessage { author, body } => {
            out.push(TAG_CHAT);
            push_string_field(&mut out, author);
            push_string_field(&mut out, body);
            assert(out@ =~= encode_spec(env@));
        },
        Envelope::ControlEvent { kind } => {
            out.push(TAG_CONTROL);
            out.push(kind_to_byte(*kind));
            assert(out@ =~= encode_spec(env@));
        },
        Envelope::StateNotice { state } => {
            out.push(TAG_NOTICE);
            out.push(state_to_byte(*state));
            assert(out@ =~= encode_spec(env@));
        },
    }
    out
}

/// Relies on `String::from_utf8`: it succeeds exactly when the bytes are
/// valid UTF-8, and the string it returns is their decoding.
#[verifier::external_body]
fn string_from_utf8(bytes: &[u8]) -> (r: Option<String>)
    ensures
        r is Some <==> valid_utf8(bytes@),
        r matches Some(s) ==> s@ == decode_utf8(bytes@),
{
    String::from_utf8(bytes.to_vec()).ok()
}

/// Decodes the payload of a chat frame.
fn decode_chat(payload: &[u8]) -> (r: Result<Envelope, ProtocolError>)
    ensures
        decoded_view(r) == decode_chat_spec(payload@),
{
    let n = payload.len();
    if n < 8 {
        return Err(ProtocolError::MalformedPayload);
    }
    let alen64 = u64_from_le_bytes(slice_subrange(payload, 0, 8));
    if alen64 > (n - 8) as u64 {
        return Err(ProtocolError::MalformedPayload);
    }
    let alen = alen64 as usize;
    let abytes = slice_subrange(payload, 8, 8 + alen);
    let rest_start = 8 + alen;
    proof {
        assert(payload@.subrange(rest_start as int, n as int) =~= payload@.subrange(
            8 + alen64 as int,
            payload@.len() as int,
        ));
    }
    if n - rest_start < 8 {
        return Err(ProtocolError::MalformedPayload);
    }
    let blen64 = u64_from_le_bytes(slice_subrange(payload, rest_start, rest_start + 8));
    proof {
        let rest = payload@.subrange(rest_start as int, n as int);
        assert(rest.subrange(0, 8) =~= payload@.subrange(rest_start as int, rest_start + 8));
    }
    if blen64 != (n - rest_start - 8) as u64 {
        return Err(ProtocolError::MalformedPayload);
    }
    let blen = blen64 as usize;
    let bbytes = slice_subrange(payload, rest_start + 8, rest_start + 8 + blen);
    proof {
        let rest = payload@.subrange(rest_start as int, n as int);
        assert(rest.subrange(8, 8 + blen64 as int) =~= payload@.subrange(
            rest_start + 8,
            rest_start + 8 + blen64 as int,
        ));
    }
    let author = match string_from_utf8(abytes) {
        Some(s) => s,
        None => {
            return Err(ProtocolError::MalformedPayload);
        },
    };
    let body = match string_from_utf8(bbytes) {
        Some(s) => s,
        None => {
            return Err(ProtocolError::MalformedPayload);
        },
    };
    Ok(Envelope::ChatMessage { author, body })
}

/// Decodes one wire frame.  Never panics: invalid input is reported as a
/// `ProtocolError` so the caller can drop the frame and keep the connection.
pub fn decode(bytes: &[u8]) -> (r: Result<Envelope, ProtocolError>)
    ensures
        decoded_view(r) == decode_spec(bytes@),
{
    if bytes.len() == 0 {
        return Err(ProtocolError::MalformedPayload);
    }
    let tag = bytes[0];
    if tag == TAG_CHAT {
        let payload = slice_subrange(bytes, 1, bytes.len());
        assert(payload@ =~= bytes@.drop_first());
        decode_chat(payload)
    } else if tag == TAG_CONTROL {
        if bytes.len() != 2 {
            return Err(ProtocolError::MalformedPayload);
        }
        match kind_from_byte(bytes[1]) {
            Some(kind) => Ok(Envelope::ControlEvent { kind }),
            None => Err(ProtocolError::MalformedPayload),
        }
    } else if tag == TAG_NOTICE {
        if bytes.len() != 2 {
            return Err(ProtocolError::MalformedPayload);
        }
        match state_from_byte(bytes[1]) {
            Some(state) => Ok(Envelope::StateNotice { state }),
            None => Err(ProtocolError::MalformedPayload),
        }
    } else {
        Err(ProtocolError::UnknownVariant)
    }
}

/// Protocol round trip: decoding an encoding yields the original envelope,
/// for every variant.  The length bounds only say that each string's UTF-8
/// form fits in the 8-byte wire length, which holds of every real string.
pub proof fn lemma_round_trip(v: EnvelopeView)
    requires
        v matches EnvelopeView::ChatMessage { author, body } ==> encode_utf8(author).len()
            <= u64::MAX && encode_utf8(body).len() <= u64::MAX,
    ensures
        decode_spec(encode_spec(v)) == Ok::<EnvelopeView, ProtocolError>(v),
{
    lemma_auto_spec_u64_to_from_le_bytes();
    broadcast use encode_utf8_valid_utf8;
    broadcast use encode_utf8_decode_utf8;

    match v {
        EnvelopeView::ChatMessage { author, body } => {
            let ab = encode_utf8(author);
            let bb = encode_utf8(body);
            let enc = encode_spec(v);
            assert(enc[0] == TAG_CHAT);
            let payload = enc.drop_first();
            assert(payload =~= string_field(author) + string_field(body));
            assert(payload.subrange(0, 8) =~= spec_u64_to_le_bytes(ab.len() as u64));
            let alen = spec_u64_from_le_bytes(payload.subrange(0, 8)) as int;
            assert(alen == ab.len());
            assert(payload.subrange(8, 8 + alen) =~= ab);
            let rest = payload.subrange(8 + alen, payload.len() as int);
            assert(rest =~= string_field(body));
            assert(rest.subrange(0, 8) =~= spec_u64_to_le_bytes(bb.len() as u64));
            let blen = spec_u64_from_le_bytes(rest.subrange(0, 8)) as int;
            assert(blen == bb.len());
            assert(rest.subrange(8, 8 + blen) =~= bb);
            assert(decode_utf8(ab) == author);
            assert(decode_utf8(bb) == body);
        },
        EnvelopeView::ControlEvent { kind } => {
            let enc = encode_spec(v);
            assert(enc.len() == 2 && enc[0] == TAG_CONTROL && enc[1] == kind_byte(kind));
            assert(kind_of_byte(kind_byte(kind)) == Some(kind));
        },
        EnvelopeView::StateNotice { state } => {
            let enc = encode_spec(v);
            assert(enc.len() == 2 && enc[0] == TAG_NOTICE && enc[1] == state_byte(state));
            assert(state_of_byte(state_byte(state)) == Some(state));
        },
    }
}

/// Unknown-tag rejection: a frame whose discriminator names no variant is
/// rejected as `UnknownVariant`, whatever follows it.
pub proof fn lemma_unknown_tag(bytes: Seq<u8>)
    requires
        bytes.len() > 0,
        bytes[0] != TAG_CHAT,
        bytes[0] != TAG_CONTROL,
        bytes[0] != TAG_NOTICE,
    ensures
        decode_spec(bytes) == Err::<EnvelopeView, ProtocolError>(ProtocolError::UnknownVariant),
{
}

} // verus!
