//! The discriminated message protocol crossing the native/host boundary.
//!
//! Each message and response is self-describing: a 32-bit length prefix
//! covering the payload, a one-byte type discriminant, then the variant's
//! fields in the fixed-width encoding of [`crate::codec`]. Decoding
//! rejects malformed, truncated or trailing input and never reads past
//! the given bytes; decoding an encoded value always returns the
//! original.

use vstd::prelude::*;

use crate::codec::MAX_WIRE_LEN;
use crate::codec::lemma_parse_samples_at;
use crate::codec::lemma_parse_string_at;
use crate::codec::parse_samples;
use crate::codec::parse_string;
use crate::codec::parse_u32;
use crate::codec::read_samples;
use crate::codec::read_string;
use crate::codec::read_u32;
use crate::codec::samples_bytes;
use crate::codec::string_bytes;
use crate::codec::u32_le;
use crate::codec::write_samples;
use crate::codec::write_string;
use crate::codec::write_u32;
use crate::errors::DeserializeError;
use crate::normalize::Sample;
use crate::wake::WakeWordDetection;

verus! {

/// The status of a native-to-host message.
#[derive(Clone, Copy, Debug, PartialEq, Eq)]
pub enum MessageStatus {
    /// The request was handled.
    Success,
    /// The request failed; the payload describes why.
    Error,
}

impl MessageStatus {
    /// The wire byte of this status.
    pub open spec fn spec_byte(self) -> u8 {
        match self {
            MessageStatus::Success => 0,
            MessageStatus::Error => 1,
        }
    }

    /// Encodes this status as its wire byte.
    pub fn to_byte(self) -> (b: u8)
        ensures
            b == self.spec_byte(),
    {
        match self {
            MessageStatus::Success => 0,
            MessageStatus::Error => 1,
        }
    }

    /// Decodes a status byte; bytes other than the two defined statuses
    /// are rejected.
    pub fn try_from(value: u8) -> (r: Result<MessageStatus, String>)
        ensures
            value == 0 ==> (r matches Ok(s) && s is Success),
            value == 1 ==> (r matches Ok(s) && s is Error),
            value >= 2 ==> r is Err,
    {
        match value {
            0 => Ok(MessageStatus::Success),
            1 => Ok(MessageStatus::Error),
            _ => Err(String::from_str("unknown message status byte")),
        }
    }
}

/// A status-tagged byte payload sent from the native side to the host.
#[derive(Debug)]
pub struct RustMessage {
    /// Whether the payload is a result or an error description.
    pub status: MessageStatus,
    /// The advertised payload length, as the host will see it.
    pub byte_len: usize,
    /// The payload itself.
    pub message: Vec<u8>,
}

/// The mathematical content of a [`RustMessage`].
pub struct RustMessageModel {
    /// Whether the payload is a result or an error description.
    pub status: MessageStatus,
    /// The advertised payload length.
    pub byte_len: int,
    /// The payload itself.
    pub message: Seq<u8>,
}

impl View for RustMessage {
    type V = RustMessageModel;

    open spec fn view(&self) -> RustMessageModel {
        RustMessageModel {
            status: self.status,
            byte_len: self.byte_len as int,
            message: self.message@,
        }
    }
}

/// Whether a rust message fits the 32-bit wire lengths.
pub open spec fn rust_message_fits(m: RustMessageModel) -> bool {
    &&& 0 <= m.byte_len <= MAX_WIRE_LEN
    &&& m.message.len() <= MAX_WIRE_LEN
}

/// The bytes of a rust message: status, advertised length, payload length,
/// payload.
pub open spec fn rust_message_bytes(m: RustMessageModel) -> Seq<u8> {
    seq![m.status.spec_byte()] + u32_le(m.byte_len as u32) + u32_le(m.message.len() as u32)
        + m.message
}

/// Reads a whole rust message: `Some` exactly when the bytes are a
/// complete, well-formed encoding with nothing left over.
pub open spec fn parse_rust_message(b: Seq<u8>) -> Option<RustMessageModel> {
    if b.len() < 1 || (b[0] != 0 && b[0] != 1) {
        None
    } else {
        let status = if b[0] == 0 {
            MessageStatus::Success
        } else {
            MessageStatus::Error
        };
        match parse_u32(b, 1) {
            None => None,
            Some((adv, p1)) => match parse_u32(b, p1) {
                None => None,
                Some((n, p2)) => if p2 + n as int == b.len() {
                    Some(
                        RustMessageModel {
                            status,
                            byte_len: adv as int,
                            message: b.subrange(p2, b.len() as int),
                        },
                    )
                } else {
                    None
                },
            },
        }
    }
}

/// Encodes a rust message into a freshly allocated buffer holding exactly
/// its encoding.
pub fn encode_rust_message(m: &RustMessage) -> (r: Vec<u8>)
    requires
        rust_message_fits(m@),
    ensures
        r@ == rust_message_bytes(m@),
{
    let mut out: Vec<u8> = Vec::new();
    out.push(m.status.to_byte());
    write_u32(&mut out, m.byte_len as u32);
    write_u32(&mut out, m.message.len() as u32);
    out.extend_from_slice(m.message.as_slice());
    proof {
        assert(out@ =~= rust_message_bytes(m@));
    }
    out
}

/// Decodes a rust message from host bytes, rejecting malformed or
/// trailing input.
pub fn decode_rust_message(b: &Vec<u8>) -> (r: Result<RustMessage, DeserializeError>)
    ensures
        match parse_rust_message(b@) {
            Some(m) => r matches Ok(rm) && rm@ == m,
            None => r is Err,
        },
{
    if b.len() < 1 {
        return Err(DeserializeError::new("empty input for a message"));
    }
    let status = match MessageStatus::try_from(b[0]) {
        Ok(s) => s,
        Err(_) => {
            return Err(DeserializeError::new("unknown message status byte"));
        },
    };
    let (adv, p1) = match read_u32(b, 1) {
        Ok(p) => p,
        Err(e) => {
            return Err(e);
        },
    };
    let (n, p2) = match read_u32(b, p1) {
        Ok(p) => p,
        Err(e) => {
            return Err(e);
        },
    };
    if n as usize != b.len() - p2 {
        return Err(DeserializeError::new("payload length mismatch"));
    }
    let mut message: Vec<u8> = Vec::new();
    let mut k: usize = p2;
    while k < b.len()
        invariant
            p2 <= k <= b@.len(),
            message@ == b@.subrange(p2 as int, k as int),
        decreases b@.len() - k,
    {
        message.push(b[k]);
        proof {
            assert(message@ =~= b@.subrange(p2 as int, k as int + 1));
        }
        k = k + 1;
    }
    proof {
        assert(message@ =~= b@.subrange(p2 as int, b@.len() as int));
    }
    Ok(RustMessage { status, byte_len: adv as usize, message })
}

/// Decoding the encoding of any rust message that fits the wire limits
/// yields that message exactly.
pub proof fn lemma_rust_message_round_trip(m: RustMessageModel)
    requires
        rust_message_fits(m),
    ensures
        parse_rust_message(rust_message_bytes(m)) == Some(m),
{
    let b = rust_message_bytes(m);
    assert(b[0] == m.status.spec_byte());
    assert(b.subrange(1, 5) =~= u32_le(m.byte_len as u32));
    crate::codec::lemma_parse_u32_at(b, 1, m.byte_len as u32);
    assert(b.subrange(5, 9) =~= u32_le(m.message.len() as u32));
    crate::codec::lemma_parse_u32_at(b, 5, m.message.len() as u32);
    assert(b.subrange(9, b.len() as int) =~= m.message);
}

/// A host signal carrying the path of the speech model to load.
#[derive(Debug)]
pub struct ModelPath {
    /// Path to the model on the host filesystem.
    pub path: String,
}

/// A request from the host to the native side.
#[derive(Debug)]
pub enum Message {
    /// Load the speech model at the given path.
    LoadModel { path: String },
    /// Feed captured samples into the session.
    UpdateAudioData { samples: Vec<Sample> },
    /// Check the current window for wake words.
    DetectWakeWords,
    /// Transcribe the current window.
    Transcribe,
    /// Echo diagnostic text.
    Debug { text: String },
}

/// The mathematical content of a [`Message`].
pub enum MessageModel {
    /// Load the speech model at the given path.
    LoadModel { path: Seq<char> },
    /// Feed captured samples into the session.
    UpdateAudioData { samples: Seq<Sample> },
    /// Check the current window for wake words.
    DetectWakeWords,
    /// Transcribe the current window.
    Transcribe,
    /// Echo diagnostic text.
    Debug { text: Seq<char> },
}

impl View for Message {
    type V = MessageModel;

    open spec fn view(&self) -> MessageModel {
        match self {
            Message::LoadModel { path } => MessageModel::LoadModel { path: path@ },
            Message::UpdateAudioData { samples } => MessageModel::UpdateAudioData {
                samples: samples@,
            },
            Message::DetectWakeWords => MessageModel::DetectWakeWords,
            Message::Transcribe => MessageModel::Transcribe,
            Message::Debug { text } => MessageModel::Debug { text: text@ },
        }
    }
}

/// The payload of a message: a type discriminant, then the variant's
/// fields.
pub open spec fn message_payload(m: MessageModel) -> Seq<u8> {
    match m {
        MessageModel::LoadModel { path } => seq![0u8] + string_bytes(path),
        MessageModel::UpdateAudioData { samples } => seq![1u8] + samples_bytes(samples),
        MessageModel::DetectWakeWords => seq![2u8],
        MessageModel::Transcribe => seq![3u8],
        MessageModel::Debug { text } => seq![4u8] + string_bytes(text),
    }
}

/// The bytes of a message: the payload length, then the payload.
pub open spec fn message_bytes(m: MessageModel) -> Seq<u8> {
    u32_le(message_payload(m).len() as u32) + message_payload(m)
}

/// Whether a message fits the 32-bit wire lengths.
pub open spec fn message_fits(m: MessageModel) -> bool {
    &&& match m {
        MessageModel::LoadModel { path } => path.len() <= MAX_WIRE_LEN,
        MessageModel::UpdateAudioData { samples } => samples.len() <= MAX_WIRE_LEN,
        MessageModel::DetectWakeWords => true,
        MessageModel::Transcribe => true,
        MessageModel::Debug { text } => text.len() <= MAX_WIRE_LEN,
    }
    &&& message_payload(m).len() <= MAX_WIRE_LEN
}

/// Reads a whole message: `Some` exactly when the bytes are a complete,
/// well-formed encoding with nothing left over.
pub open spec fn parse_message(b: Seq<u8>) -> Option<MessageModel> {
    match parse_u32(b, 0) {
        None => None,
        Some((plen, p1)) => if plen as int != b.len() - 4 || b.len() < 5 {
            None
        } else {
            let tag = b[4];
            if tag == 0 {
                match parse_string(b, 5) {
                    None => None,
                    Some((path, p)) => if p == b.len() {
                        Some(MessageModel::LoadModel { path })
                    } else {
                        None
                    },
                }
            } else if tag == 1 {
                match parse_samples(b, 5) {
                    None => None,
                    Some((samples, p)) => if p == b.len() {
                        Some(MessageModel::UpdateAudioData { samples })
                    } else {
                        None
                    },
                }
            } else if tag == 2 {
                if b.len() == 5 {
                    Some(MessageModel::DetectWakeWords)
                } else {
                    None
                }
            } else if tag == 3 {
                if b.len() == 5 {
                    Some(MessageModel::Transcribe)
                } else {
                    None
                }
            } else if tag == 4 {
                match parse_string(b, 5) {
                    None => None,
                    Some((text, p)) => if p == b.len() {
                        Some(MessageModel::Debug { text })
                    } else {
                        None
                    },
                }
            } else {
                None
            }
        },
    }
}

/// Encodes a message into a freshly allocated buffer holding exactly its
/// encoding.
pub fn encode_message(m: &Message) -> (r: Vec<u8>)
    requires
        message_fits(m@),
    ensures
        r@ == message_bytes(m@),
{
    let mut payload: Vec<u8> = Vec::new();
    match m {
        Message::LoadModel { path } => {
            payload.push(0);
            write_string(&mut payload, path.as_str());
        },
        Message::UpdateAudioData { samples } => {
            payload.push(1);
            write_samples(&mut payload, samples);
        },
        Message::DetectWakeWords => {
            payload.push(2);
        },
        Message::Transcribe => {
            payload.push(3);
        },
        Message::Debug { text } => {
            payload.push(4);
            write_string(&mut payload, text.as_str());
        },
    }
    proof {
        assert(payload@ =~= message_payload(m@));
    }
    let mut out: Vec<u8> = Vec::new();
    write_u32(&mut out, payload.len() as u32);
    out.append(&mut payload);
    proof {
        assert(out@ =~= message_bytes(m@));
    }
    out
}

/// Decodes a message from host bytes, rejecting malformed or trailing
/// input.
pub fn decode_message(b: &Vec<u8>) -> (r: Result<Message, DeserializeError>)
    ensures
        match parse_message(b@) {
            Some(m) => r matches Ok(msg) && msg@ == m,
            None => r is Err,
        },
{
    let (plen, _p1) = match read_u32(b, 0) {
        Ok(p) => p,
        Err(e) => {
            return Err(e);
        },
    };
    if plen as usize != b.len() - 4 || b.len() < 5 {
        return Err(DeserializeError::new("message length prefix mismatch"));
    }
    let tag = b[4];
    if tag == 0 {
        let (path, p) = match read_string(b, 5) {
            Ok(p) => p,
            Err(e) => {
                return Err(e);
            },
        };
        if p != b.len() {
            return Err(DeserializeError::new("trailing bytes after message"));
        }
        Ok(Message::LoadModel { path })
    } else if tag == 1 {
        let (samples, p) = match read_samples(b, 5) {
            Ok(p) => p,
            Err(e) => {
                return Err(e);
            },
        };
        if p != b.len() {
            return Err(DeserializeError::new("trailing bytes after message"));
        }
        Ok(Message::UpdateAudioData { samples })
    } else if tag == 2 {
        if b.len() != 5 {
            return Err(DeserializeError::new("trailing bytes after message"));
        }
        Ok(Message::DetectWakeWords)
    } else if tag == 3 {
        if b.len() != 5 {
            return Err(DeserializeError::new("trailing bytes after message"));
        }
        Ok(Message::Transcribe)
    } else if tag == 4 {
        let (text, p) = match read_string(b, 5) {
            Ok(p) => p,
            Err(e) => {
                return Err(e);
            },
        };
        if p != b.len() {
            return Err(DeserializeError::new("trailing bytes after message"));
        }
        Ok(Message::Debug { text })
    } else {
        Err(DeserializeError::new("unknown message discriminant"))
    }
}

/// Truncation law: no strict prefix of a message's encoding parses, so a
/// decoder fed a truncated buffer reports an error instead of a value.
pub proof fn lemma_truncated_message_rejected(m: MessageModel, k: int)
    requires
        message_fits(m),
        0 <= k < message_bytes(m).len(),
    ensures
        parse_message(message_bytes(m).take(k)) is None,
{
    let payload = message_payload(m);
    let b = message_bytes(m);
    let t = b.take(k);
    if k >= 4 {
        assert(t.subrange(0, 4) =~= u32_le(payload.len() as u32));
        crate::codec::lemma_parse_u32_at(t, 0, payload.len() as u32);
        assert(t.len() - 4 < payload.len());
    }
}

/// A reply from the native side to the host.
#[derive(Debug)]
pub enum Response {
    /// A finished transcript.
    Text { text: String },
    /// The outcome of a wake-word scan.
    WakeWordDetection { detection: WakeWordDetection },
    /// A structured failure description.
    Error { message: String },
}

/// The mathematical content of a [`Response`].
pub enum ResponseModel {
    /// A finished transcript.
    Text { text: Seq<char> },
    /// The outcome of a wake-word scan.
    WakeWordDetection { detection: WakeWordDetection },
    /// A structured failure description.
    Error { message: Seq<char> },
}

impl View for Response {
    type V = ResponseModel;

    open spec fn view(&self) -> ResponseModel {
        match self {
            Response::Text { text } => ResponseModel::Text { text: text@ },
            Response::WakeWordDetection { detection } => ResponseModel::WakeWordDetection {
                detection: *detection,
            },
            Response::Error { message } => ResponseModel::Error { message: message@ },
        }
    }
}

/// The bytes of an optional offset: an absence byte, or a presence byte
/// and the offset.
pub open spec fn opt_u32_bytes(o: Option<usize>) -> Seq<u8> {
    match o {
        None => seq![0u8],
        Some(v) => seq![1u8] + u32_le(v as u32),
    }
}

/// Reads an optional offset starting at `pos`.
pub open spec fn parse_opt_u32(b: Seq<u8>, pos: int) -> Option<(Option<usize>, int)> {
    if pos < 0 || pos >= b.len() {
        None
    } else if b[pos] == 0 {
        Some((None, pos + 1))
    } else if b[pos] == 1 {
        match parse_u32(b, pos + 1) {
            None => None,
            Some((v, p)) => Some((Some(v as usize), p)),
        }
    } else {
        None
    }
}

/// The bytes of a detection record: the flag, then both offsets.
pub open spec fn detection_bytes(d: WakeWordDetection) -> Seq<u8> {
    seq![if d.detected { 1u8 } else { 0u8 }] + opt_u32_bytes(d.start_idx) + opt_u32_bytes(
        d.end_idx,
    )
}

/// Reads a detection record starting at `pos`.
pub open spec fn parse_detection(b: Seq<u8>, pos: int) -> Option<(WakeWordDetection, int)> {
    if pos < 0 || pos >= b.len() || (b[pos] != 0 && b[pos] != 1) {
        None
    } else {
        let detected = b[pos] == 1;
        match parse_opt_u32(b, pos + 1) {
            None => None,
            Some((start_idx, p1)) => match parse_opt_u32(b, p1) {
                None => None,
                Some((end_idx, p2)) => Some(
                    (WakeWordDetection { detected, start_idx, end_idx }, p2),
                ),
            },
        }
    }
}

/// Whether a detection record's offsets fit the 32-bit wire lengths.
pub open spec fn detection_fits(d: WakeWordDetection) -> bool {
    &&& (d.start_idx matches Some(v) ==> v <= MAX_WIRE_LEN)
    &&& (d.end_idx matches Some(v) ==> v <= MAX_WIRE_LEN)
}

/// Appends the encoding of an optional offset.
fn write_opt_u32(out: &mut Vec<u8>, o: &Option<usize>)
    requires
        o matches Some(v) ==> v <= MAX_WIRE_LEN,
    ensures
        final(out)@ == old(out)@ + opt_u32_bytes(*o),
{
    match o {
        None => {
            out.push(0);
            proof {
                assert(out@ =~= old(out)@ + opt_u32_bytes(None));
            }
        },
        Some(v) => {
            out.push(1);
            write_u32(out, *v as u32);
            proof {
                assert(out@ =~= old(out)@ + opt_u32_bytes(Some(*v)));
            }
        },
    }
}

/// Reads the optional offset encoded at `pos`, advancing past it.
fn read_opt_u32(b: &Vec<u8>, pos: usize) -> (r: Result<(Option<usize>, usize), DeserializeError>)
    ensures
        match parse_opt_u32(b@, pos as int) {
            Some((o, next)) => r matches Ok(p) && p.0 == o && p.1 == next,
            None => r is Err,
        },
{
    if pos >= b.len() {
        return Err(DeserializeError::new("truncated input before an optional offset"));
    }
    let tag = b[pos];
    if tag == 0 {
        Ok((None, pos + 1))
    } else if tag == 1 {
        match read_u32(b, pos + 1) {
            Ok((v, p)) => Ok((Some(v as usize), p)),
            Err(e) => Err(e),
        }
    } else {
        Err(DeserializeError::new("unknown optional-offset tag"))
    }
}

/// The payload of a response: a type discriminant, then the variant's
/// fields.
pub open spec fn response_payload(r: ResponseModel) -> Seq<u8> {
    match r {
        ResponseModel::Text { text } => seq![0u8] + string_bytes(text),
        ResponseModel::WakeWordDetection { detection } => seq![1u8] + detection_bytes(detection),
        ResponseModel::Error { message } => seq![2u8] + string_bytes(message),
    }
}

/// The bytes of a response: the payload length, then the payload.
pub open spec fn response_bytes(r: ResponseModel) -> Seq<u8> {
    u32_le(response_payload(r).len() as u32) + response_payload(r)
}

/// Whether a response fits the 32-bit wire lengths.
pub open spec fn response_fits(r: ResponseModel) -> bool {
    &&& match r {
        ResponseModel::Text { text } => text.len() <= MAX_WIRE_LEN,
        ResponseModel::WakeWordDetection { detection } => detection_fits(detection),
        ResponseModel::Error { message } => message.len() <= MAX_WIRE_LEN,
    }
    &&& response_payload(r).len() <= MAX_WIRE_LEN
}

/// Reads a whole response: `Some` exactly when the bytes are a complete,
/// well-formed encoding with nothing left over.
pub open spec fn parse_response(b: Seq<u8>) -> Option<ResponseModel> {
    match parse_u32(b, 0) {
        None => None,
        Some((plen, p1)) => if plen as int != b.len() - 4 || b.len() < 5 {
            None
        } else {
            let tag = b[4];
            if tag == 0 {
                match parse_string(b, 5) {
                    None => None,
                    Some((text, p)) => if p == b.len() {
                        Some(ResponseModel::Text { text })
                    } else {
                        None
                    },
                }
            } else if tag == 1 {
                match parse_detection(b, 5) {
                    None => None,
                    Some((detection, p)) => if p == b.len() {
                        Some(ResponseModel::WakeWordDetection { detection })
                    } else {
                        None
                    },
                }
            } else if tag == 2 {
                match parse_string(b, 5) {
                    None => None,
                    Some((message, p)) => if p == b.len() {
                        Some(ResponseModel::Error { message })
                    } else {
                        None
                    },
                }
            } else {
                None
            }
        },
    }
}

/// Encodes a response into a freshly allocated buffer holding exactly its
/// encoding.
pub fn encode_response(r: &Response) -> (out: Vec<u8>)
    requires
        response_fits(r@),
    ensures
        out@ == response_bytes(r@),
{
    let mut payload: Vec<u8> = Vec::new();
    match r {
        Response::Text { text } => {
            payload.push(0);
            write_string(&mut payload, text.as_str());
        },
        Response::WakeWordDetection { detection } => {
            payload.push(1);
            payload.push(if detection.detected {
                1
            } else {
                0
            });
            write_opt_u32(&mut payload, &detection.start_idx);
            write_opt_u32(&mut payload, &detection.end_idx);
        },
        Response::Error { message } => {
            payload.push(2);
            write_string(&mut payload, message.as_str());
        },
    }
    proof {
        assert(payload@ =~= response_payload(r@));
    }
    let mut out: Vec<u8> = Vec::new();
    write_u32(&mut out, payload.len() as u32);
    out.append(&mut payload);
    proof {
        assert(out@ =~= response_bytes(r@));
    }
    out
}

/// Decodes a response from host bytes, rejecting malformed or trailing
/// input.
pub fn decode_response(b: &Vec<u8>) -> (r: Result<Response, DeserializeError>)
    ensures
        match parse_response(b@) {
            Some(m) => r matches Ok(resp) && resp@ == m,
            None => r is Err,
        },
{
    let (plen, _p1) = match read_u32(b, 0) {
        Ok(p) => p,
        Err(e) => {
            return Err(e);
        },
    };
    if plen as usize != b.len() - 4 || b.len() < 5 {
        return Err(DeserializeError::new("response length prefix mismatch"));
    }
    let tag = b[4];
    if tag == 0 {
        let (text, p) = match read_string(b, 5) {
            Ok(p) => p,
            Err(e) => {
                return Err(e);
            },
        };
        if p != b.len() {
            return Err(DeserializeError::new("trailing bytes after response"));
        }
        Ok(Response::Text { text })
    } else if tag == 1 {
        if b.len() < 6 {
            return Err(DeserializeError::new("truncated detection record"));
        }
        let flag = b[5];
        if flag != 0 && flag != 1 {
            return Err(DeserializeError::new("unknown detection flag"));
        }
        let detected = flag == 1;
        let (start_idx, p1) = match read_opt_u32(b, 6) {
            Ok(p) => p,
            Err(e) => {
                return Err(e);
            },
        };
        let (end_idx, p2) = match read_opt_u32(b, p1) {
            Ok(p) => p,
            Err(e) => {
                return Err(e);
            },
        };
        if p2 != b.len() {
            return Err(DeserializeError::new("trailing bytes after response"));
        }
        Ok(
            Response::WakeWordDetection {
                detection: WakeWordDetection { detected, start_idx, end_idx },
            },
        )
    } else if tag == 2 {
        let (message, p) = match read_string(b, 5) {
            Ok(p) => p,
            Err(e) => {
                return Err(e);
            },
        };
        if p != b.len() {
            return Err(DeserializeError::new("trailing bytes after response"));
        }
        Ok(Response::Error { message })
    } else {
        Err(DeserializeError::new("unknown response discriminant"))
    }
}

/// Parsing the bytes of an optional offset yields it back.
proof fn lemma_parse_opt_u32_at(b: Seq<u8>, pos: int, o: Option<usize>)
    requires
        0 <= pos,
        o matches Some(v) ==> v <= MAX_WIRE_LEN,
        pos + opt_u32_bytes(o).len() <= b.len(),
        b.subrange(pos, pos + opt_u32_bytes(o).len()) == opt_u32_bytes(o),
    ensures
        parse_opt_u32(b, pos) == Some((o, pos + opt_u32_bytes(o).len())),
{
    let ob = opt_u32_bytes(o);
    let all = b.subrange(pos, pos + ob.len() as int);
    assert(all[0] == b[pos]);
    match o {
        None => {
            assert(b[pos] == 0);
        },
        Some(v) => {
            assert(b[pos] == 1);
            assert(b.subrange(pos + 1, pos + 5) =~= all.subrange(1, 5));
            assert(all.subrange(1, 5) =~= u32_le(v as u32));
            crate::codec::lemma_parse_u32_at(b, pos + 1, v as u32);
        },
    }
}

/// Parsing the bytes of a detection record yields it back.
proof fn lemma_parse_detection_at(b: Seq<u8>, pos: int, d: WakeWordDetection)
    requires
        0 <= pos,
        detection_fits(d),
        pos + detection_bytes(d).len() <= b.len(),
        b.subrange(pos, pos + detection_bytes(d).len()) == detection_bytes(d),
    ensures
        parse_detection(b, pos) == Some((d, pos + detection_bytes(d).len())),
{
    let sb = opt_u32_bytes(d.start_idx);
    let eb = opt_u32_bytes(d.end_idx);
    let db = detection_bytes(d);
    let all = b.subrange(pos, pos + db.len() as int);
    let sl = sb.len() as int;
    let el = eb.len() as int;
    assert(all[0] == b[pos]);
    assert(b[pos] == (if d.detected {
        1u8
    } else {
        0u8
    }));
    assert(b.subrange(pos + 1, pos + 1 + sl) =~= all.subrange(1, 1 + sl));
    assert(all.subrange(1, 1 + sl) =~= sb);
    lemma_parse_opt_u32_at(b, pos + 1, d.start_idx);
    assert(b.subrange(pos + 1 + sl, pos + 1 + sl + el) =~= all.subrange(1 + sl, 1 + sl + el));
    assert(all.subrange(1 + sl, 1 + sl + el) =~= eb);
    lemma_parse_opt_u32_at(b, pos + 1 + sl, d.end_idx);
}

/// Round-trip law: decoding the encoding of any response that fits the
/// wire limits yields that response exactly.
pub proof fn lemma_response_round_trip(r: ResponseModel)
    requires
        response_fits(r),
    ensures
        parse_response(response_bytes(r)) == Some(r),
{
    let payload = response_payload(r);
    let b = response_bytes(r);
    assert(b.subrange(0, 4) =~= u32_le(payload.len() as u32));
    crate::codec::lemma_parse_u32_at(b, 0, payload.len() as u32);
    assert(b.len() == 4 + payload.len());
    assert(b[4] == payload[0]);
    match r {
        ResponseModel::Text { text } => {
            crate::codec::lemma_chars_bytes_len(text);
            assert(b.subrange(5, 5 + 4 + 4 * text.len() as int) =~= string_bytes(text));
            lemma_parse_string_at(b, 5, text);
        },
        ResponseModel::WakeWordDetection { detection } => {
            assert(b.subrange(5, 5 + detection_bytes(detection).len() as int) =~= detection_bytes(
                detection,
            ));
            lemma_parse_detection_at(b, 5, detection);
        },
        ResponseModel::Error { message } => {
            crate::codec::lemma_chars_bytes_len(message);
            assert(b.subrange(5, 5 + 4 + 4 * message.len() as int) =~= string_bytes(message));
            lemma_parse_string_at(b, 5, message);
        },
    }
}

/// Round-trip law: decoding the encoding of any message that fits the
/// wire limits yields that message exactly.
pub proof fn lemma_message_round_trip(m: MessageModel)
    requires
        message_fits(m),
    ensures
        parse_message(message_bytes(m)) == Some(m),
{
    let payload = message_payload(m);
    let b = message_bytes(m);
    assert(b.subrange(0, 4) =~= u32_le(payload.len() as u32));
    crate::codec::lemma_parse_u32_at(b, 0, payload.len() as u32);
    assert(b.len() == 4 + payload.len());
    assert(b[4] == payload[0]);
    match m {
        MessageModel::LoadModel { path } => {
            crate::codec::lemma_chars_bytes_len(path);
            assert(b.subrange(5, 5 + 4 + 4 * path.len() as int) =~= string_bytes(path));
            lemma_parse_string_at(b, 5, path);
        },
        MessageModel::UpdateAudioData { samples } => {
            crate::codec::lemma_samples_payload_len(samples);
            assert(b.subrange(5, 5 + 4 + 4 * samples.len() as int) =~= samples_bytes(samples));
            lemma_parse_samples_at(b, 5, samples);
        },
        MessageModel::DetectWakeWords => {
        },
        MessageModel::Transcribe => {
        },
        MessageModel::Debug { text } => {
            crate::codec::lemma_chars_bytes_len(text);
            assert(b.subrange(5, 5 + 4 + 4 * text.len() as int) =~= string_bytes(text));
            lemma_parse_string_at(b, 5, text);
        },
    }
}

} // verus!
