//! The binary frame protocol of the real-time dialogue service.
//!
//! A frame is a fixed 4-byte header (`version | header size`, `type | flags`,
//! `serialization | compression`, reserved) followed by optional fields whose
//! presence is decided by the flags and the event: event (u32), session id
//! (string), connect id (string), sequence (i32), error code (u32, only for
//! error frames), and finally a length-prefixed payload. Integers are
//! big-endian; a string is its UTF-8 bytes preceded by their count as a
//! big-endian u32.

use vstd::prelude::*;
use vstd::string::StringExecFns;
use vstd::utf8::{decode_utf8, encode_utf8, valid_utf8};
use crate::wire::{be_i32_bytes, be_u32_bytes, i32_of_u32, u32_from_be};

verus! {

broadcast use vstd::utf8::group_utf8_lib;

#[verifier::external_type_specification]
#[verifier::external_body]
pub struct ExUtf8Error(std::str::Utf8Error);

#[verifier::external_type_specification]
#[verifier::external_body]
pub struct ExJsonError(serde_json::Error);

/// Errors of encoding and decoding frames.
#[derive(Debug)]
pub enum ProtocolError {
    InsufficientData,
    PayloadOverflow,
    MissingEvent,
    MissingSessionId,
    MissingConnectId,
    MissingSequence,
    MissingErrorCode,
    ReadOverflow,
    Utf8DecodeError(std::str::Utf8Error),
    JsonError(serde_json::Error),
}

/// What kind of error a [`ProtocolError`] is, without the details that the
/// standard library or the JSON encoder attached to it.
#[derive(Clone, Copy, Debug, PartialEq, Eq, Structural)]
pub enum ProtocolFault {
    InsufficientData,
    PayloadOverflow,
    MissingEvent,
    MissingSessionId,
    MissingConnectId,
    MissingSequence,
    MissingErrorCode,
    ReadOverflow,
    Utf8Decode,
    Json,
}

impl View for ProtocolError {
    type V = ProtocolFault;

    open spec fn view(&self) -> ProtocolFault {
        match self {
            ProtocolError::InsufficientData => ProtocolFault::InsufficientData,
            ProtocolError::PayloadOverflow => ProtocolFault::PayloadOverflow,
            ProtocolError::MissingEvent => ProtocolFault::MissingEvent,
            ProtocolError::MissingSessionId => ProtocolFault::MissingSessionId,
            ProtocolError::MissingConnectId => ProtocolFault::MissingConnectId,
            ProtocolError::MissingSequence => ProtocolFault::MissingSequence,
            ProtocolError::MissingErrorCode => ProtocolFault::MissingErrorCode,
            ProtocolError::ReadOverflow => ProtocolFault::ReadOverflow,
            ProtocolError::Utf8DecodeError(_) => ProtocolFault::Utf8Decode,
            ProtocolError::JsonError(_) => ProtocolFault::Json,
        }
    }
}

/// The text that describes a fault; for a UTF-8 or a JSON error it is
/// followed by the text of the underlying error.
pub open spec fn fault_text(f: ProtocolFault) -> Seq<char> {
    match f {
        ProtocolFault::InsufficientData => "数据长度不足"@,
        ProtocolFault::PayloadOverflow => "payload 长度越界"@,
        ProtocolFault::MissingEvent => "缺少 event"@,
        ProtocolFault::MissingSessionId => "缺少 session_id"@,
        ProtocolFault::MissingConnectId => "缺少 connect_id"@,
        ProtocolFault::MissingSequence => "缺少 sequence"@,
        ProtocolFault::MissingErrorCode => "缺少 error_code"@,
        ProtocolFault::ReadOverflow => "越界读取"@,
        ProtocolFault::Utf8Decode => "utf8 解码失败: "@,
        ProtocolFault::Json => "JSON 错误: "@,
    }
}

/// `ToString::to_string` of a `std::str::Utf8Error`, its `Display` text.
/// Nothing is claimed of the text.
#[verifier::external_body]
fn utf8_error_text(e: &std::str::Utf8Error) -> String {
    e.to_string()
}

/// `ToString::to_string` of a `serde_json::Error`, its `Display` text.
/// Nothing is claimed of the text.
#[verifier::external_body]
fn json_error_text(e: &serde_json::Error) -> String {
    e.to_string()
}

impl ProtocolError {
    /// The description of this error: the text of its kind, followed for a
    /// UTF-8 or a JSON error by the text of the underlying error.
    pub fn to_string(&self) -> (s: String)
        ensures
            match self {
                ProtocolError::Utf8DecodeError(_) | ProtocolError::JsonError(_) => {
                    &&& fault_text(self@).len() <= s@.len()
                    &&& s@.subrange(0, fault_text(self@).len() as int) == fault_text(self@)
                },
                _ => s@ == fault_text(self@),
            },
    {
        match self {
            ProtocolError::InsufficientData => String::from_str("数据长度不足"),
            ProtocolError::PayloadOverflow => String::from_str("payload 长度越界"),
            ProtocolError::MissingEvent => String::from_str("缺少 event"),
            ProtocolError::MissingSessionId => String::from_str("缺少 session_id"),
            ProtocolError::MissingConnectId => String::from_str("缺少 connect_id"),
            ProtocolError::MissingSequence => String::from_str("缺少 sequence"),
            ProtocolError::MissingErrorCode => String::from_str("缺少 error_code"),
            ProtocolError::ReadOverflow => String::from_str("越界读取"),
            ProtocolError::Utf8DecodeError(e) => {
                let s = String::from_str("utf8 解码失败: ").concat(utf8_error_text(e).as_str());
                assert(s@.subrange(0, fault_text(self@).len() as int) =~= fault_text(self@));
                s
            },
            ProtocolError::JsonError(e) => {
                let s = String::from_str("JSON 错误: ").concat(json_error_text(e).as_str());
                assert(s@.subrange(0, fault_text(self@).len() as int) =~= fault_text(self@));
                s
            },
        }
    }
}

impl From<std::str::Utf8Error> for ProtocolError {
    /// A UTF-8 decoding error.
    fn from(e: std::str::Utf8Error) -> (r: ProtocolError) {
        ProtocolError::Utf8DecodeError(e)
    }
}

impl vstd::std_specs::convert::FromSpecImpl<std::str::Utf8Error> for ProtocolError {
    open spec fn obeys_from_spec() -> bool {
        true
    }

    open spec fn from_spec(v: std::str::Utf8Error) -> ProtocolError {
        ProtocolError::Utf8DecodeError(v)
    }
}

impl From<serde_json::Error> for ProtocolError {
    /// A JSON encoding error.
    fn from(e: serde_json::Error) -> (r: ProtocolError) {
        ProtocolError::JsonError(e)
    }
}

impl vstd::std_specs::convert::FromSpecImpl<serde_json::Error> for ProtocolError {
    open spec fn obeys_from_spec() -> bool {
        true
    }

    open spec fn from_spec(v: serde_json::Error) -> ProtocolError {
        ProtocolError::JsonError(v)
    }
}

/// Message type, the high nibble of the second header byte.
#[derive(Clone, Copy, Debug, PartialEq, Eq, Structural)]
pub enum MsgType {
    Invalid,
    FullClient,
    AudioOnlyClient,
    FullServer,
    AudioOnlyServer,
    FrontEndResultServer,
    Error,
}

/// The 4-bit code of a message type.
pub open spec fn msg_type_bits(t: MsgType) -> u8 {
    match t {
        MsgType::Invalid => 0,
        MsgType::FullClient => 1,
        MsgType::AudioOnlyClient => 2,
        MsgType::FullServer => 9,
        MsgType::AudioOnlyServer => 11,
        MsgType::FrontEndResultServer => 12,
        MsgType::Error => 15,
    }
}

/// The message type of a 4-bit code; unknown codes are `Invalid`.
pub open spec fn msg_type_of_bits(bits: u8) -> MsgType {
    if bits == 1 {
        MsgType::FullClient
    } else if bits == 2 {
        MsgType::AudioOnlyClient
    } else if bits == 9 {
        MsgType::FullServer
    } else if bits == 11 {
        MsgType::AudioOnlyServer
    } else if bits == 12 {
        MsgType::FrontEndResultServer
    } else if bits == 15 {
        MsgType::Error
    } else {
        MsgType::Invalid
    }
}

impl MsgType {
    /// Maps a 4-bit type code to a message type.
    pub fn from_bits(bits: u8) -> (t: MsgType)
        ensures
            t == msg_type_of_bits(bits),
    {
        match bits {
            1 => MsgType::FullClient,
            2 => MsgType::AudioOnlyClient,
            9 => MsgType::FullServer,
            11 => MsgType::AudioOnlyServer,
            12 => MsgType::FrontEndResultServer,
            15 => MsgType::Error,
            _ => MsgType::Invalid,
        }
    }

    /// The 4-bit code of this message type.
    pub fn bits(&self) -> (b: u8)
        ensures
            b == msg_type_bits(*self),
            b < 16,
    {
        match self {
            MsgType::Invalid => 0,
            MsgType::FullClient => 1,
            MsgType::AudioOnlyClient => 2,
            MsgType::FullServer => 9,
            MsgType::AudioOnlyServer => 11,
            MsgType::FrontEndResultServer => 12,
            MsgType::Error => 15,
        }
    }
}

/// Every message type survives the trip through its 4-bit code.
pub proof fn lemma_msg_type_bits_roundtrip(t: MsgType)
    ensures
        msg_type_of_bits(msg_type_bits(t)) == t,
        msg_type_bits(t) < 16,
{
}

/// Flag bits, the low nibble of the second header byte.
pub const MSG_TYPE_FLAG_NO_SEQ: u8 = 0;
pub const MSG_TYPE_FLAG_POSITIVE_SEQ: u8 = 0b1;
pub const MSG_TYPE_FLAG_LAST_NO_SEQ: u8 = 0b10;
pub const MSG_TYPE_FLAG_NEGATIVE_SEQ: u8 = 0b11;
pub const MSG_TYPE_FLAG_WITH_EVENT: u8 = 0b100;

/// Protocol version, high nibble of the first header byte.
pub const VERSION_1: u8 = 0x10;
/// Header size in 4-byte units, low nibble of the first header byte.
pub const HEADER_SIZE_4: u8 = 0x1;
/// Raw binary payload (audio).
pub const SERIALIZATION_RAW: u8 = 0;
/// JSON payload.
pub const SERIALIZATION_JSON: u8 = 0x10;
/// No compression.
pub const COMPRESSION_NONE: u8 = 0;

/// A frame, with the conditional fields as options.
#[derive(Clone, Debug)]
pub struct Message {
    pub msg_type: MsgType,
    pub type_flag: u8,
    pub event: Option<u32>,
    pub session_id: Option<String>,
    pub connect_id: Option<String>,
    pub sequence: Option<i32>,
    pub error_code: Option<u32>,
    pub payload: Vec<u8>,
}

/// The mathematical value of a [`Message`].
pub struct MessageView {
    pub msg_type: MsgType,
    pub type_flag: u8,
    pub event: Option<u32>,
    pub session_id: Option<Seq<char>>,
    pub connect_id: Option<Seq<char>>,
    pub sequence: Option<i32>,
    pub error_code: Option<u32>,
    pub payload: Seq<u8>,
}

/// The characters of an optional string.
pub open spec fn opt_string_view(s: Option<String>) -> Option<Seq<char>> {
    match s {
        Some(s) => Some(s@),
        None => None,
    }
}

impl View for Message {
    type V = MessageView;

    open spec fn view(&self) -> MessageView {
        MessageView {
            msg_type: self.msg_type,
            type_flag: self.type_flag,
            event: self.event,
            session_id: opt_string_view(self.session_id),
            connect_id: opt_string_view(self.connect_id),
            sequence: self.sequence,
            error_code: self.error_code,
            payload: self.payload@,
        }
    }
}

/// A message of the given type with no optional field and an empty payload.
pub open spec fn empty_message(t: MsgType) -> MessageView {
    MessageView {
        msg_type: t,
        type_flag: 0,
        event: None,
        session_id: None,
        connect_id: None,
        sequence: None,
        error_code: None,
        payload: seq![],
    }
}

impl Message {
    /// A message of the given type with no optional field and an empty payload.
    pub fn new(msg_type: MsgType) -> (m: Message)
        ensures
            m@ == empty_message(msg_type),
    {
        Message {
            msg_type,
            type_flag: 0,
            event: None,
            session_id: None,
            connect_id: None,
            sequence: None,
            error_code: None,
            payload: Vec::new(),
        }
    }
}

/// Flag bit 2: the frame carries an event.
#[verifier::opaque]
pub open spec fn has_event(flag: u8) -> bool {
    (flag / 4) % 2 == 1
}

/// Flag bit 0: the frame carries a sequence number.
#[verifier::opaque]
pub open spec fn has_sequence(flag: u8) -> bool {
    flag % 2 == 1
}

/// The flag bits only depend on the low nibble of the flags.
pub proof fn lemma_flag_bits_low_nibble(flag: u8)
    ensures
        has_event(flag % 16) == has_event(flag),
        has_sequence(flag % 16) == has_sequence(flag),
{
    reveal(has_event);
    reveal(has_sequence);
}

/// Events of the connection itself (started, failed, finished).
pub open spec fn is_connection_event(e: u32) -> bool {
    e == 50 || e == 51 || e == 52
}

/// Events that carry neither a session id nor a connect id besides the
/// connection events: start and finish of the connection.
pub open spec fn is_session_free_event(e: u32) -> bool {
    e == 1 || e == 2 || is_connection_event(e)
}

/// The frame of `m` has a session id field.
pub open spec fn carries_session_id(m: MessageView) -> bool {
    &&& has_event(m.type_flag)
    &&& m.event matches Some(e) && !is_session_free_event(e)
}

/// The frame of `m` has a connect id field.
pub open spec fn carries_connect_id(m: MessageView) -> bool {
    &&& has_event(m.type_flag)
    &&& m.event matches Some(e) && is_connection_event(e)
}

/// The bytes of a string field: its UTF-8 length, then its UTF-8 bytes.
pub open spec fn string_field(s: Seq<char>) -> Seq<u8> {
    be_u32_bytes(encode_utf8(s).len() as u32) + encode_utf8(s)
}

/// The fixed header of the frame of `m`.
pub open spec fn frame_header(m: MessageView, serialization_and_compression: u8) -> Seq<u8> {
    seq![
        VERSION_1 | HEADER_SIZE_4,
        (msg_type_bits(m.msg_type) * 16 + m.type_flag % 16) as u8,
        serialization_and_compression,
        0u8,
    ]
}

/// The frame of `m`, or the first field the flags call for that `m` lacks.
#[verifier::opaque]
pub open spec fn spec_marshal_inner(m: MessageView, serialization_and_compression: u8) -> Result<
    Seq<u8>,
    ProtocolFault,
> {
    if has_event(m.type_flag) && m.event is None {
        Err(ProtocolFault::MissingEvent)
    } else if carries_session_id(m) && m.session_id is None {
        Err(ProtocolFault::MissingSessionId)
    } else if carries_connect_id(m) && m.connect_id is None {
        Err(ProtocolFault::MissingConnectId)
    } else if has_sequence(m.type_flag) && m.sequence is None {
        Err(ProtocolFault::MissingSequence)
    } else if m.msg_type == MsgType::Error && m.error_code is None {
        Err(ProtocolFault::MissingErrorCode)
    } else {
        Ok(
            frame_header(m, serialization_and_compression)
            + (if has_event(m.type_flag) { be_u32_bytes(m.event.unwrap()) } else { seq![] })
            + (if carries_session_id(m) { string_field(m.session_id.unwrap()) } else { seq![] })
            + (if carries_connect_id(m) { string_field(m.connect_id.unwrap()) } else { seq![] })
            + (if has_sequence(m.type_flag) { be_i32_bytes(m.sequence.unwrap()) } else { seq![] })
            + (if m.msg_type == MsgType::Error { be_u32_bytes(m.error_code.unwrap()) } else { seq![] })
            + be_u32_bytes(m.payload.len() as u32)
            + m.payload
        )
    }
}

/// The frame of `m` with a JSON payload.
pub open spec fn spec_marshal(m: MessageView) -> Result<Seq<u8>, ProtocolFault> {
    spec_marshal_inner(m, SERIALIZATION_JSON | COMPRESSION_NONE)
}

/// The frame of `m` with a raw payload.
pub open spec fn spec_marshal_raw(m: MessageView) -> Result<Seq<u8>, ProtocolFault> {
    spec_marshal_inner(m, SERIALIZATION_RAW | COMPRESSION_NONE)
}

/// An encoding result as the specification sees it.
pub open spec fn bytes_result_view(r: Result<Vec<u8>, ProtocolError>) -> Result<Seq<u8>, ProtocolFault> {
    match r {
        Ok(v) => Ok(v@),
        Err(e) => Err(e@),
    }
}

/// The big-endian u32 at `off`, if four bytes are there.
pub open spec fn read_u32_at(data: Seq<u8>, off: int) -> Option<u32> {
    if 0 <= off && off + 4 <= data.len() {
        Some(u32_from_be(data.subrange(off, off + 4)))
    } else {
        None
    }
}

/// The string field at `off` and the offset after it.
#[verifier::opaque]
pub open spec fn read_string_at(data: Seq<u8>, off: int) -> Result<(Seq<char>, int), ProtocolFault> {
    match read_u32_at(data, off) {
        None => Err(ProtocolFault::ReadOverflow),
        Some(len) => if len == 0 {
            Ok((seq![], off + 4))
        } else if off + 4 + len > data.len() {
            Err(ProtocolFault::ReadOverflow)
        } else if !valid_utf8(data.subrange(off + 4, off + 4 + len)) {
            Err(ProtocolFault::Utf8Decode)
        } else {
            Ok((decode_utf8(data.subrange(off + 4, off + 4 + len)), off + 4 + len))
        },
    }
}

/// Decoding, from `off` on: the payload.
#[verifier::opaque]
pub open spec fn decode_payload(data: Seq<u8>, m: MessageView, off: int) -> Result<
    (MessageView, int),
    ProtocolFault,
> {
    match read_u32_at(data, off) {
        None => Err(ProtocolFault::ReadOverflow),
        Some(len) => if len > 0 && off + 4 + len > data.len() {
            Err(ProtocolFault::PayloadOverflow)
        } else if len > 0 {
            Ok((MessageView { payload: data.subrange(off + 4, off + 4 + len), ..m }, off + 4 + len))
        } else {
            Ok((m, off + 4))
        },
    }
}

/// Decoding, from `off` on: the error code, then the rest.
#[verifier::opaque]
pub open spec fn decode_error_code(data: Seq<u8>, m: MessageView, off: int) -> Result<
    (MessageView, int),
    ProtocolFault,
> {
    if m.msg_type == MsgType::Error {
        match read_u32_at(data, off) {
            None => Err(ProtocolFault::ReadOverflow),
            Some(c) => decode_payload(data, MessageView { error_code: Some(c), ..m }, off + 4),
        }
    } else {
        decode_payload(data, m, off)
    }
}

/// Decoding, from `off` on: the sequence, then the rest.
#[verifier::opaque]
pub open spec fn decode_sequence(data: Seq<u8>, m: MessageView, off: int) -> Result<
    (MessageView, int),
    ProtocolFault,
> {
    if has_sequence(m.type_flag) {
        match read_u32_at(data, off) {
            None => Err(ProtocolFault::ReadOverflow),
            Some(u) => decode_error_code(
                data,
                MessageView { sequence: Some(i32_of_u32(u)), ..m },
                off + 4,
            ),
        }
    } else {
        decode_error_code(data, m, off)
    }
}

/// Decoding, from `off` on: the connect id, then the rest.
#[verifier::opaque]
pub open spec fn decode_connect_id(data: Seq<u8>, m: MessageView, off: int) -> Result<
    (MessageView, int),
    ProtocolFault,
> {
    if carries_connect_id(m) {
        match read_string_at(data, off) {
            Err(e) => Err(e),
            Ok((s, next)) => decode_sequence(data, MessageView { connect_id: Some(s), ..m }, next),
        }
    } else {
        decode_sequence(data, m, off)
    }
}

/// Decoding, from `off` on: the session id, then the rest.
#[verifier::opaque]
pub open spec fn decode_session_id(data: Seq<u8>, m: MessageView, off: int) -> Result<
    (MessageView, int),
    ProtocolFault,
> {
    if carries_session_id(m) {
        match read_string_at(data, off) {
            Err(e) => Err(e),
            Ok((s, next)) => decode_connect_id(data, MessageView { session_id: Some(s), ..m }, next),
        }
    } else {
        decode_connect_id(data, m, off)
    }
}

/// Decoding, from `off` on: the event, then the rest.
#[verifier::opaque]
pub open spec fn decode_event(data: Seq<u8>, m: MessageView, off: int) -> Result<
    (MessageView, int),
    ProtocolFault,
> {
    if has_event(m.type_flag) {
        match read_u32_at(data, off) {
            None => Err(ProtocolFault::ReadOverflow),
            Some(e) => decode_session_id(data, MessageView { event: Some(e), ..m }, off + 4),
        }
    } else {
        decode_session_id(data, m, off)
    }
}

/// The message at the start of `data` and the number of bytes its frame takes.
pub open spec fn spec_unmarshal(data: Seq<u8>) -> Result<(MessageView, int), ProtocolFault> {
    if data.len() < 4 {
        Err(ProtocolFault::InsufficientData)
    } else {
        decode_event(
            data,
            MessageView {
                type_flag: data[1] % 16,
                ..empty_message(msg_type_of_bits(data[1] / 16))
            },
            4,
        )
    }
}

/// A decoding result as the specification sees it.
pub open spec fn decode_result_view(r: Result<(Message, usize), ProtocolError>) -> Result<
    (MessageView, int),
    ProtocolFault,
> {
    match r {
        Ok((m, n)) => Ok((m@, n as int)),
        Err(e) => Err(e@),
    }
}

/// `std::str::from_utf8`: succeeds exactly when the bytes are valid UTF-8, and
/// then yields the string slice whose UTF-8 bytes are the input.
#[verifier::external_body]
fn utf8_str(bytes: &[u8]) -> (r: Result<&str, std::str::Utf8Error>)
    ensures
        r is Ok <==> valid_utf8(bytes@),
        r matches Ok(s) ==> encode_utf8(s@) == bytes@,
{
    std::str::from_utf8(bytes)
}

/// Flag bit 2 is set.
fn contains_event(type_flag: u8) -> (r: bool)
    ensures
        r == has_event(type_flag),
{
    reveal(has_event);
    assert((type_flag & 4u8 == 4u8) == ((type_flag / 4) % 2 == 1)) by (bit_vector);
    (type_flag & MSG_TYPE_FLAG_WITH_EVENT) == MSG_TYPE_FLAG_WITH_EVENT
}

/// Flag bit 0 is set (positive or negative sequence).
fn contains_sequence(type_flag: u8) -> (r: bool)
    ensures
        r == has_sequence(type_flag),
{
    reveal(has_sequence);
    assert(((type_flag & 1u8 == 1u8) || (type_flag & 3u8 == 3u8)) == (type_flag % 2 == 1))
        by (bit_vector);
    (type_flag & MSG_TYPE_FLAG_POSITIVE_SEQ) == MSG_TYPE_FLAG_POSITIVE_SEQ || (type_flag
        & MSG_TYPE_FLAG_NEGATIVE_SEQ) == MSG_TYPE_FLAG_NEGATIVE_SEQ
}

/// The frame of `msg` is to carry a session id.
fn should_write_session_id(msg: &Message) -> (r: bool)
    ensures
        r == carries_session_id(msg@),
        r == (msg.type_flag & 4u8 == 4u8 && msg.event is Some && {
            let e = msg.event.unwrap();
            !(e == 1 || e == 2 || e == 50 || e == 51 || e == 52)
        }),
        r ==> !carries_connect_id(msg@),
{
    proof {
        crate::codec_laws::lemma_field_presence(msg@);
    }
    match msg.event {
        None => false,
        Some(event) => contains_event(msg.type_flag) && !(event == 1 || event == 2 || event == 50
            || event == 51 || event == 52),
    }
}

/// The frame being decoded into `msg` carries a session id.
fn should_read_session_id(msg: &Message) -> (r: bool)
    ensures
        r == carries_session_id(msg@),
        r == (msg.type_flag & 4u8 == 4u8 && msg.event is Some && {
            let e = msg.event.unwrap();
            !(e == 1 || e == 2 || e == 50 || e == 51 || e == 52)
        }),
        r ==> !carries_connect_id(msg@),
{
    proof {
        crate::codec_laws::lemma_field_presence(msg@);
    }
    match msg.event {
        None => false,
        Some(event) => contains_event(msg.type_flag) && !(event == 1 || event == 2 || event == 50
            || event == 51 || event == 52),
    }
}

/// The frame of `msg` is to carry a connect id.
fn should_write_connect_id(msg: &Message) -> (r: bool)
    ensures
        r == carries_connect_id(msg@),
        r == (msg.type_flag & 4u8 == 4u8 && msg.event is Some && {
            let e = msg.event.unwrap();
            e == 50 || e == 51 || e == 52
        }),
        r ==> !carries_session_id(msg@),
{
    proof {
        crate::codec_laws::lemma_field_presence(msg@);
    }
    match msg.event {
        None => false,
        Some(event) => contains_event(msg.type_flag) && (event == 50 || event == 51 || event == 52),
    }
}

/// The frame being decoded into `msg` carries a connect id.
fn should_read_connect_id(msg: &Message) -> (r: bool)
    ensures
        r == carries_connect_id(msg@),
        r == (msg.type_flag & 4u8 == 4u8 && msg.event is Some && {
            let e = msg.event.unwrap();
            e == 50 || e == 51 || e == 52
        }),
        r ==> !carries_session_id(msg@),
{
    proof {
        crate::codec_laws::lemma_field_presence(msg@);
    }
    match msg.event {
        None => false,
        Some(event) => contains_event(msg.type_flag) && (event == 50 || event == 51 || event == 52),
    }
}

/// Reads one byte at `*offset` and moves past it.
fn read_u8(data: &[u8], offset: &mut usize) -> (r: Result<u8, ProtocolError>)
    ensures
        *old(offset) < data@.len() ==> r == Ok::<u8, ProtocolError>(data@[*old(offset) as int])
            && *final(offset) == *old(offset) + 1,
        *old(offset) >= data@.len() ==> (r matches Err(e) && e@ == ProtocolFault::ReadOverflow)
            && *final(offset) == *old(offset),
{
    if *offset >= data.len() {
        return Err(ProtocolError::ReadOverflow);
    }
    let v = data[*offset];
    *offset = *offset + 1;
    Ok(v)
}

/// Reads a big-endian u32 at `*offset` and moves past it.
fn read_u32_be(data: &[u8], offset: &mut usize) -> (r: Result<u32, ProtocolError>)
    ensures
        match read_u32_at(data@, *old(offset) as int) {
            None => (r matches Err(e) && e@ == ProtocolFault::ReadOverflow) && *final(offset)
                == *old(offset),
            Some(v) => r == Ok::<u32, ProtocolError>(v) && *final(offset) == *old(offset) + 4,
        },
{
    if *offset > data.len() || 4 > data.len() - *offset {
        return Err(ProtocolError::ReadOverflow);
    }
    let v = crate::wire::u32_at(data, *offset);
    *offset = *offset + 4;
    Ok(v)
}

/// Reads a big-endian two's-complement i32 at `*offset` and moves past it.
fn read_i32_be(data: &[u8], offset: &mut usize) -> (r: Result<i32, ProtocolError>)
    ensures
        match read_u32_at(data@, *old(offset) as int) {
            None => (r matches Err(e) && e@ == ProtocolFault::ReadOverflow) && *final(offset)
                == *old(offset),
            Some(u) => r == Ok::<i32, ProtocolError>(i32_of_u32(u)) && *final(offset) == *old(
                offset,
            ) + 4,
        },
{
    if *offset > data.len() || 4 > data.len() - *offset {
        return Err(ProtocolError::ReadOverflow);
    }
    let u = crate::wire::u32_at(data, *offset);
    *offset = *offset + 4;
    Ok(crate::wire::i32_from_bits(u))
}

/// Reads a string field at `*offset` and moves past it.
fn read_string_be(data: &[u8], offset: &mut usize) -> (r: Result<String, ProtocolError>)
    ensures
        match read_string_at(data@, *old(offset) as int) {
            Err(f) => r matches Err(e) && e@ == f,
            Ok((s, next)) => r matches Ok(v) && v@ == s && *final(offset) == next,
        },
        ({
            let o = *old(offset) as int;
            match read_u32_at(data@, o) {
                None => *final(offset) == o,
                Some(len) => if len == 0 || o + 4 + len > data@.len() {
                    *final(offset) == o + 4
                } else {
                    *final(offset) == o + 4 + len
                },
            }
        }),
{
    reveal(read_string_at);
    let len = read_u32_be(data, offset)? as usize;
    if len == 0 {
        return Ok(String::new());
    }
    if len > data.len() - *offset {
        return Err(ProtocolError::ReadOverflow);
    }
    let bytes = vstd::slice::slice_subrange(data, *offset, *offset + len);
    *offset = *offset + len;
    match utf8_str(bytes) {
        Ok(s) => {
            proof {
                vstd::utf8::encode_utf8_decode_utf8(s@);
            }
            Ok(s.to_owned())
        },
        Err(e) => Err(ProtocolError::Utf8DecodeError(e)),
    }
}

/// Appends the string field of `s` to `out`.
fn write_string_be(out: &mut Vec<u8>, s: &str)
    ensures
        final(out)@ == old(out)@ + string_field(s@),
        encode_utf8(s@).len() <= u32::MAX ==> forall|rest: Seq<u8>|
            #[trigger] read_string_at(final(out)@ + rest, old(out)@.len() as int) == Ok::<
                (Seq<char>, int),
                ProtocolFault,
            >((s@, final(out)@.len() as int)),
{
    proof {
        if encode_utf8(s@).len() <= u32::MAX {
            assert forall|rest: Seq<u8>|
                #[trigger] read_string_at(old(out)@ + string_field(s@) + rest, old(out)@.len() as int)
                    == Ok::<(Seq<char>, int), ProtocolFault>(
                    (s@, (old(out)@ + string_field(s@)).len() as int),
                ) by {
                crate::codec_laws::lemma_string_field_roundtrip(old(out)@, s@, rest);
            }
        }
    }
    let bytes = s.as_bytes();
    crate::wire::push_u32_be(out, bytes.len() as u32);
    out.extend_from_slice(bytes);
    assert(out@ =~= old(out)@ + string_field(s@));
}

/// Encodes `msg` into a frame whose third header byte is `serialization_and_compression`.
fn marshal_inner(msg: &Message, serialization_and_compression: u8) -> (r: Result<
    Vec<u8>,
    ProtocolError,
>)
    ensures
        bytes_result_view(r) == spec_marshal_inner(msg@, serialization_and_compression),
{
    reveal(spec_marshal_inner);
    reveal(has_event);
    reveal(has_sequence);
    let ghost m = msg@;
    let mut out: Vec<u8> = Vec::new();
    out.push(VERSION_1 | HEADER_SIZE_4);
    let flag = msg.type_flag;
    assert(flag & 0x0fu8 == flag % 16) by (bit_vector);
    let type_and_flag: u8 = msg.msg_type.bits() * 16 + (flag & 0x0f);
    out.push(type_and_flag);
    out.push(serialization_and_compression);
    out.push(0);
    assert(out@ =~= frame_header(m, serialization_and_compression));
    let ghost after_header = out@;

    let with_event = contains_event(flag);
    if with_event {
        match msg.event {
            None => return Err(ProtocolError::MissingEvent),
            Some(event) => crate::wire::push_u32_be(&mut out, event),
        }
    }
    let ghost event_part = if has_event(m.type_flag) { be_u32_bytes(m.event.unwrap()) } else { seq![] };
    assert(out@ =~= after_header + event_part);
    let ghost after_event = out@;

    let with_sid = should_write_session_id(msg);
    if with_sid {
        match &msg.session_id {
            None => return Err(ProtocolError::MissingSessionId),
            Some(sid) => write_string_be(&mut out, sid.as_str()),
        }
    }
    let ghost sid_part = if carries_session_id(m) { string_field(m.session_id.unwrap()) } else { seq![] };
    assert(out@ =~= after_event + sid_part);
    let ghost after_sid = out@;

    let with_cid = should_write_connect_id(msg);
    if with_cid {
        match &msg.connect_id {
            None => return Err(ProtocolError::MissingConnectId),
            Some(cid) => write_string_be(&mut out, cid.as_str()),
        }
    }
    let ghost cid_part = if carries_connect_id(m) { string_field(m.connect_id.unwrap()) } else { seq![] };
    assert(out@ =~= after_sid + cid_part);
    let ghost after_cid = out@;

    if contains_sequence(flag) {
        match msg.sequence {
            None => return Err(ProtocolError::MissingSequence),
            Some(seq) => crate::wire::push_i32_be(&mut out, seq),
        }
    }
    let ghost seq_part = if has_sequence(m.type_flag) { be_i32_bytes(m.sequence.unwrap()) } else { seq![] };
    assert(out@ =~= after_cid + seq_part);
    let ghost after_seq = out@;

    if msg.msg_type == MsgType::Error {
        match msg.error_code {
            None => return Err(ProtocolError::MissingErrorCode),
            Some(code) => crate::wire::push_u32_be(&mut out, code),
        }
    }
    let ghost code_part = if m.msg_type == MsgType::Error { be_u32_bytes(m.error_code.unwrap()) } else { seq![] };
    assert(out@ =~= after_seq + code_part);

    crate::wire::push_u32_be(&mut out, msg.payload.len() as u32);
    out.extend_from_slice(msg.payload.as_slice());
    assert(out@ =~= frame_header(m, serialization_and_compression) + event_part + sid_part + cid_part
        + seq_part + code_part + be_u32_bytes(m.payload.len() as u32) + m.payload);
    Ok(out)
}

/// Encodes `msg` into a frame with a JSON payload.
pub fn marshal(msg: &Message) -> (r: Result<Vec<u8>, ProtocolError>)
    ensures
        bytes_result_view(r) == spec_marshal(msg@),
{
    marshal_inner(msg, SERIALIZATION_JSON | COMPRESSION_NONE)
}

/// Encodes `msg` into a frame with a raw (audio) payload.
fn marshal_raw_audio(msg: &Message) -> (r: Result<Vec<u8>, ProtocolError>)
    ensures
        bytes_result_view(r) == spec_marshal_raw(msg@),
{
    marshal_inner(msg, SERIALIZATION_RAW | COMPRESSION_NONE)
}

/// The decoding result `r` is `spec` (what the specification decodes).
pub open spec fn decodes_as(r: Result<(Message, usize), ProtocolError>, spec: Result<(MessageView, int), ProtocolFault>) -> bool {
    decode_result_view(r) == spec
}

/// Decoding from `offset` on: the payload.
fn unmarshal_payload(data: &[u8], msg: Message, offset: usize) -> (r: Result<(Message, usize), ProtocolError>)
    requires
        offset <= data@.len(),
    ensures
        decodes_as(r, decode_payload(data@, msg@, offset as int)),
{
    reveal(decode_payload);
    let mut msg = msg;
    let mut offset = offset;
    let payload_len = read_u32_be(data, &mut offset)? as usize;
    if payload_len > 0 {
        if payload_len > data.len() - offset {
            return Err(ProtocolError::PayloadOverflow);
        }
        msg.payload = vstd::slice::slice_to_vec(
            vstd::slice::slice_subrange(data, offset, offset + payload_len),
        );
    }
    offset = offset + payload_len;
    Ok((msg, offset))
}

/// Decoding from `offset` on: the error code of an error frame, then the rest.
fn unmarshal_error_code(data: &[u8], msg: Message, offset: usize) -> (r: Result<(Message, usize), ProtocolError>)
    requires
        offset <= data@.len(),
    ensures
        decodes_as(r, decode_error_code(data@, msg@, offset as int)),
{
    reveal(decode_error_code);
    let mut msg = msg;
    let mut offset = offset;
    if msg.msg_type == MsgType::Error {
        let code = read_u32_be(data, &mut offset)?;
        msg.error_code = Some(code);
    }
    unmarshal_payload(data, msg, offset)
}

/// Decoding from `offset` on: the sequence, then the rest.
fn unmarshal_sequence(data: &[u8], msg: Message, offset: usize) -> (r: Result<(Message, usize), ProtocolError>)
    requires
        offset <= data@.len(),
    ensures
        decodes_as(r, decode_sequence(data@, msg@, offset as int)),
{
    reveal(decode_sequence);
    let mut msg = msg;
    let mut offset = offset;
    if contains_sequence(msg.type_flag) {
        let seq = read_i32_be(data, &mut offset)?;
        msg.sequence = Some(seq);
    }
    unmarshal_error_code(data, msg, offset)
}

/// Decoding from `offset` on: the connect id, then the rest.
fn unmarshal_connect_id(data: &[u8], msg: Message, offset: usize) -> (r: Result<(Message, usize), ProtocolError>)
    requires
        offset <= data@.len(),
    ensures
        decodes_as(r, decode_connect_id(data@, msg@, offset as int)),
{
    reveal(decode_connect_id);
    let mut msg = msg;
    let mut offset = offset;
    if should_read_connect_id(&msg) {
        let cid = read_string_be(data, &mut offset)?;
        msg.connect_id = Some(cid);
    }
    unmarshal_sequence(data, msg, offset)
}

/// Decoding from `offset` on: the session id, then the rest.
fn unmarshal_session_id(data: &[u8], msg: Message, offset: usize) -> (r: Result<(Message, usize), ProtocolError>)
    requires
        offset <= data@.len(),
    ensures
        decodes_as(r, decode_session_id(data@, msg@, offset as int)),
{
    reveal(decode_session_id);
    let mut msg = msg;
    let mut offset = offset;
    if should_read_session_id(&msg) {
        let sid = read_string_be(data, &mut offset)?;
        msg.session_id = Some(sid);
    }
    unmarshal_connect_id(data, msg, offset)
}

/// Decoding from `offset` on: the event, then the rest.
fn unmarshal_event(data: &[u8], msg: Message, offset: usize) -> (r: Result<(Message, usize), ProtocolError>)
    requires
        offset <= data@.len(),
    ensures
        decodes_as(r, decode_event(data@, msg@, offset as int)),
{
    reveal(decode_event);
    let mut msg = msg;
    let mut offset = offset;
    if contains_event(msg.type_flag) {
        let event = read_u32_be(data, &mut offset)?;
        msg.event = Some(event);
    }
    unmarshal_session_id(data, msg, offset)
}

/// Decodes the frame at the start of `data`: the message and the number of
/// bytes the frame takes. Bytes after the frame are left alone.
pub fn unmarshal(data: &[u8]) -> (r: Result<(Message, usize), ProtocolError>)
    ensures
        decode_result_view(r) == spec_unmarshal(data@),
        match r {
            Ok((m, n)) => data@[0] == VERSION_1 | HEADER_SIZE_4 && data@[3] == 0 && msg_type_bits(
                msg_type_of_bits(data@[1] / 16),
            ) == data@[1] / 16 ==> spec_marshal_inner(m@, data@[2]) == Ok::<Seq<u8>, ProtocolFault>(
                data@.subrange(0, n as int),
            ),
            Err(_) => true,
        },
{
    if data.len() < 4 {
        return Err(ProtocolError::InsufficientData);
    }
    let mut offset: usize = 0;
    let _version_and_header_size = read_u8(data, &mut offset)?;
    let type_and_flag = read_u8(data, &mut offset)?;
    let _serialization_and_compression = read_u8(data, &mut offset)?;
    let _reserved = read_u8(data, &mut offset)?;

    assert((type_and_flag >> 4u8) & 0x0fu8 == type_and_flag / 16) by (bit_vector);
    assert(type_and_flag & 0x0fu8 == type_and_flag % 16) by (bit_vector);
    let msg_type = MsgType::from_bits((type_and_flag >> 4) & 0x0f);
    let mut msg = Message::new(msg_type);
    msg.type_flag = type_and_flag & 0x0f;
    let r = unmarshal_event(data, msg, offset);
    proof {
        if r is Ok && data@[0] == VERSION_1 | HEADER_SIZE_4 && data@[3] == 0 && msg_type_bits(
            msg_type_of_bits(data@[1] / 16),
        ) == data@[1] / 16 {
            crate::codec_laws::lemma_marshal_unmarshal(data@);
        }
    }
    r
}

/// The StartConnection message (event 1, JSON payload `{}`).
pub open spec fn start_connection_message() -> MessageView {
    MessageView {
        type_flag: MSG_TYPE_FLAG_WITH_EVENT,
        event: Some(1),
        payload: seq![0x7bu8, 0x7du8],
        ..empty_message(MsgType::FullClient)
    }
}

/// The StartSession message (event 100) of a session with a JSON payload.
pub open spec fn start_session_message(session_id: Seq<char>, payload_json: Seq<char>) -> MessageView {
    MessageView {
        type_flag: MSG_TYPE_FLAG_WITH_EVENT,
        event: Some(100),
        session_id: Some(session_id),
        payload: encode_utf8(payload_json),
        ..empty_message(MsgType::FullClient)
    }
}

/// The audio chunk message (event 200) of a session.
pub open spec fn audio_message(session_id: Seq<char>, audio: Seq<u8>) -> MessageView {
    MessageView {
        type_flag: MSG_TYPE_FLAG_WITH_EVENT,
        event: Some(200),
        session_id: Some(session_id),
        payload: audio,
        ..empty_message(MsgType::AudioOnlyClient)
    }
}

/// A client message of a session with the given event and payload bytes.
pub open spec fn session_event_message(event: u32, session_id: Seq<char>, payload: Seq<u8>) -> MessageView {
    MessageView {
        type_flag: MSG_TYPE_FLAG_WITH_EVENT,
        event: Some(event),
        session_id: Some(session_id),
        payload,
        ..empty_message(MsgType::FullClient)
    }
}

/// The frame that opens the connection.
pub fn create_start_connection_message() -> (r: Result<Vec<u8>, ProtocolError>)
    ensures
        r is Ok,
        bytes_result_view(r) == spec_marshal(start_connection_message()),
{
    reveal(spec_marshal_inner);
    reveal(has_event);
    reveal(has_sequence);
    let mut msg = Message::new(MsgType::FullClient);
    msg.type_flag = MSG_TYPE_FLAG_WITH_EVENT;
    msg.event = Some(1);
    msg.payload = vec![0x7bu8, 0x7du8];
    assert(msg@ == start_connection_message()) by {
        assert(msg.payload@ =~= seq![0x7bu8, 0x7du8]);
    }
    marshal(&msg)
}

/// The frame that starts session `session_id` with the JSON configuration `payload_json`.
pub fn create_start_session_message(session_id: &str, payload_json: &str) -> (r: Result<
    Vec<u8>,
    ProtocolError,
>)
    ensures
        r is Ok,
        bytes_result_view(r) == spec_marshal(start_session_message(session_id@, payload_json@)),
{
    reveal(spec_marshal_inner);
    reveal(has_event);
    reveal(has_sequence);
    let mut msg = Message::new(MsgType::FullClient);
    msg.type_flag = MSG_TYPE_FLAG_WITH_EVENT;
    msg.event = Some(100);
    msg.session_id = Some(session_id.to_owned());
    msg.payload = vstd::slice::slice_to_vec(payload_json.as_bytes());
    assert(msg@ == start_session_message(session_id@, payload_json@));
    marshal(&msg)
}

/// The frame that carries one chunk of microphone audio of session `session_id`.
pub fn create_audio_message(session_id: &str, audio_data: &[u8]) -> (r: Result<
    Vec<u8>,
    ProtocolError,
>)
    ensures
        r is Ok,
        bytes_result_view(r) == spec_marshal_raw(audio_message(session_id@, audio_data@)),
{
    reveal(spec_marshal_inner);
    reveal(has_event);
    reveal(has_sequence);
    let mut msg = Message::new(MsgType::AudioOnlyClient);
    msg.type_flag = MSG_TYPE_FLAG_WITH_EVENT;
    msg.event = Some(200);
    msg.session_id = Some(session_id.to_owned());
    msg.payload = vstd::slice::slice_to_vec(audio_data);
    assert(msg@ == audio_message(session_id@, audio_data@));
    marshal_raw_audio(&msg)
}

/// The frame of a client message of session `session_id` with the given event
/// and payload; the start of a connection and of a session have frames of
/// their own.
pub fn create_session_event_message(session_id: &str, payload: &str, event_id: u32) -> (r: Result<
    Vec<u8>,
    ProtocolError,
>)
    ensures
        r is Ok <==> !is_connection_event(event_id),
        event_id == 1 ==> bytes_result_view(r) == spec_marshal(start_connection_message()),
        event_id == 100 ==> bytes_result_view(r) == spec_marshal(
            start_session_message(session_id@, payload@),
        ),
        event_id != 1 && event_id != 100 ==> bytes_result_view(r) == spec_marshal(
            session_event_message(event_id, session_id@, encode_utf8(payload@)),
        ),
{
    reveal(has_event);
    reveal(has_sequence);
    if event_id == 1 {
        create_start_connection_message()
    } else if event_id == 100 {
        create_start_session_message(session_id, payload)
    } else {
        {
            let mut msg = Message::new(MsgType::FullClient);
            msg.type_flag = MSG_TYPE_FLAG_WITH_EVENT;
            msg.event = Some(event_id);
            msg.session_id = Some(session_id.to_owned());
            msg.payload = vstd::slice::slice_to_vec(payload.as_bytes());
            assert(msg@ == session_event_message(event_id, session_id@, encode_utf8(payload@)));
            let r = marshal(&msg);
            proof {
                lemma_marshal_ok_when_complete(msg@);
            }
            r
        }
    }
}

/// `m` has every field that its flags and event call for.
pub open spec fn is_complete(m: MessageView) -> bool {
    &&& has_event(m.type_flag) ==> m.event is Some
    &&& carries_session_id(m) ==> m.session_id is Some
    &&& carries_connect_id(m) ==> m.connect_id is Some
    &&& has_sequence(m.type_flag) ==> m.sequence is Some
    &&& m.msg_type == MsgType::Error ==> m.error_code is Some
}

/// Encoding fails exactly on the messages that lack a field their flags or
/// event call for, whatever the serialization byte.
pub proof fn lemma_marshal_ok_when_complete(m: MessageView)
    ensures
        forall|sc: u8| #[trigger] spec_marshal_inner(m, sc) is Ok <==> is_complete(m),
{
    reveal(spec_marshal_inner);
    reveal(has_event);
    reveal(has_sequence);
}

/// A lower-case hexadecimal digit.
pub open spec fn is_lower_hex_digit(c: char) -> bool {
    ('0' <= c && c <= '9') || ('a' <= c && c <= 'f')
}

/// `s` is a random (version 4) UUID in hyphenated lower-case form, such as
/// `67e55044-10b1-426f-9247-bb680e5fe0c8`.
pub open spec fn is_v4_uuid_text(s: Seq<char>) -> bool {
    &&& s.len() == 36
    &&& forall|i: int|
        0 <= i < 36 ==> if i == 8 || i == 13 || i == 18 || i == 23 {
            s[i] == '-'
        } else {
            is_lower_hex_digit(#[trigger] s[i])
        }
    &&& s[14] == '4'
    &&& s[19] == '8' || s[19] == '9' || s[19] == 'a' || s[19] == 'b'
}

/// A fresh session id: `uuid::Uuid::new_v4()` written by its `Display`, which
/// is the hyphenated lower-case form. The contract claims only that form; the
/// value itself is random, and the call panics if the operating system gives
/// no random bytes, which no caller can rule out.
#[verifier::external_body]
pub fn generate_session_id() -> (s: String)
    ensures
        is_v4_uuid_text(s@),
{
    uuid::Uuid::new_v4().to_string()
}

/// The lower-case hexadecimal digit of `v` (0 to 15).
pub open spec fn lower_hex_digit(v: int) -> char {
    if v < 10 {
        ('0' as int + v) as char
    } else {
        ('a' as int + v - 10) as char
    }
}

/// How a JSON string literal writes the character `c`: the quote and the
/// backslash behind a backslash; backspace, tab, line feed, form feed and
/// carriage return as `\b`, `\t`, `\n`, `\f`, `\r`; the other control
/// characters below U+0020 as `\u00` and two lower-case hex digits; every
/// other character as it is.
pub open spec fn json_escape(c: char) -> Seq<char> {
    let v = c as int;
    if c == '"' {
        seq!['\\', '"']
    } else if c == '\\' {
        seq!['\\', '\\']
    } else if v == 8 {
        seq!['\\', 'b']
    } else if v == 9 {
        seq!['\\', 't']
    } else if v == 10 {
        seq!['\\', 'n']
    } else if v == 12 {
        seq!['\\', 'f']
    } else if v == 13 {
        seq!['\\', 'r']
    } else if v < 0x20 {
        seq!['\\', 'u', '0', '0', lower_hex_digit(v / 16), lower_hex_digit(v % 16)]
    } else {
        seq![c]
    }
}

/// The JSON string literal that `serde_json` writes for `s`: the UTF-8 bytes
/// of a quote, the escaped characters of `s`, and a closing quote.
pub open spec fn json_string_literal(s: Seq<char>) -> Seq<u8> {
    encode_utf8(seq!['"'] + s.map_values(|c: char| json_escape(c)).flatten() + seq!['"'])
}

/// `serde_json::to_vec` on a string slice: the bytes of the JSON string literal
/// of `s`, escaped as its serializer's escape table says. It succeeds: for a string the serializer's only error is one of the
/// writer, and the writer is a `Vec<u8>`, which grows as needed.
#[verifier::external_body]
fn json_string(s: &str) -> (r: Result<Vec<u8>, serde_json::Error>)
    ensures
        r is Ok,
        r matches Ok(v) ==> v@ == json_string_literal(s@),
{
    serde_json::to_vec(s)
}

/// The JSON object `{"session_id":…,"speaker":…,"text":…}` built from the
/// JSON literals of its three values, keys in sorted order and no spaces.
pub open spec fn full_client_payload_json(
    session_id_json: Seq<u8>,
    speaker_json: Seq<u8>,
    text_json: Seq<u8>,
) -> Seq<u8> {
    encode_utf8("{\"session_id\":"@) + session_id_json + encode_utf8(",\"speaker\":"@) + speaker_json
        + encode_utf8(",\"text\":"@) + text_json + encode_utf8("}"@)
}

/// Builds the JSON object `{"session_id":…,"speaker":…,"text":…}` from the
/// JSON literals of its three values.
pub fn full_client_payload(session_id_json: &[u8], speaker_json: &[u8], text_json: &[u8]) -> (out:
    Vec<u8>)
    ensures
        out@ == full_client_payload_json(session_id_json@, speaker_json@, text_json@),
{
    let mut out: Vec<u8> = Vec::new();
    out.extend_from_slice("{\"session_id\":".as_bytes());
    out.extend_from_slice(session_id_json);
    out.extend_from_slice(",\"speaker\":".as_bytes());
    out.extend_from_slice(speaker_json);
    out.extend_from_slice(",\"text\":".as_bytes());
    out.extend_from_slice(text_json);
    out.extend_from_slice("}".as_bytes());
    out
}

/// The legacy text message of a session: event 0, with the JSON payload
/// `{"session_id":…,"speaker":…,"text":…}` naming the default speaker.
pub open spec fn full_client_message(session_id: Seq<char>, text: Seq<char>) -> MessageView {
    session_event_message(
        0,
        session_id,
        full_client_payload_json(
            json_string_literal(session_id),
            json_string_literal(crate::config::DEFAULT_SPEAKER@),
            json_string_literal(text),
        ),
    )
}

/// The frame of the legacy text message of a session.
pub fn create_full_client_message(session_id: &str, text: &str) -> (r: Result<
    Vec<u8>,
    ProtocolError,
>)
    ensures
        r is Ok,
        bytes_result_view(r) == spec_marshal(full_client_message(session_id@, text@)),
{
    let sid_json = match json_string(session_id) {
        Ok(v) => v,
        Err(e) => return Err(ProtocolError::JsonError(e)),
    };
    let speaker_json = match json_string(crate::config::DEFAULT_SPEAKER) {
        Ok(v) => v,
        Err(e) => return Err(ProtocolError::JsonError(e)),
    };
    let text_json = match json_string(text) {
        Ok(v) => v,
        Err(e) => return Err(ProtocolError::JsonError(e)),
    };
    let mut msg = Message::new(MsgType::FullClient);
    msg.type_flag = MSG_TYPE_FLAG_WITH_EVENT;
    msg.event = Some(0);
    msg.session_id = Some(session_id.to_owned());
    msg.payload = full_client_payload(sid_json.as_slice(), speaker_json.as_slice(), text_json.as_slice());
    assert(msg@ == full_client_message(session_id@, text@));
    proof {
        reveal(has_event);
        reveal(has_sequence);
        lemma_marshal_ok_when_complete(msg@);
    }
    marshal(&msg)
}

} // verus!
