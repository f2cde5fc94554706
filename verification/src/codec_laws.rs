//! Laws of the frame codec: what decoding gives back of an encoded message,
//! and that decoding never looks past the end of the frame it decodes.

use vstd::prelude::*;
use vstd::utf8::{decode_utf8, encode_utf8};
use crate::protocol::{
    audio_message, is_session_free_event, session_event_message, spec_marshal, spec_marshal_raw,
    carries_connect_id, carries_session_id, decode_connect_id, decode_error_code, decode_event,
    decode_payload, decode_sequence, msg_type_of_bits, decode_session_id, empty_message, frame_header, has_event,
    has_sequence, is_complete, lemma_flag_bits_low_nibble, lemma_marshal_ok_when_complete, lemma_msg_type_bits_roundtrip, msg_type_bits, read_string_at,
    read_u32_at, spec_marshal_inner, spec_unmarshal, string_field, MessageView, MsgType,
    ProtocolFault,
};
use crate::net_client::is_incomplete_fault;
use crate::wire::{lemma_be_u32_bytes_of, lemma_u32_i32_roundtrip, u32_from_be, be_i32_bytes, i32_of_u32, be_u32_bytes, lemma_be_u32_roundtrip, lemma_i32_u32_roundtrip, u32_of_i32};

verus! {

broadcast use vstd::utf8::group_utf8_lib;

/// `m` as its frame carries it: the header keeps only the low nibble of the
/// flags, and the fields that the flags and event do not call for are not
/// written.
pub open spec fn normalized(m: MessageView) -> MessageView {
    MessageView {
        msg_type: m.msg_type,
        type_flag: m.type_flag % 16,
        event: if has_event(m.type_flag) { m.event } else { None },
        session_id: if carries_session_id(m) { m.session_id } else { None },
        connect_id: if carries_connect_id(m) { m.connect_id } else { None },
        sequence: if has_sequence(m.type_flag) { m.sequence } else { None },
        error_code: if m.msg_type == MsgType::Error { m.error_code } else { None },
        payload: m.payload,
    }
}

/// Every length that the frame of `m` writes fits in its 32-bit length field.
pub open spec fn fits_frame(m: MessageView) -> bool {
    &&& m.payload.len() <= u32::MAX
    &&& (carries_session_id(m) && m.session_id is Some) ==> encode_utf8(m.session_id.unwrap()).len()
        <= u32::MAX
    &&& (carries_connect_id(m) && m.connect_id is Some) ==> encode_utf8(m.connect_id.unwrap()).len()
        <= u32::MAX
}

proof fn lemma_skip_concat(data: Seq<u8>, o: int, piece: Seq<u8>, tail: Seq<u8>)
    requires
        0 <= o <= data.len(),
        data.skip(o) == piece + tail,
    ensures
        data.skip(o + piece.len()) == tail,
        data.subrange(o, o + piece.len()) == piece,
        o + piece.len() <= data.len(),
{
    let p = piece.len() as int;
    let d = data.skip(o);
    assert(d.len() == data.len() - o);
    assert(d.len() == p + tail.len());
    let a = data.skip(o + p);
    assert(a.len() == tail.len());
    assert forall|i: int| 0 <= i < tail.len() implies a[i] == tail[i] by {
        assert(d[p + i] == (piece + tail)[p + i]);
        assert(d[p + i] == data[o + p + i]);
        assert(a[i] == data[o + p + i]);
    }
    assert(a =~= tail);
    let b = data.subrange(o, o + p);
    assert forall|i: int| 0 <= i < p implies b[i] == piece[i] by {
        assert(d[i] == (piece + tail)[i]);
        assert(d[i] == data[o + i]);
    }
    assert(b =~= piece);
}

proof fn lemma_read_u32_in(data: Seq<u8>, o: int, v: u32, tail: Seq<u8>)
    requires
        0 <= o <= data.len(),
        data.skip(o) == be_u32_bytes(v) + tail,
    ensures
        read_u32_at(data, o) == Some(v),
        data.skip(o + 4) == tail,
{
    lemma_be_u32_roundtrip(v);
    lemma_skip_concat(data, o, be_u32_bytes(v), tail);
}

proof fn lemma_read_string_in(data: Seq<u8>, o: int, s: Seq<char>, tail: Seq<u8>)
    requires
        0 <= o <= data.len(),
        data.skip(o) == string_field(s) + tail,
        encode_utf8(s).len() <= u32::MAX,
    ensures
        read_string_at(data, o) == Ok::<(Seq<char>, int), ProtocolFault>(
            (s, o + string_field(s).len()),
        ),
        data.skip(o + string_field(s).len()) == tail,
{
    let e = encode_utf8(s);
    let len = e.len() as u32;
    assert(len == e.len());
    assert(data.skip(o) =~= be_u32_bytes(len) + (e + tail));
    lemma_read_u32_in(data, o, len, e + tail);
    lemma_skip_concat(data, o + 4, e, tail);
    lemma_skip_concat(data, o, string_field(s), tail);
    reveal(read_string_at);
    if len == 0 {
        assert(e =~= seq![]);
        assert(decode_utf8(seq![]) =~= seq![]);
        assert(s == decode_utf8(e));
    }
}

proof fn stage_event(data: Seq<u8>, m0: MessageView, ev: Option<u32>, o: int, piece: Seq<u8>, tail: Seq<u8>)
    requires
        0 <= o <= data.len(),
        data.skip(o) == piece + tail,
        has_event(m0.type_flag) ==> ev is Some && piece == be_u32_bytes(ev.unwrap()),
        !has_event(m0.type_flag) ==> piece == Seq::<u8>::empty(),
    ensures
        decode_event(data, m0, o) == decode_session_id(
            data,
            MessageView { event: if has_event(m0.type_flag) { ev } else { m0.event }, ..m0 },
            o + piece.len(),
        ),
        data.skip(o + piece.len()) == tail,
{
    reveal(decode_event);
    if has_event(m0.type_flag) {
        lemma_read_u32_in(data, o, ev.unwrap(), tail);
    } else {
        assert(piece + tail =~= tail);
    }
}

proof fn stage_session_id(data: Seq<u8>, m1: MessageView, sid: Option<Seq<char>>, o: int, piece: Seq<u8>, tail: Seq<u8>)
    requires
        0 <= o <= data.len(),
        data.skip(o) == piece + tail,
        carries_session_id(m1) ==> sid is Some && piece == string_field(sid.unwrap())
            && encode_utf8(sid.unwrap()).len() <= u32::MAX,
        !carries_session_id(m1) ==> piece == Seq::<u8>::empty(),
    ensures
        decode_session_id(data, m1, o) == decode_connect_id(
            data,
            MessageView { session_id: if carries_session_id(m1) { sid } else { m1.session_id }, ..m1 },
            o + piece.len(),
        ),
        data.skip(o + piece.len()) == tail,
{
    reveal(decode_session_id);
    if carries_session_id(m1) {
        lemma_read_string_in(data, o, sid.unwrap(), tail);
    } else {
        assert(piece + tail =~= tail);
    }
}

proof fn stage_connect_id(data: Seq<u8>, m2: MessageView, cid: Option<Seq<char>>, o: int, piece: Seq<u8>, tail: Seq<u8>)
    requires
        0 <= o <= data.len(),
        data.skip(o) == piece + tail,
        carries_connect_id(m2) ==> cid is Some && piece == string_field(cid.unwrap())
            && encode_utf8(cid.unwrap()).len() <= u32::MAX,
        !carries_connect_id(m2) ==> piece == Seq::<u8>::empty(),
    ensures
        decode_connect_id(data, m2, o) == decode_sequence(
            data,
            MessageView { connect_id: if carries_connect_id(m2) { cid } else { m2.connect_id }, ..m2 },
            o + piece.len(),
        ),
        data.skip(o + piece.len()) == tail,
{
    reveal(decode_connect_id);
    if carries_connect_id(m2) {
        lemma_read_string_in(data, o, cid.unwrap(), tail);
    } else {
        assert(piece + tail =~= tail);
    }
}

proof fn stage_sequence(data: Seq<u8>, m3: MessageView, sq: Option<i32>, o: int, piece: Seq<u8>, tail: Seq<u8>)
    requires
        0 <= o <= data.len(),
        data.skip(o) == piece + tail,
        has_sequence(m3.type_flag) ==> sq is Some && piece == be_i32_bytes(sq.unwrap()),
        !has_sequence(m3.type_flag) ==> piece == Seq::<u8>::empty(),
    ensures
        decode_sequence(data, m3, o) == decode_error_code(
            data,
            MessageView { sequence: if has_sequence(m3.type_flag) { sq } else { m3.sequence }, ..m3 },
            o + piece.len(),
        ),
        data.skip(o + piece.len()) == tail,
{
    reveal(decode_sequence);
    if has_sequence(m3.type_flag) {
        lemma_read_u32_in(data, o, u32_of_i32(sq.unwrap()), tail);
        lemma_i32_u32_roundtrip(sq.unwrap());
    } else {
        assert(piece + tail =~= tail);
    }
}

proof fn stage_error_code(data: Seq<u8>, m4: MessageView, code: Option<u32>, o: int, piece: Seq<u8>, tail: Seq<u8>)
    requires
        0 <= o <= data.len(),
        data.skip(o) == piece + tail,
        m4.msg_type == MsgType::Error ==> code is Some && piece == be_u32_bytes(code.unwrap()),
        m4.msg_type != MsgType::Error ==> piece == Seq::<u8>::empty(),
    ensures
        decode_error_code(data, m4, o) == decode_payload(
            data,
            MessageView { error_code: if m4.msg_type == MsgType::Error { code } else { m4.error_code }, ..m4 },
            o + piece.len(),
        ),
        data.skip(o + piece.len()) == tail,
{
    reveal(decode_error_code);
    if m4.msg_type == MsgType::Error {
        lemma_read_u32_in(data, o, code.unwrap(), tail);
    } else {
        assert(piece + tail =~= tail);
    }
}

proof fn stage_payload(data: Seq<u8>, m5: MessageView, payload: Seq<u8>, o: int, rest: Seq<u8>)
    requires
        0 <= o <= data.len(),
        payload.len() <= u32::MAX,
        m5.payload == Seq::<u8>::empty(),
        data.skip(o) == be_u32_bytes(payload.len() as u32) + payload + rest,
    ensures
        decode_payload(data, m5, o) == Ok::<(MessageView, int), ProtocolFault>(
            (MessageView { payload, ..m5 }, o + 4 + payload.len()),
        ),
{
    reveal(decode_payload);
    let plen = payload.len() as u32;
    assert(data.skip(o) =~= be_u32_bytes(plen) + (payload + rest));
    lemma_read_u32_in(data, o, plen, payload + rest);
    lemma_skip_concat(data, o + 4, payload, rest);
    if plen == 0 {
        assert(payload =~= seq![]);
        assert(m5 =~= MessageView { payload, ..m5 });
    }
}

/// Decoding the frame of a complete message gives back the message as the
/// frame carries it, and tells how many bytes the frame takes, whatever
/// bytes follow the frame.
#[verifier::rlimit(50)]
#[verifier::spinoff_prover]
pub proof fn lemma_unmarshal_marshal(m: MessageView, serialization_and_compression: u8, rest: Seq<u8>)
    requires
        is_complete(m),
        fits_frame(m),
    ensures
        spec_marshal_inner(m, serialization_and_compression) is Ok,
        spec_unmarshal(spec_marshal_inner(m, serialization_and_compression).unwrap() + rest) == Ok::<
            (MessageView, int),
            ProtocolFault,
        >(
            (
                normalized(m),
                spec_marshal_inner(m, serialization_and_compression).unwrap().len() as int,
            ),
        ),
{
    let sc = serialization_and_compression;
    let bytes = spec_marshal_inner(m, sc).unwrap();
    let flag = m.type_flag;
    let hdr = frame_header(m, sc);
    let pe = if has_event(flag) { be_u32_bytes(m.event.unwrap()) } else { seq![] };
    let ps = if carries_session_id(m) { string_field(m.session_id.unwrap()) } else { seq![] };
    let pc = if carries_connect_id(m) { string_field(m.connect_id.unwrap()) } else { seq![] };
    let pq = if has_sequence(flag) { be_i32_bytes(m.sequence.unwrap()) } else { seq![] };
    let pk = if m.msg_type == MsgType::Error { be_u32_bytes(m.error_code.unwrap()) } else { seq![] };
    let pl = be_u32_bytes(m.payload.len() as u32);
    let pp = m.payload;
    let data = bytes + rest;
    let t6 = pl + pp + rest;
    let t5 = pk + t6;
    let t4 = pq + t5;
    let t3 = pc + t4;
    let t2 = ps + t3;
    let t1 = pe + t2;
    assert(spec_marshal_inner(m, sc) is Ok && bytes == hdr + pe + ps + pc + pq + pk + pl + pp) by {
        reveal(spec_marshal_inner);
    }
    assert(data =~= hdr + t1);
    assert(data.skip(0) =~= data);
    lemma_skip_concat(data, 0, hdr, t1);

    // The header.
    lemma_msg_type_bits_roundtrip(m.msg_type);
    let b1 = (msg_type_bits(m.msg_type) * 16 + flag % 16) as u8;
    assert(data[1] == b1) by {
        assert(data.subrange(0, 4)[1] == hdr[1]);
    }
    assert(b1 / 16 == msg_type_bits(m.msg_type) && b1 % 16 == flag % 16) by {
        let t = msg_type_bits(m.msg_type);
        assert(t * 16 + flag % 16 < 256);
    }
    let f = flag % 16;
    lemma_flag_bits_low_nibble(flag);
    let m0 = MessageView { type_flag: f, ..empty_message(m.msg_type) };
    assert(spec_unmarshal(data) == decode_event(data, m0, 4));

    let o1 = 4int;
    stage_event(data, m0, m.event, o1, pe, t2);
    let m1 = MessageView { event: if has_event(m0.type_flag) { m.event } else { m0.event }, ..m0 };
    let o2 = o1 + pe.len();
    assert(carries_session_id(m1) == carries_session_id(m));
    assert(carries_connect_id(m1) == carries_connect_id(m));

    stage_session_id(data, m1, m.session_id, o2, ps, t3);
    let m2 = MessageView { session_id: if carries_session_id(m1) { m.session_id } else { m1.session_id }, ..m1 };
    let o3 = o2 + ps.len();
    assert(carries_connect_id(m2) == carries_connect_id(m));

    stage_connect_id(data, m2, m.connect_id, o3, pc, t4);
    let m3 = MessageView { connect_id: if carries_connect_id(m2) { m.connect_id } else { m2.connect_id }, ..m2 };
    let o4 = o3 + pc.len();

    stage_sequence(data, m3, m.sequence, o4, pq, t5);
    let m4 = MessageView { sequence: if has_sequence(m3.type_flag) { m.sequence } else { m3.sequence }, ..m3 };
    let o5 = o4 + pq.len();

    stage_error_code(data, m4, m.error_code, o5, pk, t6);
    let m5 = MessageView { error_code: if m4.msg_type == MsgType::Error { m.error_code } else { m4.error_code }, ..m4 };
    let o6 = o5 + pk.len();

    stage_payload(data, m5, pp, o6, rest);
    assert(bytes.len() == o6 + 4 + pp.len()) by {
        assert(hdr.len() == 4);
        assert(pl.len() == 4);
    }
    assert(MessageView { payload: pp, ..m5 } == normalized(m)) by {
        assert(m5.msg_type == m.msg_type);
        assert(m5.type_flag == f);
        assert(m5.event == normalized(m).event);
        assert(m5.session_id == normalized(m).session_id);
        assert(m5.connect_id == normalized(m).connect_id);
        assert(m5.sequence == normalized(m).sequence);
        assert(m5.error_code == normalized(m).error_code);
    }
}

/// A client message of a session, for any event that carries the session
/// id, reads back exactly as it was sent: event, session id and payload.
pub proof fn lemma_session_event_message_roundtrip(event: u32, session_id: Seq<char>, payload: Seq<u8>)
    requires
        !is_session_free_event(event),
        encode_utf8(session_id).len() <= u32::MAX,
        payload.len() <= u32::MAX,
    ensures
        spec_marshal(session_event_message(event, session_id, payload)) is Ok,
        ({
            let frame = spec_marshal(session_event_message(event, session_id, payload)).unwrap();
            spec_unmarshal(frame) == Ok::<(MessageView, int), ProtocolFault>(
                (session_event_message(event, session_id, payload), frame.len() as int),
            )
        }),
{
    let m = session_event_message(event, session_id, payload);
    reveal(has_event);
    reveal(has_sequence);
    lemma_unmarshal_marshal(m, crate::protocol::SERIALIZATION_JSON | crate::protocol::COMPRESSION_NONE, seq![]);
    let frame = spec_marshal(m).unwrap();
    assert(frame + seq![] =~= frame);
    assert(normalized(m) == m);
}

/// An audio chunk of a session reads back as it was sent: session id and
/// audio bytes.
pub proof fn lemma_audio_message_roundtrip(session_id: Seq<char>, audio: Seq<u8>)
    requires
        encode_utf8(session_id).len() <= u32::MAX,
        audio.len() <= u32::MAX,
    ensures
        spec_marshal_raw(audio_message(session_id, audio)) is Ok,
        ({
            let frame = spec_marshal_raw(audio_message(session_id, audio)).unwrap();
            spec_unmarshal(frame) == Ok::<(MessageView, int), ProtocolFault>(
                (audio_message(session_id, audio), frame.len() as int),
            )
        }),
{
    let m = audio_message(session_id, audio);
    reveal(has_event);
    reveal(has_sequence);
    lemma_unmarshal_marshal(m, crate::protocol::SERIALIZATION_RAW | crate::protocol::COMPRESSION_NONE, seq![]);
    let frame = spec_marshal_raw(m).unwrap();
    assert(frame + seq![] =~= frame);
    assert(normalized(m) == m);
}

/// `d1` and `d2` hold the same bytes below `n`.
pub open spec fn agree_below(d1: Seq<u8>, d2: Seq<u8>, n: int) -> bool {
    &&& 0 <= n <= d1.len()
    &&& n <= d2.len()
    &&& forall|i: int| 0 <= i < n ==> d1[i] == d2[i]
}

proof fn lemma_agree_subrange(d1: Seq<u8>, d2: Seq<u8>, n: int, a: int, b: int)
    requires
        agree_below(d1, d2, n),
        0 <= a <= b <= n,
    ensures
        d1.subrange(a, b) == d2.subrange(a, b),
{
    assert(d1.subrange(a, b) =~= d2.subrange(a, b));
}

proof fn lemma_payload_bounds(d1: Seq<u8>, m: MessageView, o: int, n: int)
    requires
        0 <= o,
        decode_payload(d1, m, o) matches Ok((_, k)) && k == n,
    ensures
        o + 4 <= n <= d1.len(),
{
    reveal(decode_payload);
}

proof fn lemma_error_code_bounds(d1: Seq<u8>, m: MessageView, o: int, n: int)
    requires
        0 <= o,
        decode_error_code(d1, m, o) matches Ok((_, k)) && k == n,
    ensures
        o + 4 <= n <= d1.len(),
{
    reveal(decode_error_code);
    if m.msg_type == MsgType::Error {
        let c = read_u32_at(d1, o).unwrap();
        let m2 = MessageView { error_code: Some(c), ..m };
        lemma_payload_bounds(d1, m2, o + 4, n);
    } else {
        lemma_payload_bounds(d1, m, o, n);
    }
}

proof fn lemma_sequence_bounds(d1: Seq<u8>, m: MessageView, o: int, n: int)
    requires
        0 <= o,
        decode_sequence(d1, m, o) matches Ok((_, k)) && k == n,
    ensures
        o + 4 <= n <= d1.len(),
{
    reveal(decode_sequence);
    if has_sequence(m.type_flag) {
        let u = read_u32_at(d1, o).unwrap();
        let m2 = MessageView { sequence: Some(i32_of_u32(u)), ..m };
        lemma_error_code_bounds(d1, m2, o + 4, n);
    } else {
        lemma_error_code_bounds(d1, m, o, n);
    }
}

proof fn lemma_connect_id_bounds(d1: Seq<u8>, m: MessageView, o: int, n: int)
    requires
        0 <= o,
        decode_connect_id(d1, m, o) matches Ok((_, k)) && k == n,
    ensures
        o + 4 <= n <= d1.len(),
{
    reveal(decode_connect_id);
    if carries_connect_id(m) {
        let (s, next) = read_string_at(d1, o).unwrap();
        let m2 = MessageView { connect_id: Some(s), ..m };
        reveal(read_string_at);
        lemma_sequence_bounds(d1, m2, next, n);
    } else {
        lemma_sequence_bounds(d1, m, o, n);
    }
}

proof fn lemma_session_id_bounds(d1: Seq<u8>, m: MessageView, o: int, n: int)
    requires
        0 <= o,
        decode_session_id(d1, m, o) matches Ok((_, k)) && k == n,
    ensures
        o + 4 <= n <= d1.len(),
{
    reveal(decode_session_id);
    if carries_session_id(m) {
        let (s, next) = read_string_at(d1, o).unwrap();
        let m2 = MessageView { session_id: Some(s), ..m };
        reveal(read_string_at);
        lemma_connect_id_bounds(d1, m2, next, n);
    } else {
        lemma_connect_id_bounds(d1, m, o, n);
    }
}

proof fn lemma_event_bounds(d1: Seq<u8>, m: MessageView, o: int, n: int)
    requires
        0 <= o,
        decode_event(d1, m, o) matches Ok((_, k)) && k == n,
    ensures
        o + 4 <= n <= d1.len(),
{
    reveal(decode_event);
    if has_event(m.type_flag) {
        let e = read_u32_at(d1, o).unwrap();
        let m2 = MessageView { event: Some(e), ..m };
        lemma_session_id_bounds(d1, m2, o + 4, n);
    } else {
        lemma_session_id_bounds(d1, m, o, n);
    }
}

proof fn lemma_payload_prefix(d1: Seq<u8>, d2: Seq<u8>, m: MessageView, o: int, n: int)
    requires
        0 <= o,
        decode_payload(d1, m, o) matches Ok((_, k)) && k == n,
        agree_below(d1, d2, n),
    ensures
        o + 4 <= n <= d1.len(),
        decode_payload(d2, m, o) == decode_payload(d1, m, o),
{
    reveal(decode_payload);
    lemma_payload_bounds(d1, m, o, n);
    let len = read_u32_at(d1, o).unwrap();
    lemma_agree_subrange(d1, d2, n, o, o + 4);
    if len > 0 {
        lemma_agree_subrange(d1, d2, n, o + 4, o + 4 + len);
    }
}

proof fn lemma_error_code_prefix(d1: Seq<u8>, d2: Seq<u8>, m: MessageView, o: int, n: int)
    requires
        0 <= o,
        decode_error_code(d1, m, o) matches Ok((_, k)) && k == n,
        agree_below(d1, d2, n),
    ensures
        o + 4 <= n <= d1.len(),
        decode_error_code(d2, m, o) == decode_error_code(d1, m, o),
{
    reveal(decode_error_code);
    lemma_error_code_bounds(d1, m, o, n);
    if m.msg_type == MsgType::Error {
        let c = read_u32_at(d1, o).unwrap();
        let m2 = MessageView { error_code: Some(c), ..m };
        lemma_payload_prefix(d1, d2, m2, o + 4, n);
        lemma_agree_subrange(d1, d2, n, o, o + 4);
    } else {
        lemma_payload_prefix(d1, d2, m, o, n);
    }
}

proof fn lemma_sequence_prefix(d1: Seq<u8>, d2: Seq<u8>, m: MessageView, o: int, n: int)
    requires
        0 <= o,
        decode_sequence(d1, m, o) matches Ok((_, k)) && k == n,
        agree_below(d1, d2, n),
    ensures
        o + 4 <= n <= d1.len(),
        decode_sequence(d2, m, o) == decode_sequence(d1, m, o),
{
    reveal(decode_sequence);
    lemma_sequence_bounds(d1, m, o, n);
    if has_sequence(m.type_flag) {
        let u = read_u32_at(d1, o).unwrap();
        let m2 = MessageView { sequence: Some(i32_of_u32(u)), ..m };
        lemma_error_code_prefix(d1, d2, m2, o + 4, n);
        lemma_agree_subrange(d1, d2, n, o, o + 4);
    } else {
        lemma_error_code_prefix(d1, d2, m, o, n);
    }
}

proof fn lemma_string_prefix(d1: Seq<u8>, d2: Seq<u8>, o: int, n: int)
    requires
        0 <= o,
        read_string_at(d1, o) matches Ok((_, next)) && next <= n,
        agree_below(d1, d2, n),
    ensures
        read_string_at(d1, o) matches Ok((_, next)) && o + 4 <= next,
        read_string_at(d2, o) == read_string_at(d1, o),
{
    reveal(read_string_at);
    let len = read_u32_at(d1, o).unwrap();
    lemma_agree_subrange(d1, d2, n, o, o + 4);
    if len > 0 {
        lemma_agree_subrange(d1, d2, n, o + 4, o + 4 + len);
    }
}

proof fn lemma_connect_id_prefix(d1: Seq<u8>, d2: Seq<u8>, m: MessageView, o: int, n: int)
    requires
        0 <= o,
        decode_connect_id(d1, m, o) matches Ok((_, k)) && k == n,
        agree_below(d1, d2, n),
    ensures
        o + 4 <= n <= d1.len(),
        decode_connect_id(d2, m, o) == decode_connect_id(d1, m, o),
{
    reveal(decode_connect_id);
    lemma_connect_id_bounds(d1, m, o, n);
    if carries_connect_id(m) {
        let (s, next) = read_string_at(d1, o).unwrap();
        let m2 = MessageView { connect_id: Some(s), ..m };
        reveal(read_string_at);
        lemma_sequence_prefix(d1, d2, m2, next, n);
        lemma_string_prefix(d1, d2, o, n);
    } else {
        lemma_sequence_prefix(d1, d2, m, o, n);
    }
}

proof fn lemma_session_id_prefix(d1: Seq<u8>, d2: Seq<u8>, m: MessageView, o: int, n: int)
    requires
        0 <= o,
        decode_session_id(d1, m, o) matches Ok((_, k)) && k == n,
        agree_below(d1, d2, n),
    ensures
        o + 4 <= n <= d1.len(),
        decode_session_id(d2, m, o) == decode_session_id(d1, m, o),
{
    reveal(decode_session_id);
    lemma_session_id_bounds(d1, m, o, n);
    if carries_session_id(m) {
        let (s, next) = read_string_at(d1, o).unwrap();
        let m2 = MessageView { session_id: Some(s), ..m };
        reveal(read_string_at);
        lemma_connect_id_prefix(d1, d2, m2, next, n);
        lemma_string_prefix(d1, d2, o, n);
    } else {
        lemma_connect_id_prefix(d1, d2, m, o, n);
    }
}

proof fn lemma_event_prefix(d1: Seq<u8>, d2: Seq<u8>, m: MessageView, o: int, n: int)
    requires
        0 <= o,
        decode_event(d1, m, o) matches Ok((_, k)) && k == n,
        agree_below(d1, d2, n),
    ensures
        o + 4 <= n <= d1.len(),
        decode_event(d2, m, o) == decode_event(d1, m, o),
{
    reveal(decode_event);
    lemma_event_bounds(d1, m, o, n);
    if has_event(m.type_flag) {
        let e = read_u32_at(d1, o).unwrap();
        let m2 = MessageView { event: Some(e), ..m };
        lemma_session_id_prefix(d1, d2, m2, o + 4, n);
        lemma_agree_subrange(d1, d2, n, o, o + 4);
    } else {
        lemma_session_id_prefix(d1, d2, m, o, n);
    }
}

/// A decoded frame takes at least its 8 bytes of header and payload length,
/// and no more than the bytes that were there.
pub proof fn lemma_unmarshal_consumes(data: Seq<u8>)
    ensures
        spec_unmarshal(data) matches Ok((_, n)) ==> 8 <= n <= data.len(),
{
    if let Ok((_, n)) = spec_unmarshal(data) {
        let m0 = MessageView { type_flag: data[1] % 16, ..empty_message(msg_type_of_bits(data[1] / 16)) };
        lemma_event_bounds(data, m0, 4, n);
    }
}

/// Decoding never looks past the frame it decodes: any bytes that agree with
/// `data` on the frame decode to the same message and length.
pub proof fn lemma_unmarshal_prefix(data: Seq<u8>, other: Seq<u8>)
    requires
        spec_unmarshal(data) is Ok,
        agree_below(data, other, spec_unmarshal(data).unwrap().1),
    ensures
        spec_unmarshal(other) == spec_unmarshal(data),
{
    let n = spec_unmarshal(data).unwrap().1;
    lemma_unmarshal_consumes(data);
    let m0 = MessageView { type_flag: data[1] % 16, ..empty_message(msg_type_of_bits(data[1] / 16)) };
    lemma_event_prefix(data, other, m0, 4, n);
    assert(other[1] == data[1]);
}

proof fn lemma_trunc_agree(d1: Seq<u8>, k: int)
    requires
        0 <= k <= d1.len(),
    ensures
        agree_below(d1, d1.subrange(0, k), k),
        d1.subrange(0, k).len() == k,
{
}

proof fn lemma_trunc_string(d1: Seq<u8>, o: int, k: int)
    requires
        0 <= o <= k <= d1.len(),
        read_string_at(d1, o) is Ok,
    ensures
        ({
            let next = read_string_at(d1, o).unwrap().1;
            if next <= k {
                read_string_at(d1.subrange(0, k), o) == read_string_at(d1, o)
            } else {
                read_string_at(d1.subrange(0, k), o) == Err::<(Seq<char>, int), ProtocolFault>(
                    ProtocolFault::ReadOverflow,
                )
            }
        }),
        read_string_at(d1, o).unwrap().1 >= o + 4,
{
    reveal(read_string_at);
    let d2 = d1.subrange(0, k);
    lemma_trunc_agree(d1, k);
    if o + 4 <= k {
        lemma_agree_subrange(d1, d2, k, o, o + 4);
        let len = read_u32_at(d1, o).unwrap();
        if len > 0 && o + 4 + len <= k {
            lemma_agree_subrange(d1, d2, k, o + 4, o + 4 + len);
        }
    }
}

proof fn lemma_trunc_payload(d1: Seq<u8>, m: MessageView, o: int, k: int)
    requires
        0 <= o <= k,
        decode_payload(d1, m, o) matches Ok((_, n)) && k < n,
    ensures
        decode_payload(d1.subrange(0, k), m, o) matches Err(f) && is_incomplete_fault(f),
{
    reveal(decode_payload);
    let n = decode_payload(d1, m, o).unwrap().1;
    lemma_payload_bounds(d1, m, o, n);
    lemma_trunc_agree(d1, k);
    if o + 4 <= k {
        lemma_agree_subrange(d1, d1.subrange(0, k), k, o, o + 4);
    }
}

proof fn lemma_trunc_error_code(d1: Seq<u8>, m: MessageView, o: int, k: int)
    requires
        0 <= o <= k,
        decode_error_code(d1, m, o) matches Ok((_, n)) && k < n,
    ensures
        decode_error_code(d1.subrange(0, k), m, o) matches Err(f) && is_incomplete_fault(f),
{
    reveal(decode_error_code);
    let n = decode_error_code(d1, m, o).unwrap().1;
    lemma_error_code_bounds(d1, m, o, n);
    lemma_trunc_agree(d1, k);
    if m.msg_type == MsgType::Error {
        if o + 4 <= k {
            lemma_agree_subrange(d1, d1.subrange(0, k), k, o, o + 4);
            let c = read_u32_at(d1, o).unwrap();
            lemma_trunc_payload(d1, MessageView { error_code: Some(c), ..m }, o + 4, k);
        }
    } else {
        lemma_trunc_payload(d1, m, o, k);
    }
}

proof fn lemma_trunc_sequence(d1: Seq<u8>, m: MessageView, o: int, k: int)
    requires
        0 <= o <= k,
        decode_sequence(d1, m, o) matches Ok((_, n)) && k < n,
    ensures
        decode_sequence(d1.subrange(0, k), m, o) matches Err(f) && is_incomplete_fault(f),
{
    reveal(decode_sequence);
    let n = decode_sequence(d1, m, o).unwrap().1;
    lemma_sequence_bounds(d1, m, o, n);
    lemma_trunc_agree(d1, k);
    if has_sequence(m.type_flag) {
        if o + 4 <= k {
            lemma_agree_subrange(d1, d1.subrange(0, k), k, o, o + 4);
            let u = read_u32_at(d1, o).unwrap();
            lemma_trunc_error_code(d1, MessageView { sequence: Some(i32_of_u32(u)), ..m }, o + 4, k);
        }
    } else {
        lemma_trunc_error_code(d1, m, o, k);
    }
}

proof fn lemma_trunc_connect_id(d1: Seq<u8>, m: MessageView, o: int, k: int)
    requires
        0 <= o <= k,
        decode_connect_id(d1, m, o) matches Ok((_, n)) && k < n,
    ensures
        decode_connect_id(d1.subrange(0, k), m, o) matches Err(f) && is_incomplete_fault(f),
{
    reveal(decode_connect_id);
    let n = decode_connect_id(d1, m, o).unwrap().1;
    lemma_connect_id_bounds(d1, m, o, n);
    if carries_connect_id(m) {
        lemma_trunc_string(d1, o, k);
        let (s, next) = read_string_at(d1, o).unwrap();
        if next <= k {
            lemma_trunc_sequence(d1, MessageView { connect_id: Some(s), ..m }, next, k);
        }
    } else {
        lemma_trunc_sequence(d1, m, o, k);
    }
}

proof fn lemma_trunc_session_id(d1: Seq<u8>, m: MessageView, o: int, k: int)
    requires
        0 <= o <= k,
        decode_session_id(d1, m, o) matches Ok((_, n)) && k < n,
    ensures
        decode_session_id(d1.subrange(0, k), m, o) matches Err(f) && is_incomplete_fault(f),
{
    reveal(decode_session_id);
    let n = decode_session_id(d1, m, o).unwrap().1;
    lemma_session_id_bounds(d1, m, o, n);
    if carries_session_id(m) {
        lemma_trunc_string(d1, o, k);
        let (s, next) = read_string_at(d1, o).unwrap();
        if next <= k {
            lemma_trunc_connect_id(d1, MessageView { session_id: Some(s), ..m }, next, k);
        }
    } else {
        lemma_trunc_connect_id(d1, m, o, k);
    }
}

proof fn lemma_trunc_event(d1: Seq<u8>, m: MessageView, o: int, k: int)
    requires
        0 <= o <= k,
        decode_event(d1, m, o) matches Ok((_, n)) && k < n,
    ensures
        decode_event(d1.subrange(0, k), m, o) matches Err(f) && is_incomplete_fault(f),
{
    reveal(decode_event);
    let n = decode_event(d1, m, o).unwrap().1;
    lemma_event_bounds(d1, m, o, n);
    lemma_trunc_agree(d1, k);
    if has_event(m.type_flag) {
        if o + 4 <= k {
            lemma_agree_subrange(d1, d1.subrange(0, k), k, o, o + 4);
            let e = read_u32_at(d1, o).unwrap();
            lemma_trunc_session_id(d1, MessageView { event: Some(e), ..m }, o + 4, k);
        }
    } else {
        lemma_trunc_session_id(d1, m, o, k);
    }
}

/// A frame cut short is never accepted: its first `k` bytes, for any `k`
/// short of the whole frame, decode to one of the faults that say the bytes
/// are not all there yet (never to a UTF-8 or other fault), so a reader may
/// keep them and wait for more.
pub proof fn lemma_unmarshal_truncated(data: Seq<u8>, k: int)
    requires
        spec_unmarshal(data) matches Ok((_, n)) && 0 <= k < n,
    ensures
        spec_unmarshal(data.subrange(0, k)) matches Err(f) && is_incomplete_fault(f),
{
    lemma_unmarshal_consumes(data);
    if k >= 4 {
        let d2 = data.subrange(0, k);
        assert(d2[1] == data[1]);
        let m0 = MessageView { type_flag: data[1] % 16, ..empty_message(msg_type_of_bits(data[1] / 16)) };
        lemma_trunc_event(data, m0, 4, k);
    }
}

/// A string field reads back as written, whatever bytes come before and after
/// it: the string, and the offset just past the field.
pub proof fn lemma_string_field_roundtrip(before: Seq<u8>, s: Seq<char>, after: Seq<u8>)
    requires
        encode_utf8(s).len() <= u32::MAX,
    ensures
        read_string_at(before + string_field(s) + after, before.len() as int) == Ok::<
            (Seq<char>, int),
            ProtocolFault,
        >((s, (before.len() + string_field(s).len()) as int)),
{
    let data = before + string_field(s) + after;
    assert(data.skip(before.len() as int) =~= string_field(s) + after);
    lemma_read_string_in(data, before.len() as int, s, after);
}

/// Flag bit 2 (the event) and bit 0 (the sequence) as the frame header holds
/// them; a frame carries a session id for every event but 1, 2, 50, 51 and 52,
/// a connect id for 50, 51 and 52 only, both only with the event flag set,
/// and so never both.
pub proof fn lemma_field_presence(m: MessageView)
    ensures
        has_event(m.type_flag) <==> m.type_flag & 4u8 == 4u8,
        has_sequence(m.type_flag) <==> m.type_flag & 1u8 == 1u8,
        carries_session_id(m) <==> (m.type_flag & 4u8 == 4u8 && m.event is Some && {
            let e = m.event.unwrap();
            !(e == 1 || e == 2 || e == 50 || e == 51 || e == 52)
        }),
        carries_connect_id(m) <==> (m.type_flag & 4u8 == 4u8 && m.event is Some && {
            let e = m.event.unwrap();
            e == 50 || e == 51 || e == 52
        }),
        !(carries_session_id(m) && carries_connect_id(m)),
{
    let f = m.type_flag;
    reveal(has_event);
    reveal(has_sequence);
    assert((f & 4u8 == 4u8) == ((f / 4) % 2 == 1)) by (bit_vector);
    assert((f & 1u8 == 1u8) == (f % 2 == 1)) by (bit_vector);
}


/// The event field of the frame of `m`.
spec fn piece_event(m: MessageView) -> Seq<u8> {
    if has_event(m.type_flag) { be_u32_bytes(m.event.unwrap()) } else { seq![] }
}

/// The session id field of the frame of `m`.
spec fn piece_session_id(m: MessageView) -> Seq<u8> {
    if carries_session_id(m) { string_field(m.session_id.unwrap()) } else { seq![] }
}

/// The connect id field of the frame of `m`.
spec fn piece_connect_id(m: MessageView) -> Seq<u8> {
    if carries_connect_id(m) { string_field(m.connect_id.unwrap()) } else { seq![] }
}

/// The sequence field of the frame of `m`.
spec fn piece_sequence(m: MessageView) -> Seq<u8> {
    if has_sequence(m.type_flag) { be_i32_bytes(m.sequence.unwrap()) } else { seq![] }
}

/// The error code field of the frame of `m`.
spec fn piece_error_code(m: MessageView) -> Seq<u8> {
    if m.msg_type == MsgType::Error { be_u32_bytes(m.error_code.unwrap()) } else { seq![] }
}

/// The payload length and payload of the frame of `m`.
spec fn piece_payload(m: MessageView) -> Seq<u8> {
    be_u32_bytes(m.payload.len() as u32) + m.payload
}

spec fn tail_from_error_code(m: MessageView) -> Seq<u8> {
    piece_error_code(m) + piece_payload(m)
}

spec fn tail_from_sequence(m: MessageView) -> Seq<u8> {
    piece_sequence(m) + tail_from_error_code(m)
}

spec fn tail_from_connect_id(m: MessageView) -> Seq<u8> {
    piece_connect_id(m) + tail_from_sequence(m)
}

spec fn tail_from_session_id(m: MessageView) -> Seq<u8> {
    piece_session_id(m) + tail_from_connect_id(m)
}

spec fn tail_from_event(m: MessageView) -> Seq<u8> {
    piece_event(m) + tail_from_session_id(m)
}

proof fn lemma_reread_u32(d: Seq<u8>, o: int)
    requires
        read_u32_at(d, o) is Some,
    ensures
        d.subrange(o, o + 4) == be_u32_bytes(read_u32_at(d, o).unwrap()),
        0 <= o && o + 4 <= d.len(),
{
    lemma_be_u32_bytes_of(d.subrange(o, o + 4));
}

proof fn lemma_reread_string(d: Seq<u8>, o: int)
    requires
        read_string_at(d, o) is Ok,
    ensures
        ({
            let (s, next) = read_string_at(d, o).unwrap();
            &&& 0 <= o && o + 4 <= next <= d.len()
            &&& d.subrange(o, next) == string_field(s)
        }),
{
    reveal(read_string_at);
    let len = read_u32_at(d, o).unwrap();
    lemma_reread_u32(d, o);
    let (s, next) = read_string_at(d, o).unwrap();
    if len == 0 {
        assert(encode_utf8(s) =~= Seq::<u8>::empty());
        assert(d.subrange(o, next) =~= string_field(s));
    } else {
        let sub = d.subrange(o + 4, o + 4 + len);
        assert(encode_utf8(s) == sub);
        assert(d.subrange(o, next) =~= d.subrange(o, o + 4) + sub);
    }
}

proof fn lemma_reencode_payload(d: Seq<u8>, m: MessageView, o: int)
    requires
        0 <= o,
        m.payload == Seq::<u8>::empty(),
        decode_payload(d, m, o) is Ok,
    ensures
        ({
            let (m2, n) = decode_payload(d, m, o).unwrap();
            &&& m2 == MessageView { payload: m2.payload, ..m }
            &&& o + 4 <= n <= d.len()
            &&& d.subrange(o, n) == piece_payload(m2)
        }),
{
    reveal(decode_payload);
    let len = read_u32_at(d, o).unwrap();
    lemma_reread_u32(d, o);
    let (m2, n) = decode_payload(d, m, o).unwrap();
    if len > 0 {
        assert(m2.payload.len() == len);
        assert(d.subrange(o, n) =~= d.subrange(o, o + 4) + m2.payload);
    } else {
        assert(d.subrange(o, n) =~= piece_payload(m2));
    }
}

proof fn lemma_reencode_error_code(d: Seq<u8>, m: MessageView, o: int)
    requires
        0 <= o,
        m.payload == Seq::<u8>::empty(),
        decode_error_code(d, m, o) is Ok,
    ensures
        ({
            let (m2, n) = decode_error_code(d, m, o).unwrap();
            &&& m2 == MessageView { error_code: m2.error_code, payload: m2.payload, ..m }
            &&& m.msg_type == MsgType::Error ==> m2.error_code is Some
            &&& o + 4 <= n <= d.len()
            &&& d.subrange(o, n) == tail_from_error_code(m2)
        }),
{
    reveal(decode_error_code);
    let (m2, n) = decode_error_code(d, m, o).unwrap();
    if m.msg_type == MsgType::Error {
        let c = read_u32_at(d, o).unwrap();
        lemma_reread_u32(d, o);
        let mm = MessageView { error_code: Some(c), ..m };
        lemma_reencode_payload(d, mm, o + 4);
        assert(d.subrange(o, n) =~= d.subrange(o, o + 4) + d.subrange(o + 4, n));
    } else {
        lemma_reencode_payload(d, m, o);
        assert(tail_from_error_code(m2) =~= piece_payload(m2));
    }
}

proof fn lemma_reencode_sequence(d: Seq<u8>, m: MessageView, o: int)
    requires
        0 <= o,
        m.payload == Seq::<u8>::empty(),
        decode_sequence(d, m, o) is Ok,
    ensures
        ({
            let (m2, n) = decode_sequence(d, m, o).unwrap();
            &&& m2 == MessageView {
                sequence: m2.sequence,
                error_code: m2.error_code,
                payload: m2.payload,
                ..m
            }
            &&& has_sequence(m.type_flag) ==> m2.sequence is Some
            &&& m.msg_type == MsgType::Error ==> m2.error_code is Some
            &&& o + 4 <= n <= d.len()
            &&& d.subrange(o, n) == tail_from_sequence(m2)
        }),
{
    reveal(decode_sequence);
    let (m2, n) = decode_sequence(d, m, o).unwrap();
    if has_sequence(m.type_flag) {
        let u = read_u32_at(d, o).unwrap();
        lemma_reread_u32(d, o);
        lemma_u32_i32_roundtrip(u);
        let mm = MessageView { sequence: Some(i32_of_u32(u)), ..m };
        lemma_reencode_error_code(d, mm, o + 4);
        assert(d.subrange(o, n) =~= d.subrange(o, o + 4) + d.subrange(o + 4, n));
    } else {
        lemma_reencode_error_code(d, m, o);
        assert(tail_from_sequence(m2) =~= tail_from_error_code(m2));
    }
}

proof fn lemma_reencode_connect_id(d: Seq<u8>, m: MessageView, o: int)
    requires
        0 <= o,
        m.payload == Seq::<u8>::empty(),
        decode_connect_id(d, m, o) is Ok,
    ensures
        ({
            let (m2, n) = decode_connect_id(d, m, o).unwrap();
            &&& m2 == MessageView {
                connect_id: m2.connect_id,
                sequence: m2.sequence,
                error_code: m2.error_code,
                payload: m2.payload,
                ..m
            }
            &&& carries_connect_id(m) ==> m2.connect_id is Some
            &&& has_sequence(m.type_flag) ==> m2.sequence is Some
            &&& m.msg_type == MsgType::Error ==> m2.error_code is Some
            &&& o + 4 <= n <= d.len()
            &&& d.subrange(o, n) == tail_from_connect_id(m2)
        }),
{
    reveal(decode_connect_id);
    let (m2, n) = decode_connect_id(d, m, o).unwrap();
    if carries_connect_id(m) {
        lemma_reread_string(d, o);
        let (s, next) = read_string_at(d, o).unwrap();
        let mm = MessageView { connect_id: Some(s), ..m };
        lemma_reencode_sequence(d, mm, next);
        assert(carries_connect_id(m2) == carries_connect_id(m));
        assert(d.subrange(o, n) =~= d.subrange(o, next) + d.subrange(next, n));
    } else {
        lemma_reencode_sequence(d, m, o);
        assert(carries_connect_id(m2) == carries_connect_id(m));
        assert(tail_from_connect_id(m2) =~= tail_from_sequence(m2));
    }
}

proof fn lemma_reencode_session_id(d: Seq<u8>, m: MessageView, o: int)
    requires
        0 <= o,
        m.payload == Seq::<u8>::empty(),
        decode_session_id(d, m, o) is Ok,
    ensures
        ({
            let (m2, n) = decode_session_id(d, m, o).unwrap();
            &&& m2 == MessageView {
                session_id: m2.session_id,
                connect_id: m2.connect_id,
                sequence: m2.sequence,
                error_code: m2.error_code,
                payload: m2.payload,
                ..m
            }
            &&& carries_session_id(m) ==> m2.session_id is Some
            &&& carries_connect_id(m) ==> m2.connect_id is Some
            &&& has_sequence(m.type_flag) ==> m2.sequence is Some
            &&& m.msg_type == MsgType::Error ==> m2.error_code is Some
            &&& o + 4 <= n <= d.len()
            &&& d.subrange(o, n) == tail_from_session_id(m2)
        }),
{
    reveal(decode_session_id);
    let (m2, n) = decode_session_id(d, m, o).unwrap();
    if carries_session_id(m) {
        lemma_reread_string(d, o);
        let (s, next) = read_string_at(d, o).unwrap();
        let mm = MessageView { session_id: Some(s), ..m };
        lemma_reencode_connect_id(d, mm, next);
        assert(carries_session_id(m2) == carries_session_id(m));
        assert(d.subrange(o, n) =~= d.subrange(o, next) + d.subrange(next, n));
    } else {
        lemma_reencode_connect_id(d, m, o);
        assert(carries_session_id(m2) == carries_session_id(m));
        assert(tail_from_session_id(m2) =~= tail_from_connect_id(m2));
    }
}

proof fn lemma_reencode_event(d: Seq<u8>, m: MessageView, o: int)
    requires
        0 <= o,
        m.payload == Seq::<u8>::empty(),
        decode_event(d, m, o) is Ok,
    ensures
        ({
            let (m2, n) = decode_event(d, m, o).unwrap();
            &&& m2.msg_type == m.msg_type
            &&& m2.type_flag == m.type_flag
            &&& is_complete(m2)
            &&& o + 4 <= n <= d.len()
            &&& d.subrange(o, n) == tail_from_event(m2)
        }),
{
    reveal(decode_event);
    let (m2, n) = decode_event(d, m, o).unwrap();
    if has_event(m.type_flag) {
        let e = read_u32_at(d, o).unwrap();
        lemma_reread_u32(d, o);
        let mm = MessageView { event: Some(e), ..m };
        lemma_reencode_session_id(d, mm, o + 4);
        assert(d.subrange(o, n) =~= d.subrange(o, o + 4) + d.subrange(o + 4, n));
    } else {
        lemma_reencode_session_id(d, m, o);
        assert(m2.event == m.event);
        assert(tail_from_event(m2) =~= tail_from_session_id(m2));
    }
}

#[verifier::spinoff_prover]
proof fn lemma_marshal_pieces(m: MessageView, sc: u8)
    requires
        is_complete(m),
    ensures
        spec_marshal_inner(m, sc) == Ok::<Seq<u8>, ProtocolFault>(frame_header(m, sc) + tail_from_event(m)),
{
    let hdr = frame_header(m, sc);
    let pe = piece_event(m);
    let ps = piece_session_id(m);
    let pc = piece_connect_id(m);
    let pq = piece_sequence(m);
    let pk = piece_error_code(m);
    let pl = piece_payload(m);
    assert(spec_marshal_inner(m, sc) == Ok::<Seq<u8>, ProtocolFault>(
        hdr + pe + ps + pc + pq + pk + be_u32_bytes(m.payload.len() as u32) + m.payload,
    )) by {
        reveal(spec_marshal_inner);
    }
    vstd::seq_lib::lemma_concat_associative(hdr + pe + ps + pc + pq + pk, be_u32_bytes(m.payload.len() as u32), m.payload);
    vstd::seq_lib::lemma_concat_associative(pk, be_u32_bytes(m.payload.len() as u32), m.payload);
    let t5 = pk + pl;
    vstd::seq_lib::lemma_concat_associative(hdr + pe + ps + pc + pq, pk, pl);
    let t4 = pq + t5;
    vstd::seq_lib::lemma_concat_associative(hdr + pe + ps + pc, pq, t5);
    let t3 = pc + t4;
    vstd::seq_lib::lemma_concat_associative(hdr + pe + ps, pc, t4);
    let t2 = ps + t3;
    vstd::seq_lib::lemma_concat_associative(hdr + pe, ps, t3);
    let t1 = pe + t2;
    vstd::seq_lib::lemma_concat_associative(hdr, pe, t2);
    assert(tail_from_event(m) == t1);
}

proof fn lemma_header_of(data: Seq<u8>, m: MessageView)
    requires
        data.len() >= 4,
        data[0] == crate::protocol::VERSION_1 | crate::protocol::HEADER_SIZE_4,
        data[3] == 0,
        msg_type_bits(msg_type_of_bits(data[1] / 16)) == data[1] / 16,
        m.msg_type == msg_type_of_bits(data[1] / 16),
        m.type_flag == data[1] % 16,
    ensures
        frame_header(m, data[2]) == data.subrange(0, 4),
{
    let hdr = frame_header(m, data[2]);
    assert(hdr[1] == data[1]);
    assert(hdr =~= data.subrange(0, 4));
}

/// Encoding a decoded frame again, with the frame's own serialization byte,
/// gives back the bytes of the frame, when the frame has the standard first
/// and last header bytes and a known message type.
pub proof fn lemma_marshal_unmarshal(data: Seq<u8>)
    requires
        spec_unmarshal(data) is Ok,
        data[0] == crate::protocol::VERSION_1 | crate::protocol::HEADER_SIZE_4,
        data[3] == 0,
        msg_type_bits(msg_type_of_bits(data[1] / 16)) == data[1] / 16,
    ensures
        ({
            let (m, n) = spec_unmarshal(data).unwrap();
            spec_marshal_inner(m, data[2]) == Ok::<Seq<u8>, ProtocolFault>(data.subrange(0, n))
        }),
{
    let (m, n) = spec_unmarshal(data).unwrap();
    let m0 = MessageView { type_flag: data[1] % 16, ..empty_message(msg_type_of_bits(data[1] / 16)) };
    assert(spec_unmarshal(data) == decode_event(data, m0, 4));
    lemma_reencode_event(data, m0, 4);
    lemma_marshal_pieces(m, data[2]);
    lemma_header_of(data, m);
    assert(data.subrange(0, n) =~= data.subrange(0, 4) + data.subrange(4, n));
}

/// Every frame starts with the version and header size byte 0x11, then the
/// message type in the high nibble and the flags in the low nibble, then the
/// serialization byte, then 0; the serialization byte is JSON (0x10) for
/// every frame `marshal` writes, whatever its event, and raw (0x00) for the
/// audio frames.
pub proof fn lemma_frame_header_bytes(m: MessageView)
    ensures
        spec_marshal(m) is Ok ==> {
            let b = spec_marshal(m).unwrap();
            &&& b.len() >= 8
            &&& b[0] == 0x11
            &&& b[1] as int == msg_type_bits(m.msg_type) as int * 16 + m.type_flag as int % 16
            &&& b[2] == 0x10
            &&& b[3] == 0
        },
        spec_marshal_raw(m) is Ok ==> {
            let b = spec_marshal_raw(m).unwrap();
            &&& b.len() >= 8
            &&& b[0] == 0x11
            &&& b[1] as int == msg_type_bits(m.msg_type) as int * 16 + m.type_flag as int % 16
            &&& b[2] == 0x00
            &&& b[3] == 0
        },
{
    reveal(spec_marshal_inner);
    lemma_msg_type_bits_roundtrip(m.msg_type);
    assert(crate::protocol::VERSION_1 | crate::protocol::HEADER_SIZE_4 == 0x11u8) by (bit_vector);
    assert(crate::protocol::SERIALIZATION_JSON | crate::protocol::COMPRESSION_NONE == 0x10u8)
        by (bit_vector);
    assert(crate::protocol::SERIALIZATION_RAW | crate::protocol::COMPRESSION_NONE == 0x00u8)
        by (bit_vector);
}

} // verus!
