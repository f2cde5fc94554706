//! Laws of cutting a received byte stream into frames.

use vstd::prelude::*;
use crate::codec_laws::{
    agree_below, fits_frame, lemma_unmarshal_consumes, lemma_unmarshal_marshal,
    lemma_unmarshal_prefix, lemma_unmarshal_truncated, normalized,
};
use crate::net_client::{awaits_more, drains_cleanly, is_incomplete_fault, spec_drain};
use crate::protocol::{is_complete, spec_marshal_inner, spec_unmarshal, MessageView};

verus! {

/// Receiving a stream in two pieces cuts the same frames as receiving it at
/// once, as long as the first piece holds no bytes that cannot be decoded:
/// what the first push keeps is completed by the second.
pub proof fn lemma_drain_split(a: Seq<u8>, b: Seq<u8>)
    requires
        drains_cleanly(a),
    ensures
        spec_drain(a + b) == ({
            let first = spec_drain(a);
            let second = spec_drain(first.1 + b);
            (first.0 + second.0, second.1)
        }),
    decreases a.len(),
{
    if a.len() == 0 {
        assert(a + b =~= b);
        assert(Seq::<MessageView>::empty() + spec_drain(b).0 =~= spec_drain(b).0);
        assert(Seq::<u8>::empty() + b =~= b);
    } else {
        match spec_unmarshal(a) {
            Ok((m, n)) => {
                lemma_unmarshal_consumes(a);
                assert(agree_below(a, a + b, n));
                lemma_unmarshal_prefix(a, a + b);
                let a2 = a.skip(n);
                assert((a + b).skip(n) =~= a2 + b);
                lemma_drain_split(a2, b);
                let first2 = spec_drain(a2);
                let second = spec_drain(first2.1 + b);
                assert(seq![m] + (first2.0 + second.0) =~= (seq![m] + first2.0) + second.0);
            },
            Err(f) => {
                assert(Seq::<MessageView>::empty() + spec_drain(a + b).0 =~= spec_drain(a + b).0);
            },
        }
    }
}

/// The frame of a complete message, followed by any bytes, is cut into the
/// message as its frame carries it, then whatever the following bytes give.
pub proof fn lemma_drain_frame(m: MessageView, serialization_and_compression: u8, rest: Seq<u8>)
    requires
        is_complete(m),
        fits_frame(m),
    ensures
        spec_drain(spec_marshal_inner(m, serialization_and_compression).unwrap() + rest) == (
            seq![normalized(m)] + spec_drain(rest).0,
            spec_drain(rest).1,
        ),
{
    let frame = spec_marshal_inner(m, serialization_and_compression).unwrap();
    lemma_unmarshal_marshal(m, serialization_and_compression, rest);
    lemma_unmarshal_consumes(frame + rest);
    assert((frame + rest).skip(frame.len() as int) =~= rest);
}

/// What is kept after cutting the frames never holds a whole frame: it is
/// empty or the start of a frame whose bytes are not all there yet.
pub proof fn lemma_drain_keeps_incomplete(buf: Seq<u8>)
    ensures
        awaits_more(spec_drain(buf).1),
    decreases buf.len(),
{
    if buf.len() > 0 {
        match spec_unmarshal(buf) {
            Ok((m, n)) => {
                lemma_unmarshal_consumes(buf);
                lemma_drain_keeps_incomplete(buf.skip(n));
            },
            Err(f) => {},
        }
    }
}

/// `s` is the start of a frame: some bytes appended to it complete a frame
/// longer than `s`.
pub open spec fn starts_a_frame(s: Seq<u8>) -> bool {
    exists|t: Seq<u8>| #[trigger] spec_unmarshal(s + t) matches Ok((_, n)) && s.len() < n
}

/// `s` is whole frames followed by the start of one more frame, or by nothing.
pub open spec fn frames_then_partial(s: Seq<u8>) -> bool
    decreases s.len(),
{
    if s.len() == 0 {
        true
    } else {
        match spec_unmarshal(s) {
            Ok((_, n)) => {
                proof {
                    lemma_unmarshal_consumes(s);
                }
                frames_then_partial(s.skip(n))
            },
            Err(_) => starts_a_frame(s),
        }
    }
}

/// The start of a frame decodes to a fault that asks for more bytes.
proof fn lemma_start_awaits(s: Seq<u8>)
    requires
        starts_a_frame(s),
    ensures
        spec_unmarshal(s) matches Err(f) && is_incomplete_fault(f),
{
    let t = choose|t: Seq<u8>| #[trigger] spec_unmarshal(s + t) matches Ok((_, n)) && s.len() < n;
    let q = s + t;
    assert(q.subrange(0, s.len() as int) =~= s);
    lemma_unmarshal_truncated(q, s.len() as int);
}

/// A prefix of the start of a frame is the start of a frame.
proof fn lemma_start_prefix(s: Seq<u8>, k: int)
    requires
        starts_a_frame(s),
        0 <= k <= s.len(),
    ensures
        starts_a_frame(s.subrange(0, k)),
{
    let t = choose|t: Seq<u8>| #[trigger] spec_unmarshal(s + t) matches Ok((_, n)) && s.len() < n;
    let p = s.subrange(0, k);
    let t2 = s.skip(k) + t;
    assert(p + t2 =~= s + t);
    assert(spec_unmarshal(p + t2) matches Ok((_, n)) && p.len() < n);
}

/// Cutting any first piece of a stream of whole frames and a partial one
/// meets no undecodable bytes, and what it keeps, followed by the rest of the
/// stream, is again whole frames and a partial one.
proof fn lemma_prefix_of_frames(a: Seq<u8>, b: Seq<u8>)
    requires
        frames_then_partial(a + b),
    ensures
        drains_cleanly(a),
        frames_then_partial(spec_drain(a).1 + b),
    decreases a.len(),
{
    let s = a + b;
    if a.len() == 0 {
        assert(Seq::<u8>::empty() + b =~= s);
    } else {
        match spec_unmarshal(s) {
            Ok((m, n)) => {
                lemma_unmarshal_consumes(s);
                if n <= a.len() {
                    assert(agree_below(s, a, n));
                    lemma_unmarshal_prefix(s, a);
                    assert(s.skip(n) =~= a.skip(n) + b);
                    lemma_prefix_of_frames(a.skip(n), b);
                } else {
                    assert(s.subrange(0, a.len() as int) =~= a);
                    lemma_unmarshal_truncated(s, a.len() as int);
                }
            },
            Err(_) => {
                assert(s.subrange(0, a.len() as int) =~= a);
                lemma_start_prefix(s, a.len() as int);
                lemma_start_awaits(a);
            },
        }
    }
}

/// However a stream of whole frames, followed by the start of one more, is
/// split in two, cutting the first piece and then what it kept followed by
/// the second piece gives the frames of the whole stream, in order, and keeps
/// the same bytes.
pub proof fn lemma_drain_any_split(a: Seq<u8>, b: Seq<u8>)
    requires
        frames_then_partial(a + b),
    ensures
        spec_drain(a + b) == ({
            let first = spec_drain(a);
            let second = spec_drain(first.1 + b);
            (first.0 + second.0, second.1)
        }),
{
    lemma_prefix_of_frames(a, b);
    lemma_drain_split(a, b);
}

/// The messages cut from the received pieces one after another, starting
/// with the bytes `pending` kept so far, and what is kept at the end.
pub open spec fn drain_pieces(pending: Seq<u8>, pieces: Seq<Seq<u8>>) -> (Seq<MessageView>, Seq<u8>)
    decreases pieces.len(),
{
    if pieces.len() == 0 {
        (seq![], pending)
    } else {
        let first = spec_drain(pending + pieces[0]);
        let rest = drain_pieces(first.1, pieces.drop_first());
        (first.0 + rest.0, rest.1)
    }
}

proof fn lemma_drain_pieces_from(pending: Seq<u8>, pieces: Seq<Seq<u8>>)
    requires
        awaits_more(pending),
        frames_then_partial(pending + pieces.flatten()),
    ensures
        drain_pieces(pending, pieces) == spec_drain(pending + pieces.flatten()),
    decreases pieces.len(),
{
    if pieces.len() == 0 {
        assert(pending + pieces.flatten() =~= pending);
        assert(spec_drain(pending) == (Seq::<MessageView>::empty(), pending));
    } else {
        let head = pending + pieces[0];
        let tail = pieces.drop_first().flatten();
        assert(pending + pieces.flatten() =~= head + tail);
        lemma_drain_any_split(head, tail);
        lemma_prefix_of_frames(head, tail);
        lemma_drain_keeps_incomplete(head);
        lemma_drain_pieces_from(spec_drain(head).1, pieces.drop_first());
    }
}

/// Receiving a stream of whole frames, followed by the start of one more,
/// in pieces split anywhere gives the frames' messages once each, in order,
/// and keeps exactly the bytes of the unfinished frame: the same as receiving
/// the stream at once.
pub proof fn lemma_drain_pieces(pieces: Seq<Seq<u8>>)
    requires
        frames_then_partial(pieces.flatten()),
    ensures
        drain_pieces(seq![], pieces) == spec_drain(pieces.flatten()),
{
    assert(Seq::<u8>::empty() + pieces.flatten() =~= pieces.flatten());
    lemma_drain_pieces_from(seq![], pieces);
}

} // verus!
