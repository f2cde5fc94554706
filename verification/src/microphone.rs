//! Captured audio: mixing down to mono, the 16-bit little-endian encoding sent
//! to the server, and the buffering behind the microphone reader.

use vstd::prelude::*;
use std::time::Duration;
use crate::wire::{i16_from_le, i16_le_bytes, le_i16_bytes, lemma_le_i16_roundtrip};

verus! {

/// The sum of a sequence of integers.
pub open spec fn sum(s: Seq<int>) -> int
    decreases s.len(),
{
    if s.len() == 0 {
        0
    } else {
        sum(s.drop_last()) + s.last()
    }
}

/// Integer division rounding toward zero, as Rust's `/` does.
pub open spec fn trunc_div(a: int, b: int) -> int {
    if a >= 0 {
        a / b
    } else {
        -((-a) / b)
    }
}

/// Mixing interleaved frames of `c` channels down to one channel: the sum of
/// each whole frame divided by `c`, rounding toward zero. A trailing partial
/// frame is dropped.
pub open spec fn downmix(vals: Seq<int>, c: int) -> Seq<int>
    recommends
        c > 0,
{
    Seq::new((vals.len() as int / c) as nat, |k: int| trunc_div(sum(vals.subrange(k * c, k * c + c)), c))
}

/// The sample values of signed 16-bit samples.
pub open spec fn i16_values(s: Seq<i16>) -> Seq<int> {
    s.map_values(|x: i16| x as int)
}

/// The sample values of unsigned 16-bit samples, centered on zero.
pub open spec fn u16_values(s: Seq<u16>) -> Seq<int> {
    s.map_values(|x: u16| x - 32768)
}

/// The sample values of unsigned 8-bit samples, centered on zero.
pub open spec fn u8_values(s: Seq<u8>) -> Seq<int> {
    s.map_values(|x: u8| x - 128)
}

/// Mixing frames of a single channel leaves the values as they are.
pub proof fn lemma_downmix_single_channel(vals: Seq<int>)
    ensures
        downmix(vals, 1) == vals,
{
    assert forall|k: int| 0 <= k < vals.len() implies #[trigger] downmix(vals, 1)[k] == vals[k] by {
        let frame = vals.subrange(k, k + 1);
        assert(frame.drop_last() =~= Seq::<int>::empty());
        assert(sum(Seq::<int>::empty()) == 0);
        assert(frame.last() == vals[k]);
        assert(sum(frame) == sum(frame.drop_last()) + frame.last());
    }
    assert(downmix(vals, 1) =~= vals);
}

proof fn lemma_sum_push(s: Seq<int>, base: int, j: int)
    requires
        0 <= base,
        0 <= j,
        base + j < s.len(),
    ensures
        sum(s.subrange(base, base + j + 1)) == sum(s.subrange(base, base + j)) + s[base + j],
{
    assert(s.subrange(base, base + j + 1).drop_last() =~= s.subrange(base, base + j));
}

proof fn lemma_trunc_div_bounds(a: int, c: int, lo: int, hi: int)
    requires
        c > 0,
        lo <= 0 <= hi,
        lo * c <= a <= hi * c,
    ensures
        lo <= trunc_div(a, c) <= hi,
{
    if a >= 0 {
        assert(a / c <= hi) by (nonlinear_arith)
            requires
                c > 0,
                0 <= a <= hi * c,
        ;
        assert(a / c >= 0) by (nonlinear_arith)
            requires
                c > 0,
                0 <= a,
        ;
    } else {
        assert((-lo) * c == -(lo * c)) by (nonlinear_arith);
        assert((-a) / c <= -lo) by (nonlinear_arith)
            requires
                c > 0,
                0 < -a <= (-lo) * c,
        ;
        assert((-a) / c >= 0) by (nonlinear_arith)
            requires
                c > 0,
                0 < -a,
        ;
    }
}

/// The average of one frame of `c` values, each within `[lo, hi]`, where the
/// frame starts at `base` in `vals`.
fn frame_average(vals: &Vec<i32>, base: usize, c: usize, lo: i32, hi: i32) -> (avg: i16)
    requires
        0 < c <= 65535,
        base + c <= vals.len(),
        -32768 <= lo <= 0 <= hi <= 32767,
        forall|i: int| 0 <= i < vals.len() ==> lo <= #[trigger] vals@[i] <= hi,
    ensures
        avg as int == trunc_div(sum(vals@.map_values(|x: i32| x as int).subrange(base as int, base + c)), c as int),
        lo <= avg <= hi,
{
    let ghost v = vals@.map_values(|x: i32| x as int);
    let mut total: i32 = 0;
    let mut j: usize = 0;
    assert(v.subrange(base as int, base as int) =~= Seq::<int>::empty());
    while j < c
        invariant
            0 < c <= 65535,
            base + c <= vals.len(),
            v == vals@.map_values(|x: i32| x as int),
            -32768 <= lo <= 0 <= hi <= 32767,
            forall|i: int| 0 <= i < vals.len() ==> lo <= #[trigger] vals@[i] <= hi,
            j <= c,
            total as int == sum(v.subrange(base as int, base + j)),
            lo * j <= total <= hi * j,
        decreases c - j,
    {
        proof {
            lemma_sum_push(v, base as int, j as int);
            assert(lo * (j + 1) == lo * j + lo) by (nonlinear_arith);
            assert(hi * (j + 1) == hi * j + hi) by (nonlinear_arith);
            assert(-32768 * 65535 <= lo * j) by (nonlinear_arith)
                requires
                    -32768 <= lo <= 0,
                    j <= 65535,
            ;
            assert(hi * j <= 32767 * 65535) by (nonlinear_arith)
                requires
                    0 <= hi <= 32767,
                    j <= 65535,
            ;
        }
        total = total + vals[base + j];
        j = j + 1;
    }
    proof {
        assert(-32768 * 65535 <= lo * c) by (nonlinear_arith)
            requires
                -32768 <= lo <= 0,
                c <= 65535,
        ;
        lemma_trunc_div_bounds(total as int, c as int, lo as int, hi as int);
    }
    let q: i32 = if total >= 0 {
        total / (c as i32)
    } else {
        -((-total) / (c as i32))
    };
    q as i16
}

/// Mixes frames of `c` interleaved channels, whose values lie in `[lo, hi]`,
/// down to one channel.
fn downmix_values(vals: &Vec<i32>, c: usize, lo: i32, hi: i32) -> (mono: Vec<i16>)
    requires
        0 < c <= 65535,
        -32768 <= lo <= 0 <= hi <= 32767,
        forall|i: int| 0 <= i < vals.len() ==> lo <= #[trigger] vals@[i] <= hi,
    ensures
        i16_values(mono@) == downmix(vals@.map_values(|x: i32| x as int), c as int),
{
    let ghost v = vals@.map_values(|x: i32| x as int);
    let mut mono: Vec<i16> = Vec::new();
    let mut base: usize = 0;
    let len = vals.len();
    assert(0 * c == 0);
    while c <= len - base
        invariant
            0 < c <= 65535,
            -32768 <= lo <= 0 <= hi <= 32767,
            forall|i: int| 0 <= i < vals.len() ==> lo <= #[trigger] vals@[i] <= hi,
            v == vals@.map_values(|x: i32| x as int),
            len == vals.len(),
            base <= len,
            base == mono.len() * c,
            forall|k: int|
                0 <= k < mono.len() ==> #[trigger] mono@[k] as int == trunc_div(
                    sum(v.subrange(k * c, k * c + c)),
                    c as int,
                ),
        decreases len - base,
    {
        let avg = frame_average(vals, base, c, lo, hi);
        proof {
            assert((mono.len() + 1) * c == mono.len() * c + c) by (nonlinear_arith);
        }
        mono.push(avg);
        base = base + c;
    }
    proof {
        let n = mono.len() as int;
        assert(n == v.len() as int / (c as int)) by (nonlinear_arith)
            requires
                base == n * c,
                base <= v.len(),
                v.len() < base + c,
                c > 0,
        ;
        assert(i16_values(mono@) =~= downmix(v, c as int));
    }
    mono
}

/// Mixes interleaved signed 16-bit frames of `channels` channels down to one
/// channel (a single channel is returned as it is).
pub fn downmix_to_mono_i16(samples: &[i16], channels: u16) -> (mono: Vec<i16>)
    requires
        channels > 0,
    ensures
        i16_values(mono@) == downmix(i16_values(samples@), channels as int),
{
    let mut vals: Vec<i32> = Vec::new();
    let mut i: usize = 0;
    while i < samples.len()
        invariant
            i <= samples.len(),
            vals.len() == i,
            forall|k: int| 0 <= k < i ==> #[trigger] vals@[k] == samples@[k] as i32,
        decreases samples.len() - i,
    {
        vals.push(samples[i] as i32);
        i = i + 1;
    }
    assert(vals@.map_values(|x: i32| x as int) =~= i16_values(samples@));
    if channels == 1 {
        let copy = vstd::slice::slice_to_vec(samples);
        proof {
            let v = i16_values(samples@);
            assert forall|k: int| 0 <= k < v.len() implies #[trigger] sum(v.subrange(k, k + 1)) == v[k] by {
                let t = v.subrange(k, k + 1);
                assert(t.len() == 1);
                assert(t.last() == v[k]);
                assert(t.drop_last() =~= Seq::<int>::empty());
                assert(sum(t.drop_last()) == 0);
            }
            let d = downmix(v, 1);
            assert(d.len() == v.len());
            assert forall|k: int| 0 <= k < v.len() implies d[k] == v[k] by {
                assert(k * 1 == k);
                assert(sum(v.subrange(k, k + 1)) == v[k]);
            }
            assert(i16_values(copy@) =~= d);
        }
        return copy;
    }
    downmix_values(&vals, channels as usize, -32768, 32767)
}

/// Mixes interleaved unsigned 16-bit frames of `channels` channels down to one
/// signed channel.
pub fn downmix_to_mono_u16(samples: &[u16], channels: u16) -> (mono: Vec<i16>)
    requires
        channels > 0,
    ensures
        i16_values(mono@) == downmix(u16_values(samples@), channels as int),
{
    let mut vals: Vec<i32> = Vec::new();
    let mut i: usize = 0;
    while i < samples.len()
        invariant
            i <= samples.len(),
            vals.len() == i,
            forall|k: int| 0 <= k < i ==> #[trigger] vals@[k] == samples@[k] as i32 - 32768,
        decreases samples.len() - i,
    {
        vals.push(samples[i] as i32 - 32768);
        i = i + 1;
    }
    assert(vals@.map_values(|x: i32| x as int) =~= u16_values(samples@));
    downmix_values(&vals, channels as usize, -32768, 32767)
}

/// Mixes interleaved unsigned 8-bit frames of `channels` channels down to one
/// signed channel (values stay in the 8-bit range).
pub fn downmix_to_mono_u8(samples: &[u8], channels: u16) -> (mono: Vec<i16>)
    requires
        channels > 0,
    ensures
        i16_values(mono@) == downmix(u8_values(samples@), channels as int),
{
    let mut vals: Vec<i32> = Vec::new();
    let mut i: usize = 0;
    while i < samples.len()
        invariant
            i <= samples.len(),
            vals.len() == i,
            forall|k: int| 0 <= k < i ==> #[trigger] vals@[k] == samples@[k] as i32 - 128,
        decreases samples.len() - i,
    {
        vals.push(samples[i] as i32 - 128);
        i = i + 1;
    }
    assert(vals@.map_values(|x: i32| x as int) =~= u8_values(samples@));
    downmix_values(&vals, channels as usize, -128, 127)
}

/// The little-endian 16-bit encoding of a sequence of samples.
pub open spec fn le_i16_stream(samples: Seq<i16>) -> Seq<u8>
    decreases samples.len(),
{
    if samples.len() == 0 {
        seq![]
    } else {
        le_i16_stream(samples.drop_last()) + le_i16_bytes(samples.last())
    }
}

/// Encodes samples as 16-bit little-endian bytes (`s16le`).
pub fn i16_samples_to_bytes_le(samples: &[i16]) -> (out: Vec<u8>)
    ensures
        out@ == le_i16_stream(samples@),
{
    let mut out: Vec<u8> = Vec::new();
    let mut i: usize = 0;
    while i < samples.len()
        invariant
            i <= samples.len(),
            out@ == le_i16_stream(samples@.take(i as int)),
        decreases samples.len() - i,
    {
        let (lo, hi) = i16_le_bytes(samples[i]);
        proof {
            assert(samples@.take(i + 1).drop_last() =~= samples@.take(i as int));
        }
        out.push(lo);
        out.push(hi);
        assert(out@ =~= le_i16_stream(samples@.take(i + 1)));
        i = i + 1;
    }
    assert(samples@.take(samples.len() as int) =~= samples@);
    out
}

/// The encoding of `n` samples takes `2 * n` bytes, and the two bytes at
/// `2 * k` read back as sample `k`: what the microphone side encodes, the
/// speaker side decodes unchanged.
pub proof fn lemma_le_i16_stream_roundtrip(samples: Seq<i16>)
    ensures
        le_i16_stream(samples).len() == 2 * samples.len(),
        forall|k: int|
            0 <= k < samples.len() ==> i16_from_le(
                #[trigger] le_i16_stream(samples)[2 * k],
                le_i16_stream(samples)[2 * k + 1],
            ) == samples[k],
    decreases samples.len(),
{
    if samples.len() > 0 {
        let init = samples.drop_last();
        lemma_le_i16_stream_roundtrip(init);
        lemma_le_i16_roundtrip(samples.last());
        let st = le_i16_stream(samples);
        assert forall|k: int| 0 <= k < samples.len() implies i16_from_le(
            #[trigger] st[2 * k],
            st[2 * k + 1],
        ) == samples[k] by {
            if k < init.len() {
                assert(st[2 * k] == le_i16_stream(init)[2 * k]);
                assert(st[2 * k + 1] == le_i16_stream(init)[2 * k + 1]);
                assert(init[k] == samples[k]);
            }
        }
    }
}

/// The duration of `ms` milliseconds, as `Duration::from_millis` makes it.
pub uninterp spec fn millis_duration(ms: u64) -> Duration;

/// `std::time::Duration::from_millis`: the same count of milliseconds always
/// gives the same duration.
#[verifier::external_body]
fn duration_from_millis(ms: u64) -> (d: Duration)
    ensures
        d == millis_duration(ms),
{
    Duration::from_millis(ms)
}

/// How long a read waits for the next chunk of audio unless told otherwise.
pub const DEFAULT_READ_TIMEOUT_MS: u64 = 20;

/// What a read of microphone audio does next.
pub enum ReadStep {
    /// Wait for the next chunk of audio.
    Wait,
    /// Hand out these bytes of the current chunk.
    Take(Vec<u8>),
    /// The read is over.
    Finish,
}

/// The buffering state of a reader of microphone audio: the chunk being read,
/// how far it has been read, how long to wait for the next chunk, and whether
/// the reader is still registered with the microphone.
pub struct MicrophoneReader {
    current_buffer: Vec<u8>,
    cur_index: usize,
    timeout: Duration,
    open: bool,
    received: Ghost<Seq<u8>>,
}

/// The value of a [`MicrophoneReader`].
pub struct MicrophoneReaderView {
    pub buffer: Seq<u8>,
    pub index: int,
    pub timeout: Duration,
    pub open: bool,
    /// Every chunk the reader was given, one after another.
    pub received: Seq<u8>,
}

impl MicrophoneReaderView {
    /// How far into the received bytes the reader has handed them out: the
    /// chunk being read is the last one received.
    pub open spec fn handed_out(self) -> int {
        self.received.len() - self.buffer.len() + self.index
    }
}

impl View for MicrophoneReader {
    type V = MicrophoneReaderView;

    closed spec fn view(&self) -> MicrophoneReaderView {
        MicrophoneReaderView {
            buffer: self.current_buffer@,
            index: self.cur_index as int,
            timeout: self.timeout,
            open: self.open,
            received: self.received@,
        }
    }
}

impl MicrophoneReader {
    /// The read position never passes the end of the chunk, and the chunk is
    /// the last part of what was received.
    #[verifier::type_invariant]
    spec fn within_chunk(&self) -> bool {
        &&& self.cur_index <= self.current_buffer.len()
        &&& self.current_buffer.len() <= self.received@.len()
        &&& self.received@.subrange(
            self.received@.len() - self.current_buffer.len(),
            self.received@.len() as int,
        ) == self.current_buffer@
    }

    /// A reader with nothing buffered and the default wait of 20 ms.
    pub fn new() -> (r: MicrophoneReader)
        ensures
            r@.buffer == Seq::<u8>::empty(),
            r@.index == 0,
            r@.timeout == millis_duration(DEFAULT_READ_TIMEOUT_MS),
            r@.open,
            r@.received == Seq::<u8>::empty(),
    {
        let buffer: Vec<u8> = Vec::new();
        assert(Seq::<u8>::empty().subrange(0, 0) =~= buffer@);
        let r = MicrophoneReader {
            current_buffer: buffer,
            cur_index: 0,
            timeout: duration_from_millis(DEFAULT_READ_TIMEOUT_MS),
            open: true,
            received: Ghost(Seq::empty()),
        };
        r
    }

    /// Sets how long a read waits for the next chunk.
    pub fn set_timeout(&mut self, timeout: Duration)
        ensures
            final(self)@ == (MicrophoneReaderView { timeout, ..old(self)@ }),
    {
        proof {
            use_type_invariant(&*self);
        }
        self.timeout = timeout;
    }

    /// How long a read waits for the next chunk.
    pub fn timeout(&self) -> (t: Duration)
        ensures
            t == self@.timeout,
    {
        self.timeout
    }

    /// Closes the reader: drops what is buffered. Returns whether the reader
    /// was still open, that is, whether its registration with the microphone
    /// is to be undone now (it is undone once).
    pub fn close(&mut self) -> (was_open: bool)
        ensures
            was_open == old(self)@.open,
            final(self)@ == (MicrophoneReaderView {
                buffer: Seq::<u8>::empty(),
                index: 0,
                open: false,
                ..old(self)@
            }),
    {
        proof {
            use_type_invariant(&*self);
        }
        let was_open = self.open;
        self.cur_index = 0;
        assert(self.received@.subrange(self.received@.len() as int, self.received@.len() as int)
            =~= Seq::<u8>::empty());
        self.current_buffer = Vec::new();
        self.open = false;
        was_open
    }

    /// Every byte of the current chunk has been read.
    pub fn needs_chunk(&self) -> (r: bool)
        ensures
            r == (self@.index >= self@.buffer.len()),
    {
        self.cur_index >= self.current_buffer.len()
    }

    /// Starts reading a new chunk, which is added to what was received;
    /// `None` (no chunk came in time) leaves nothing to read. Refilled once
    /// the chunk is used up, the reader goes on handing out the received
    /// bytes where it stopped.
    pub fn refill(&mut self, chunk: Option<Vec<u8>>)
        ensures
            final(self)@ == (MicrophoneReaderView {
                buffer: match chunk {
                    Some(c) => c@,
                    None => Seq::<u8>::empty(),
                },
                index: 0,
                received: match chunk {
                    Some(c) => old(self)@.received + c@,
                    None => old(self)@.received,
                },
                ..old(self)@
            }),
            old(self)@.index >= old(self)@.buffer.len() ==> final(self)@.handed_out() == old(
                self,
            )@.handed_out(),
    {
        proof {
            use_type_invariant(&*self);
        }
        self.cur_index = 0;
        assert(self.received@.subrange(self.received@.len() as int, self.received@.len() as int)
            =~= Seq::<u8>::empty());
        self.current_buffer = Vec::new();
        match chunk {
            Some(c) => {
                let ghost all = self.received@ + c@;
                assert(all.subrange(all.len() as int, all.len() as int) =~= Seq::<u8>::empty());
                self.received = Ghost(all);
                assert(self.received@.subrange(
                    self.received@.len() - c@.len(),
                    self.received@.len() as int,
                ) =~= c@);
                self.current_buffer = c;
            },
            None => {},
        }
    }

    /// The next step of a read that still wants `wanted` bytes, where `waited`
    /// tells whether its last step was a wait: take what is left of the current
    /// chunk, up to `wanted` bytes; with nothing left, wait for the next chunk,
    /// but only once in a row; finish when nothing more is wanted, or when a
    /// wait brought nothing.
    pub fn read_step(&mut self, wanted: usize, waited: bool) -> (step: ReadStep)
        ensures
            ({
                let s = old(self)@;
                let avail = s.buffer.len() - s.index;
                if wanted == 0 {
                    step is Finish && final(self)@ == s
                } else if avail > 0 {
                    let n = if wanted <= avail { wanted as int } else { avail };
                    &&& step matches ReadStep::Take(b) && b@ == s.buffer.subrange(s.index, s.index + n)
                        && b@ == s.received.subrange(s.handed_out(), s.handed_out() + n)
                    &&& final(self)@ == (MicrophoneReaderView { index: s.index + n, ..s })
                } else if !waited {
                    step is Wait && final(self)@ == s
                } else {
                    step is Finish && final(self)@ == s
                }
            }),
    {
        proof {
            use_type_invariant(&*self);
        }
        if wanted == 0 {
            ReadStep::Finish
        } else if !self.needs_chunk() {
            ReadStep::Take(self.take_available(wanted))
        } else if !waited {
            ReadStep::Wait
        } else {
            ReadStep::Finish
        }
    }

    /// Reads up to `max` bytes of the current chunk.
    pub fn take_available(&mut self, max: usize) -> (bytes: Vec<u8>)
        ensures
            ({
                let s = old(self)@;
                let n = if max <= s.buffer.len() - s.index { max as int } else { s.buffer.len() - s.index };
                &&& 0 <= s.index <= s.buffer.len()
                &&& bytes@ == s.buffer.subrange(s.index, s.index + n)
                &&& bytes@ == s.received.subrange(s.handed_out(), s.handed_out() + n)
                &&& final(self)@ == (MicrophoneReaderView { index: s.index + n, ..s })
            }),
    {
        proof {
            use_type_invariant(&*self);
        }
        let avail = self.current_buffer.len() - self.cur_index;
        let n = if max <= avail { max } else { avail };
        let start = self.cur_index;
        let bytes = vstd::slice::slice_to_vec(
            vstd::slice::slice_subrange(self.current_buffer.as_slice(), start, start + n),
        );
        self.cur_index = start + n;
        bytes
    }
}

/// Pieces handed out one after another by a reader, with refills only after
/// the chunk ran out, join up in the received bytes: a piece that starts where
/// the previous one ended continues it, so all of them together are the
/// received bytes from where the first began.
pub proof fn lemma_consecutive_pieces(received: Seq<u8>, start: int, first: Seq<u8>, second: Seq<u8>)
    requires
        0 <= start,
        start + first.len() + second.len() <= received.len(),
        first == received.subrange(start, start + first.len()),
        second == received.subrange(start + first.len(), start + first.len() + second.len()),
    ensures
        first + second == received.subrange(start, start + first.len() + second.len()),
{
    assert(first + second =~= received.subrange(start, start + first.len() + second.len()));
}

} // verus!
