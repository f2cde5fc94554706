//! PCM sample formats and the decoding of raw PCM byte streams.

use vstd::prelude::*;
use crate::microphone::{le_i16_stream, lemma_le_i16_stream_roundtrip};
use crate::text::str_eq;
use crate::wire::{i16_from_le, i16_from_le_bytes, u32_from_le, u32_from_le_bytes};

verus! {

/// Sample format of the synthesized speech the server sends back.
#[derive(Clone, Copy, Debug, PartialEq, Eq, Structural)]
pub enum PcmFormat {
    /// 32-bit little-endian float samples (`pcm`).
    PcmF32le,
    /// 16-bit signed little-endian samples (`pcm_s16le`).
    PcmS16le,
}

/// The wire name of a PCM format.
pub open spec fn pcm_format_name(f: PcmFormat) -> Seq<char> {
    match f {
        PcmFormat::PcmF32le => "pcm"@,
        PcmFormat::PcmS16le => "pcm_s16le"@,
    }
}

impl PcmFormat {
    /// The name of this format as the server expects it.
    pub fn as_str(&self) -> (r: &'static str)
        ensures
            r@ == pcm_format_name(*self),
    {
        match self {
            PcmFormat::PcmF32le => "pcm",
            PcmFormat::PcmS16le => "pcm_s16le",
        }
    }
}

/// The format whose wire name is `s`, if any.
pub open spec fn pcm_format_of_name(s: Seq<char>) -> Option<PcmFormat> {
    if s == "pcm"@ {
        Some(PcmFormat::PcmF32le)
    } else if s == "pcm_s16le"@ {
        Some(PcmFormat::PcmS16le)
    } else {
        None
    }
}

impl PcmFormat {
    /// The format named `s`, if `s` is `pcm` or `pcm_s16le`.
    pub fn parse(s: &str) -> (r: Option<PcmFormat>)
        ensures
            r == pcm_format_of_name(s@),
            r matches Some(f) ==> pcm_format_name(f) == s@,
            r is None ==> forall|f: PcmFormat| pcm_format_name(f) != s@,
    {
        proof {
            reveal_strlit("pcm");
            reveal_strlit("pcm_s16le");
        }
        if str_eq(s, "pcm") {
            Some(PcmFormat::PcmF32le)
        } else if str_eq(s, "pcm_s16le") {
            Some(PcmFormat::PcmS16le)
        } else {
            proof {
                assert forall|f: PcmFormat| pcm_format_name(f) != s@ by {
                    match f {
                        PcmFormat::PcmF32le => {},
                        PcmFormat::PcmS16le => {},
                    }
                }
            }
            None
        }
    }
}

/// Settings of the speaker (none so far).
pub struct SoundConfig {}

/// One raw sample read from a PCM byte stream.
#[derive(Clone, Copy, Debug, PartialEq, Eq, Structural)]
pub enum RawSample {
    /// A 16-bit signed sample.
    S16(i16),
    /// The bit pattern of a 32-bit float sample.
    F32Bits(u32),
}

/// The number of bytes one sample of format `f` takes.
pub open spec fn sample_width(f: PcmFormat) -> int {
    match f {
        PcmFormat::PcmS16le => 2,
        PcmFormat::PcmF32le => 4,
    }
}

/// The sample of format `f` whose bytes start at `pos` in `data`.
pub open spec fn sample_at(data: Seq<u8>, pos: int, f: PcmFormat) -> RawSample {
    match f {
        PcmFormat::PcmS16le => RawSample::S16(i16_from_le(data[pos], data[pos + 1])),
        PcmFormat::PcmF32le => RawSample::F32Bits(
            u32_from_le(data[pos], data[pos + 1], data[pos + 2], data[pos + 3]),
        ),
    }
}

/// The samples of format `f` that `data` holds from `pos` on, in order: every
/// whole sample; a trailing partial one is never read.
pub open spec fn samples_from(data: Seq<u8>, pos: int, f: PcmFormat) -> Seq<RawSample>
    decreases data.len() - pos,
{
    if 0 <= pos && pos + sample_width(f) <= data.len() {
        seq![sample_at(data, pos, f)] + samples_from(data, pos + sample_width(f), f)
    } else {
        seq![]
    }
}

/// A stream of raw PCM samples read from the bytes of one audio message.
pub struct PcmSource {
    data: Vec<u8>,
    pos: usize,
    sample_format: PcmFormat,
}

/// The value of a [`PcmSource`]: its bytes, the position of the next sample,
/// and the sample format.
pub struct PcmSourceView {
    pub data: Seq<u8>,
    pub pos: int,
    pub format: PcmFormat,
}

impl View for PcmSource {
    type V = PcmSourceView;

    closed spec fn view(&self) -> PcmSourceView {
        PcmSourceView { data: self.data@, pos: self.pos as int, format: self.sample_format }
    }
}

impl PcmSource {
    /// The next sample never starts past the end of the bytes.
    #[verifier::type_invariant]
    spec fn well_positioned(&self) -> bool {
        self.pos <= self.data.len()
    }

    /// A stream positioned at the first sample of `data`.
    pub fn new(data: Vec<u8>, sample_format: PcmFormat) -> (s: PcmSource)
        ensures
            s@ == (PcmSourceView { data: data@, pos: 0, format: sample_format }),
    {
        PcmSource { data, pos: 0, sample_format }
    }

    /// The next sample, if its bytes are all there; a trailing partial sample
    /// is never read.
    pub fn next_sample(&mut self) -> (r: Option<RawSample>)
        ensures
            old(self)@.pos <= old(self)@.data.len(),
            final(self)@.data == old(self)@.data,
            final(self)@.format == old(self)@.format,
            final(self)@.pos <= final(self)@.data.len(),
            ({
                let s = old(self)@;
                if s.pos + sample_width(s.format) <= s.data.len() {
                    &&& r == Some(sample_at(s.data, s.pos, s.format))
                    &&& final(self)@.pos == s.pos + sample_width(s.format)
                } else {
                    &&& r is None
                    &&& final(self)@.pos == s.pos
                }
            }),
            match r {
                Some(x) => samples_from(old(self)@.data, old(self)@.pos, old(self)@.format) == seq![x]
                    + samples_from(final(self)@.data, final(self)@.pos, final(self)@.format),
                None => samples_from(old(self)@.data, old(self)@.pos, old(self)@.format) == Seq::<
                    RawSample,
                >::empty(),
            },
    {
        proof {
            use_type_invariant(&*self);
        }
        match self.sample_format {
            PcmFormat::PcmS16le => {
                if 2 > self.data.len() - self.pos {
                    return None;
                }
                let v = i16_from_le_bytes(self.data[self.pos], self.data[self.pos + 1]);
                self.pos = self.pos + 2;
                Some(RawSample::S16(v))
            },
            PcmFormat::PcmF32le => {
                if 4 > self.data.len() - self.pos {
                    return None;
                }
                let p = self.pos;
                let v = u32_from_le_bytes(
                    self.data[p],
                    self.data[p + 1],
                    self.data[p + 2],
                    self.data[p + 3],
                );
                self.pos = p + 4;
                Some(RawSample::F32Bits(v))
            },
        }
    }

    /// The sample format of the stream.
    pub fn sample_format(&self) -> (f: PcmFormat)
        ensures
            f == self@.format,
    {
        self.sample_format
    }

    /// Number of bytes of the message.
    pub fn data_len(&self) -> (n: usize)
        ensures
            n == self@.data.len(),
    {
        self.data.len()
    }

    /// Position of the next sample.
    pub fn position(&self) -> (n: usize)
        ensures
            n == self@.pos,
    {
        self.pos
    }

    /// The stream has no fixed frame length.
    pub fn current_frame_len(&self) -> (r: Option<usize>)
        ensures
            r is None,
    {
        None
    }

    /// The speech is mono.
    pub fn channels(&self) -> (r: u16)
        ensures
            r == crate::config::CHANNELS,
    {
        crate::config::CHANNELS
    }

    /// The speech is sampled at the output rate.
    pub fn sample_rate(&self) -> (r: u32)
        ensures
            r == crate::config::OUTPUT_SAMPLE_RATE,
    {
        crate::config::OUTPUT_SAMPLE_RATE
    }
}

/// Different PCM formats have different names, so a name read back gives
/// the format it was written for.
pub proof fn lemma_pcm_format_names_distinct(a: PcmFormat, b: PcmFormat)
    ensures
        pcm_format_name(a) == pcm_format_name(b) ==> a == b,
{
    reveal_strlit("pcm");
    reveal_strlit("pcm_s16le");
    if pcm_format_name(a) == pcm_format_name(b) {
        assert(pcm_format_name(a).len() == pcm_format_name(b).len());
    }
}

/// Reading back the name of a format gives the format.
pub proof fn lemma_pcm_format_name_roundtrip(f: PcmFormat)
    ensures
        pcm_format_of_name(pcm_format_name(f)) == Some(f),
{
    reveal_strlit("pcm");
    reveal_strlit("pcm_s16le");
    assert("pcm_s16le"@.len() != "pcm"@.len());
}

/// Reading a stream made of the s16le bytes of `samples`, followed by at most
/// one stray byte, gives the samples in order and then nothing more.
pub proof fn lemma_s16_stream_samples(samples: Seq<i16>, tail: Seq<u8>)
    requires
        tail.len() <= 1,
    ensures
        samples_from(le_i16_stream(samples) + tail, 0, PcmFormat::PcmS16le) == samples.map_values(
            |x: i16| RawSample::S16(x),
        ),
{
    lemma_le_i16_stream_roundtrip(samples);
    lemma_s16_samples_from(samples, tail, 0);
    assert(samples.subrange(0, samples.len() as int) =~= samples);
}

proof fn lemma_s16_samples_from(samples: Seq<i16>, tail: Seq<u8>, j: int)
    requires
        tail.len() <= 1,
        0 <= j <= samples.len(),
        le_i16_stream(samples).len() == 2 * samples.len(),
        forall|k: int|
            0 <= k < samples.len() ==> i16_from_le(
                #[trigger] le_i16_stream(samples)[2 * k],
                le_i16_stream(samples)[2 * k + 1],
            ) == samples[k],
    ensures
        samples_from(le_i16_stream(samples) + tail, 2 * j, PcmFormat::PcmS16le) == samples.subrange(
            j,
            samples.len() as int,
        ).map_values(|x: i16| RawSample::S16(x)),
    decreases samples.len() - j,
{
    let d = le_i16_stream(samples) + tail;
    let st = le_i16_stream(samples);
    if j < samples.len() {
        lemma_s16_samples_from(samples, tail, j + 1);
        assert(d[2 * j] == st[2 * j]);
        assert(d[2 * j + 1] == st[2 * j + 1]);
        assert(sample_at(d, 2 * j, PcmFormat::PcmS16le) == RawSample::S16(samples[j]));
        assert(2 * j + 2 == 2 * (j + 1));
        assert(samples.subrange(j, samples.len() as int).map_values(|x: i16| RawSample::S16(x))
            =~= seq![RawSample::S16(samples[j])] + samples.subrange(j + 1, samples.len() as int).map_values(
            |x: i16| RawSample::S16(x),
        ));
    } else {
        assert(samples.subrange(j, samples.len() as int).map_values(|x: i16| RawSample::S16(x))
            =~= Seq::<RawSample>::empty());
    }
}

} // verus!
