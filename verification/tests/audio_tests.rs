use rt_doubao::microphone::{
    downmix_to_mono_i16, downmix_to_mono_u16, downmix_to_mono_u8, i16_samples_to_bytes_le,
    MicrophoneReader, ReadStep,
};
use rt_doubao::sound::{PcmFormat, PcmSource, RawSample};
use std::time::Duration;

#[test]
fn downmix_i16_averages_toward_zero() {
    assert_eq!(downmix_to_mono_i16(&[1, 3, -1, -2, 5], 2), vec![2, -1]);
    assert_eq!(downmix_to_mono_i16(&[7, -8, 9], 1), vec![7, -8, 9]);
    assert_eq!(downmix_to_mono_i16(&[i16::MIN, i16::MIN, i16::MAX, i16::MAX], 2), vec![i16::MIN, i16::MAX]);
    assert_eq!(downmix_to_mono_i16(&[1, 2], 3), Vec::<i16>::new());
}

#[test]
fn downmix_unsigned_centers() {
    assert_eq!(downmix_to_mono_u16(&[32778, 32788, 0, 1], 2), vec![15, -32767]);
    assert_eq!(downmix_to_mono_u16(&[65535], 1), vec![32767]);
    assert_eq!(downmix_to_mono_u8(&[128, 131, 0, 0, 255, 255], 3), vec![-41, 42]);
    assert_eq!(downmix_to_mono_u8(&[0, 255], 1), vec![-128, 127]);
}

#[test]
fn s16le_bytes() {
    assert_eq!(i16_samples_to_bytes_le(&[1, -1, 256, i16::MIN]), vec![1, 0, 0xff, 0xff, 0, 1, 0, 0x80]);
    assert_eq!(i16_samples_to_bytes_le(&[]), Vec::<u8>::new());
}

#[test]
fn pcm_source_s16_reads_back_encoded_samples() {
    let samples = [0i16, 1, -1, 12345, -32768, 32767];
    let bytes = i16_samples_to_bytes_le(&samples);
    let mut src = PcmSource::new(bytes, PcmFormat::PcmS16le);
    for s in samples {
        assert_eq!(src.next_sample(), Some(RawSample::S16(s)));
    }
    assert_eq!(src.next_sample(), None);
}

#[test]
fn pcm_source_drops_partial_samples() {
    let mut src = PcmSource::new(vec![1, 0, 9], PcmFormat::PcmS16le);
    assert_eq!(src.next_sample(), Some(RawSample::S16(1)));
    assert_eq!(src.next_sample(), None);
    assert_eq!(src.position(), 2);
    let mut f = PcmSource::new(vec![0, 0, 0x80, 0x3f, 1, 2, 3], PcmFormat::PcmF32le);
    assert_eq!(f.next_sample(), Some(RawSample::F32Bits(1.0f32.to_bits())));
    assert_eq!(f.next_sample(), None);
    assert_eq!(f.channels(), 1);
    assert_eq!(f.sample_rate(), 24000);
    assert_eq!(f.current_frame_len(), None);
}

#[test]
fn reader_buffers_chunks() {
    let mut r = MicrophoneReader::new();
    assert_eq!(r.timeout(), Duration::from_millis(20));
    assert!(r.needs_chunk());
    r.refill(Some(vec![1, 2, 3]));
    assert!(!r.needs_chunk());
    assert_eq!(r.take_available(2), vec![1, 2]);
    assert_eq!(r.take_available(5), vec![3]);
    assert!(r.needs_chunk());
    assert_eq!(r.take_available(5), Vec::<u8>::new());
    r.refill(None);
    assert!(r.needs_chunk());
    r.set_timeout(Duration::from_millis(7));
    assert_eq!(r.timeout(), Duration::from_millis(7));
    r.refill(Some(vec![4]));
    assert!(r.close());
    assert!(r.needs_chunk());
    assert!(!r.close());
}

#[test]
fn pcm_source_s16_ignores_one_stray_byte() {
    let samples = [5i16, -6, 300];
    let mut bytes = i16_samples_to_bytes_le(&samples);
    bytes.push(0x7f);
    let mut src = PcmSource::new(bytes, PcmFormat::PcmS16le);
    for s in samples {
        assert_eq!(src.next_sample(), Some(RawSample::S16(s)));
    }
    assert_eq!(src.next_sample(), None);
    assert_eq!(src.next_sample(), None);
}

#[test]
fn read_steps_take_wait_and_finish() {
    let mut r = MicrophoneReader::new();
    assert!(matches!(r.read_step(4, false), ReadStep::Wait));
    r.refill(Some(vec![1, 2, 3]));
    match r.read_step(2, true) {
        ReadStep::Take(b) => assert_eq!(b, vec![1, 2]),
        _ => panic!("expected bytes"),
    }
    match r.read_step(5, false) {
        ReadStep::Take(b) => assert_eq!(b, vec![3]),
        _ => panic!("expected bytes"),
    }
    assert!(matches!(r.read_step(4, false), ReadStep::Wait));
    r.refill(None);
    assert!(matches!(r.read_step(4, true), ReadStep::Finish));
    assert!(matches!(r.read_step(0, false), ReadStep::Finish));
}
