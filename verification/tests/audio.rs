use blrec::audio::{
    encoder_plan, flush_capacity, frame_size, input_use, resample_capacity, AudioFifo, AudioFrame,
    AudioRecorder, ConnEnd, Input, InputUse, SampleFormat, SampleKind,
};
use blrec::record::Format;

const PACKED: SampleFormat = SampleFormat { kind: SampleKind::I16, planar: false };
const PLANAR: SampleFormat = SampleFormat { kind: SampleKind::F32, planar: true };

fn frame(format: SampleFormat, samples: usize, planes: Vec<Vec<u8>>) -> AudioFrame {
    AudioFrame { format, rate: 48000, samples, pts: None, planes }
}

#[test]
fn sample_widths() {
    for (kind, width) in [
        (SampleKind::U8, 1),
        (SampleKind::I16, 2),
        (SampleKind::I32, 4),
        (SampleKind::I64, 8),
        (SampleKind::F32, 4),
        (SampleKind::F64, 8),
    ] {
        assert_eq!(SampleFormat { kind, planar: false }.bytes(), width);
    }
    assert!(PLANAR.is_planar());
    assert!(!PACKED.is_planar());
}

#[test]
fn encoder_plans() {
    let wav = encoder_plan(Format::Wav);
    assert_eq!((wav.codec, wav.muxer, wav.rate, wav.channels), ("pcm_s16le", "wav", 48000, 2));
    assert_eq!((wav.sample, wav.bit_rate), (PACKED, None));
    let mp3 = encoder_plan(Format::Mp3);
    assert_eq!((mp3.codec, mp3.muxer, mp3.rate), ("libmp3lame", "mp3", 48000));
    assert_eq!((mp3.sample, mp3.bit_rate), (PLANAR, Some(192_000)));
    let flac = encoder_plan(Format::Flac);
    assert_eq!((flac.codec, flac.muxer, flac.sample), ("flac", "flac", PACKED));
    assert_eq!(flac.bit_rate, None);
}

#[test]
fn frame_sizes() {
    assert_eq!(frame_size(0), 1024);
    assert_eq!(frame_size(1152), 1152);
}

#[test]
fn fifo_packed() {
    let mut fifo = AudioFifo::new(PACKED, 2, 48000);
    assert_eq!(fifo.samples(), 0);
    // One plane of four bytes a sample; the last two bytes are padding.
    fifo.push(&frame(PACKED, 2, vec![vec![1, 2, 3, 4, 5, 6, 7, 8, 0xEE, 0xEE]]));
    fifo.push(&frame(PACKED, 0, vec![]));
    fifo.push(&frame(PACKED, 1, vec![vec![9, 10, 11, 12]]));
    assert_eq!(fifo.samples(), 3);
    let first = fifo.pop(2);
    assert_eq!((first.samples, first.rate, first.pts), (2, 48000, None));
    assert_eq!(first.format, PACKED);
    assert_eq!(first.planes, vec![vec![1, 2, 3, 4, 5, 6, 7, 8]]);
    assert_eq!(fifo.samples(), 1);
    assert_eq!(fifo.pop(1).planes, vec![vec![9, 10, 11, 12]]);
    assert_eq!(fifo.pop(0).planes, vec![Vec::<u8>::new()]);
}

#[test]
fn fifo_planar() {
    let mut fifo = AudioFifo::new(PLANAR, 2, 44100);
    fifo.push(&frame(PLANAR, 1, vec![vec![1, 2, 3, 4, 0], vec![5, 6, 7, 8, 0], vec![]]));
    assert_eq!(fifo.samples(), 1);
    assert_eq!(fifo.pop(1).planes, vec![vec![1, 2, 3, 4], vec![5, 6, 7, 8]]);
    // At least one channel is assumed.
    assert_eq!(AudioFifo::new(PLANAR, 0, 44100).pop(0).planes.len(), 1);
}

const MONO: SampleFormat = SampleFormat { kind: SampleKind::U8, planar: false };

#[test]
fn frames_are_cut_to_size() {
    let mut recorder = AudioRecorder::new(MONO, 1, 48000, 4);
    recorder.push(&frame(MONO, 3, vec![vec![1, 2, 3]]));
    assert!(recorder.encode_buffered(false).is_empty());
    recorder.push(&frame(MONO, 7, vec![vec![4, 5, 6, 7, 8, 9, 10]]));
    assert!(recorder.can_encode());
    let frames = recorder.encode_buffered(false);
    assert_eq!(frames.len(), 2);
    assert_eq!((frames[0].pts, &frames[0].planes[0]), (Some(0), &vec![1, 2, 3, 4]));
    assert_eq!((frames[1].pts, &frames[1].planes[0]), (Some(4), &vec![5, 6, 7, 8]));
    // The next connection picks up where this one left off.
    recorder.push(&frame(MONO, 3, vec![vec![11, 12, 13]]));
    let more = recorder.encode_buffered(false);
    assert_eq!((more[0].pts, &more[0].planes[0]), (Some(8), &vec![9, 10, 11, 12]));
    let last = recorder.encode_buffered(true);
    assert_eq!(last.len(), 1);
    assert_eq!((last[0].pts, last[0].samples), (Some(12), 1));
    assert_eq!(last[0].planes, vec![vec![13]]);
    assert!(recorder.encode_buffered(true).is_empty());
}

#[test]
fn pcm_gets_chunks_of_its_own() {
    let mut recorder = AudioRecorder::new(MONO, 1, 48000, 0);
    recorder.push(&frame(MONO, 2100, vec![vec![0; 2100]]));
    let sizes: Vec<usize> =
        recorder.encode_buffered(true).iter().map(|frame| frame.samples).collect();
    assert_eq!(sizes, vec![1024, 1024, 52]);
}

#[test]
fn resampled_frames_have_room() {
    assert_eq!(resample_capacity(None, 1024, 44100, 48000), 1115 + 64);
    assert_eq!(resample_capacity(Some(10), 1024, 48000, 48000), 10 + 1024 + 64);
    assert_eq!(resample_capacity(Some(-3), 0, 44100, 48000), 64);
    assert_eq!(resample_capacity(Some(1), 2, 0, 3), 1 + 6 + 64);
}

#[test]
fn what_the_resampler_holds_is_flushed() {
    assert_eq!(flush_capacity(None), None);
    assert_eq!(flush_capacity(Some(0)), None);
    assert_eq!(flush_capacity(Some(-1)), None);
    assert_eq!(flush_capacity(Some(17)), Some(81));
}

#[test]
fn only_audio_is_decoded() {
    assert_eq!(input_use(false, Input::Packet { stream: 1 }, 1), InputUse::Decode);
    assert_eq!(input_use(false, Input::Packet { stream: 0 }, 1), InputUse::Skip);
    assert_eq!(
        input_use(true, Input::Packet { stream: 1 }, 1),
        InputUse::Flush(ConnEnd::Cancelled)
    );
    assert_eq!(input_use(false, Input::End, 1), InputUse::Flush(ConnEnd::Eof));
    assert_eq!(input_use(true, Input::End, 1), InputUse::Flush(ConnEnd::Eof));
}

#[test]
fn a_fifo_gives_back_what_went_in() {
    let mut fifo = AudioFifo::new(MONO, 1, 48000);
    let mut out: Vec<u8> = Vec::new();
    let mut balance = 0;
    for (push, pop) in [(3, 1), (0, 2), (5, 0), (2, 6), (4, 5)] {
        let bytes: Vec<u8> = (0..push as u8 + 2).collect();
        fifo.push(&frame(MONO, push, vec![bytes]));
        let popped = fifo.pop(pop);
        assert_eq!((popped.samples, popped.rate), (pop, 48000));
        out.extend(&popped.planes[0]);
        balance = balance + push - pop;
        assert_eq!(fifo.samples(), balance);
    }
    assert_eq!(out, vec![0, 1, 2, 0, 1, 2, 3, 4, 0, 1, 0, 1, 2, 3]);
}
