//! Audio on its way to an encoder: what the encoder is asked for, and how
//! resampled audio is cut into the frames that it takes.

use vstd::prelude::*;
use vstd::slice::slice_subrange;

use crate::record::Format;

verus! {

/// Numeric type of a sample.
#[derive(Debug, Clone, Copy, PartialEq, Eq, Structural)]
pub enum SampleKind {
    U8,
    I16,
    I32,
    I64,
    F32,
    F64,
}

/// How samples lie in memory: packed in one interleaved plane, or one plane per
/// channel.
#[derive(Debug, Clone, Copy, PartialEq, Eq, Structural)]
pub struct SampleFormat {
    pub kind: SampleKind,
    pub planar: bool,
}

impl SampleFormat {
    /// How many bytes one sample of one channel takes.
    pub open spec fn width(self) -> nat {
        match self.kind {
            SampleKind::U8 => 1,
            SampleKind::I16 => 2,
            SampleKind::I32 => 4,
            SampleKind::I64 => 8,
            SampleKind::F32 => 4,
            SampleKind::F64 => 8,
        }
    }

    pub fn bytes(self) -> (n: usize)
        ensures
            n == self.width(),
    {
        match self.kind {
            SampleKind::U8 => 1,
            SampleKind::I16 => 2,
            SampleKind::I32 => 4,
            SampleKind::I64 => 8,
            SampleKind::F32 => 4,
            SampleKind::F64 => 8,
        }
    }

    pub fn is_planar(self) -> (r: bool)
        ensures
            r == self.planar,
    {
        self.planar
    }
}

/// What the encoder of an audio format is asked for.
#[derive(Debug, Clone, Copy)]
pub struct EncoderPlan {
    pub codec: &'static str,
    pub muxer: &'static str,
    /// Samples per second; the time base is one sample.
    pub rate: i32,
    pub channels: usize,
    pub sample: SampleFormat,
    pub bit_rate: Option<usize>,
}

/// What the encoder of an audio format is asked for: 48 kHz stereo, as 16-bit
/// packed samples for WAV and FLAC, and for MP3 as planar floats at 192 kbps.
pub fn encoder_plan(format: Format) -> (plan: EncoderPlan)
    requires
        format != Format::Flv,
    ensures
        plan.rate == 48000,
        plan.channels == 2,
        plan.muxer@ == format.ext(),
        format == Format::Wav ==> plan.codec@ == "pcm_s16le"@,
        format == Format::Mp3 ==> plan.codec@ == "libmp3lame"@,
        format == Format::Flac ==> plan.codec@ == "flac"@,
        format == Format::Mp3 ==> plan.sample == (SampleFormat {
            kind: SampleKind::F32,
            planar: true,
        }),
        format != Format::Mp3 ==> plan.sample == (SampleFormat {
            kind: SampleKind::I16,
            planar: false,
        }),
        plan.bit_rate == (if format == Format::Mp3 {
            Some(192_000usize)
        } else {
            None
        }),
{
    let mp3 = matches!(format, Format::Mp3);
    EncoderPlan {
        codec: format.codec_name(),
        muxer: format.muxer_name(),
        rate: 48000,
        channels: 2,
        sample: if mp3 {
            SampleFormat { kind: SampleKind::F32, planar: true }
        } else {
            SampleFormat { kind: SampleKind::I16, planar: false }
        },
        bit_rate: if mp3 {
            Some(192_000)
        } else {
            None
        },
    }
}

/// How many samples an encoder is handed at a time that reports this frame size.
pub open spec fn frame_samples_for(reported: u32) -> nat {
    if reported == 0 {
        1024
    } else {
        reported as nat
    }
}

/// An encoder gets frames of exactly the size that it reports, whatever that is; one
/// that takes any size, and reports none, gets 1024 samples at a time.
pub proof fn law_encoder_gets_the_size_that_it_reports(reported: u32)
    ensures
        reported > 0 ==> frame_samples_for(reported) == reported,
        frame_samples_for(0) == 1024,
{
}

/// How many samples an encoder is handed at a time. PCM encoders take any frame
/// size and report 0; they get chunks of 1024.
pub fn frame_size(reported: u32) -> (n: usize)
    ensures
        n == (if reported == 0 {
            1024
        } else {
            reported as int
        }),
        n == frame_samples_for(reported),
        n > 0,
{
    if reported == 0 {
        1024
    } else {
        reported as usize
    }
}

/// Decoded or resampled audio. A plane may be longer than its samples: what
/// follows them is padding.
#[derive(Debug)]
pub struct AudioFrame {
    pub format: SampleFormat,
    pub rate: u32,
    pub samples: usize,
    /// Presentation timestamp, in samples.
    pub pts: Option<i64>,
    pub planes: Vec<Vec<u8>>,
}

/// The bytes of each plane.
pub open spec fn plane_bytes(planes: Seq<Vec<u8>>) -> Seq<Seq<u8>> {
    planes.map_values(|plane: Vec<u8>| plane@)
}

/// Each plane with `more` of the same plane after it.
pub open spec fn append_planes(planes: Seq<Seq<u8>>, more: Seq<Seq<u8>>, n: int) -> Seq<Seq<u8>> {
    Seq::new(planes.len(), |i: int| planes[i] + more[i].take(n))
}

/// The first `n` bytes of each plane.
pub open spec fn head_planes(planes: Seq<Seq<u8>>, n: int) -> Seq<Seq<u8>> {
    planes.map_values(|plane: Seq<u8>| plane.take(n))
}

/// Each plane without its first `n` bytes.
pub open spec fn tail_planes(planes: Seq<Seq<u8>>, n: int) -> Seq<Seq<u8>> {
    planes.map_values(|plane: Seq<u8>| plane.skip(n))
}

/// Re-cuts resampled audio into the exact frame size an encoder demands.
///
/// The resampler emits frames whose length follows the input, but libmp3lame
/// (1152) and flac (4608) reject any frame that is not exactly `frame_size`
/// samples — the first short frame is taken as the last one and every frame
/// after it fails with `EINVAL`. Buffering here decouples the two sides.
///
/// Samples are held as raw bytes, one buffer per plane, which covers both
/// packed layouts (a single interleaved plane) and planar ones (one plane per
/// channel) without caring about the concrete sample type.
#[derive(Debug)]
pub struct AudioFifo {
    planes: Vec<Vec<u8>>,
    format: SampleFormat,
    rate: u32,
    /// Bytes occupied by one sample within a single plane.
    stride: usize,
}

impl AudioFifo {
    /// The bytes that are held, plane by plane.
    pub closed spec fn held(&self) -> Seq<Seq<u8>> {
        plane_bytes(self.planes@)
    }

    pub closed spec fn sample_format(&self) -> SampleFormat {
        self.format
    }

    pub closed spec fn sample_rate(&self) -> u32 {
        self.rate
    }

    /// Bytes occupied by one sample within a single plane.
    pub closed spec fn sample_bytes(&self) -> nat {
        self.stride as nat
    }

    /// There is a plane, and every plane holds the same number of whole samples.
    pub open spec fn wf(&self) -> bool {
        &&& self.sample_bytes() > 0
        &&& self.held().len() > 0
        &&& self.held()[0].len() <= usize::MAX
        &&& self.held()[0].len() % self.sample_bytes() == 0
        &&& forall|i: int|
            0 <= i < self.held().len() ==> (#[trigger] self.held()[i]).len() == self.held()[0].len()
    }

    /// How many samples are held.
    pub open spec fn count(&self) -> nat {
        self.held()[0].len() / self.sample_bytes()
    }

    pub fn new(format: SampleFormat, channels: usize, rate: u32) -> (fifo: Self)
        requires
            format.width() * channels <= usize::MAX,
        ensures
            fifo.wf(),
            fifo.sample_format() == format,
            fifo.sample_rate() == rate,
            ({
                let channels = if channels == 0 {
                    1nat
                } else {
                    channels as nat
                };
                &&& format.planar ==> fifo.sample_bytes() == format.width()
                &&& format.planar ==> fifo.held() == Seq::new(channels, |i: int| Seq::<u8>::empty())
                &&& !format.planar ==> fifo.sample_bytes() == format.width() * channels
                &&& !format.planar ==> fifo.held() == seq![Seq::<u8>::empty()]
            }),
            fifo.count() == 0,
    {
        let channels: usize = if channels == 0 {
            1
        } else {
            channels
        };
        let (count, stride): (usize, usize) = if format.is_planar() {
            (channels, format.bytes())
        } else {
            (1, format.bytes() * channels)
        };
        let mut planes: Vec<Vec<u8>> = Vec::new();
        while planes.len() < count
            invariant
                planes@.len() <= count,
                forall|i: int| 0 <= i < planes@.len() ==> (#[trigger] planes@[i])@.len() == 0,
            decreases count - planes@.len(),
        {
            planes.push(Vec::new());
        }
        let fifo = Self { planes, format, rate, stride };
        proof {
            assert(stride > 0) by (nonlinear_arith)
                requires
                    stride == format.width() || stride == format.width() * channels,
                    format.width() > 0,
                    channels > 0,
            ;
            assert(fifo.held() =~= Seq::new(count as nat, |i: int| Seq::<u8>::empty())) by {
                assert forall|i: int| 0 <= i < count implies #[trigger] fifo.held()[i]
                    == Seq::<u8>::empty() by {
                    assert(planes@[i]@ =~= Seq::<u8>::empty());
                }
            }
            if count == 1 {
                assert(fifo.held() =~= seq![Seq::<u8>::empty()]);
            }
        }
        fifo
    }

    pub fn samples(&self) -> (n: usize)
        requires
            self.wf(),
        ensures
            n == self.count(),
    {
        assert(self.held()[0] == self.planes@[0]@);
        self.planes[0].len() / self.stride
    }

    /// Takes the samples of a frame in, without its padding.
    pub fn push(&mut self, frame: &AudioFrame)
        requires
            old(self).wf(),
            frame.samples > 0 ==> frame.planes@.len() >= old(self).held().len() && (forall|i: int|
                0 <= i < old(self).held().len() ==> (#[trigger] frame.planes@[i])@.len()
                    >= frame.samples * old(self).sample_bytes()),
            old(self).held()[0].len() + frame.samples * old(self).sample_bytes() <= usize::MAX,
        ensures
            final(self).wf(),
            frame.samples == 0 ==> final(self).held() == old(self).held(),
            frame.samples > 0 ==> final(self).held() == append_planes(
                old(self).held(),
                plane_bytes(frame.planes@),
                frame.samples * old(self).sample_bytes(),
            ),
            final(self).count() == old(self).count() + frame.samples,
            final(self).sample_bytes() == old(self).sample_bytes(),
            final(self).sample_format() == old(self).sample_format(),
            final(self).sample_rate() == old(self).sample_rate(),
    {
        if frame.samples == 0 {
            return;
        }
        let ghost before = self.held();
        let ghost given = plane_bytes(frame.planes@);
        let valid: usize = frame.samples * self.stride;
        let count: usize = self.planes.len();
        let mut i: usize = 0;
        while i < count
            invariant
                count == self.planes@.len(),
                count == before.len(),
                i <= count,
                valid == frame.samples * self.stride,
                self.stride == old(self).stride,
                self.format == old(self).format,
                self.rate == old(self).rate,
                given == plane_bytes(frame.planes@),
                frame.planes@.len() >= count,
                forall|j: int| 0 <= j < count ==> (#[trigger] frame.planes@[j])@.len() >= valid,
                forall|j: int|
                    0 <= j < i ==> (#[trigger] self.planes@[j])@ == before[j] + given[j].take(
                        valid as int,
                    ),
                forall|j: int| i <= j < count ==> (#[trigger] self.planes@[j])@ == before[j],
            decreases count - i,
        {
            let bytes: &[u8] = slice_subrange(frame.planes[i].as_slice(), 0, valid);
            assert(bytes@ =~= given[i as int].take(valid as int));
            self.planes[i].extend_from_slice(bytes);
            i += 1;
        }
        proof {
            let after = append_planes(before, given, valid as int);
            assert(self.held() =~= after);
            let stride = self.stride as int;
            assert forall|j: int| 0 <= j < self.held().len() implies (#[trigger] self.held()[j]).len()
                == before[0].len() + valid by {
                assert(before[j].len() == before[0].len());
                assert(frame.planes@[j]@.len() >= valid);
                assert(given[j].len() >= valid);
            }
            vstd::arithmetic::div_mod::lemma_mod_multiples_vanish(
                frame.samples as int,
                before[0].len() as int,
                stride,
            );
            vstd::arithmetic::div_mod::lemma_hoist_over_denominator(
                before[0].len() as int,
                frame.samples as int,
                stride as nat,
            );
            assert(stride * frame.samples == valid) by (nonlinear_arith)
                requires
                    valid == frame.samples * stride,
            ;
        }
    }

    /// Takes the oldest `samples` samples out, as one frame.
    pub fn pop(&mut self, samples: usize) -> (frame: AudioFrame)
        requires
            old(self).wf(),
            samples <= old(self).count(),
        ensures
            final(self).wf(),
            plane_bytes(frame.planes@) == head_planes(
                old(self).held(),
                samples * old(self).sample_bytes(),
            ),
            final(self).held() == tail_planes(
                old(self).held(),
                samples * old(self).sample_bytes(),
            ),
            frame.samples == samples,
            frame.format == old(self).sample_format(),
            frame.rate == old(self).sample_rate(),
            frame.pts is None,
            final(self).count() == old(self).count() - samples,
            final(self).sample_bytes() == old(self).sample_bytes(),
            final(self).sample_format() == old(self).sample_format(),
            final(self).sample_rate() == old(self).sample_rate(),
    {
        let ghost before = self.held();
        let ghost stride = self.stride as int;
        proof {
            let len = before[0].len() as int;
            assert(samples * stride <= len) by (nonlinear_arith)
                requires
                    samples <= len / stride,
                    stride > 0,
                    len >= 0,
            ;
            assert(before[0] == self.planes@[0]@);
        }
        let bytes: usize = samples * self.stride;
        let count: usize = self.planes.len();
        let mut planes: Vec<Vec<u8>> = Vec::new();
        let mut i: usize = 0;
        while i < count
            invariant
                count == self.planes@.len(),
                count == before.len(),
                i == planes@.len(),
                i <= count,
                bytes <= before[0].len(),
                self.stride == old(self).stride,
                self.format == old(self).format,
                self.rate == old(self).rate,
                forall|j: int| 0 <= j < count ==> (#[trigger] before[j]).len() == before[0].len(),
                forall|j: int|
                    0 <= j < i ==> (#[trigger] planes@[j])@ == before[j].take(bytes as int),
                forall|j: int|
                    0 <= j < i ==> (#[trigger] self.planes@[j])@ == before[j].skip(bytes as int),
                forall|j: int| i <= j < count ==> (#[trigger] self.planes@[j])@ == before[j],
            decreases count - i,
        {
            assert(before[i as int].len() == before[0].len());
            assert(self.planes@[i as int]@ == before[i as int]);
            let mut half: Vec<u8> = self.planes[i].split_off(bytes);
            std::mem::swap(&mut self.planes[i], &mut half);
            planes.push(half);
            i += 1;
        }
        let frame = AudioFrame { format: self.format, rate: self.rate, samples, pts: None, planes };
        proof {
            assert(plane_bytes(frame.planes@) =~= head_planes(before, bytes as int));
            assert(self.held() =~= tail_planes(before, bytes as int));
            let len = before[0].len() as int;
            assert forall|j: int| 0 <= j < self.held().len() implies (#[trigger] self.held()[j]).len()
                == len - bytes by {
                assert(before[j].len() == before[0].len());
            }
            assert((len - bytes) + samples * stride == len);
            vstd::arithmetic::div_mod::lemma_mod_multiples_vanish(samples as int, len - bytes, stride);
            vstd::arithmetic::div_mod::lemma_hoist_over_denominator(
                len - bytes,
                samples as int,
                stride as nat,
            );
            assert(stride * samples == bytes) by (nonlinear_arith)
                requires
                    bytes == samples * stride,
            ;
        }
        frame
    }
}

/// One frame as an encoder gets it.
pub struct CutFrame {
    pub samples: nat,
    pub pts: int,
    pub planes: Seq<Seq<u8>>,
}

/// Planes that hold the same number of whole samples.
pub open spec fn even_planes(held: Seq<Seq<u8>>, stride: nat) -> bool {
    &&& stride > 0
    &&& held.len() > 0
    &&& held[0].len() % stride == 0
    &&& forall|i: int| 0 <= i < held.len() ==> (#[trigger] held[i]).len() == held[0].len()
}

/// How many samples the next frame gets; 0 if there is none to be had. A frame
/// shorter than `frame_size` is had only at the very end.
pub open spec fn next_cut(held: Seq<Seq<u8>>, stride: nat, frame_size: nat, drain: bool) -> nat {
    let count = held[0].len() / stride;
    if count >= frame_size {
        frame_size
    } else if drain {
        count
    } else {
        0
    }
}

/// The frames that are cut from what is held.
pub open spec fn cut_frames(
    held: Seq<Seq<u8>>,
    stride: nat,
    frame_size: nat,
    pts: int,
    drain: bool,
) -> Seq<CutFrame>
    decreases held[0].len(),
{
    let samples = next_cut(held, stride, frame_size, drain);
    if held.len() == 0 || stride == 0 || samples == 0 {
        Seq::empty()
    } else {
        proof {
            lemma_cut_shrinks(held, stride, frame_size, drain);
        }
        let bytes = (samples * stride) as int;
        seq![CutFrame { samples, pts, planes: head_planes(held, bytes) }] + cut_frames(
            tail_planes(held, bytes),
            stride,
            frame_size,
            pts + samples,
            drain,
        )
    }
}

/// What stays held when the frames are cut.
pub open spec fn cut_rest(held: Seq<Seq<u8>>, stride: nat, frame_size: nat, drain: bool) -> Seq<
    Seq<u8>,
>
    decreases held[0].len(),
{
    let samples = next_cut(held, stride, frame_size, drain);
    if held.len() == 0 || stride == 0 || samples == 0 {
        held
    } else {
        proof {
            lemma_cut_shrinks(held, stride, frame_size, drain);
        }
        cut_rest(tail_planes(held, (samples * stride) as int), stride, frame_size, drain)
    }
}

pub proof fn lemma_cut_shrinks(held: Seq<Seq<u8>>, stride: nat, frame_size: nat, drain: bool)
    requires
        held.len() > 0,
        stride > 0,
    ensures
        ({
            let samples = next_cut(held, stride, frame_size, drain);
            &&& samples * stride <= held[0].len()
            &&& samples > 0 ==> samples * stride > 0
            &&& samples > 0 ==> tail_planes(held, (samples * stride) as int)[0].len()
                < held[0].len()
        }),
{
    let samples = next_cut(held, stride, frame_size, drain);
    let len = held[0].len();
    assert(samples * stride <= len) by (nonlinear_arith)
        requires
            samples <= len / stride,
            stride > 0,
    ;
    assert(samples > 0 ==> samples * stride > 0) by (nonlinear_arith)
        requires
            stride > 0,
    ;
}

proof fn lemma_tail_even(held: Seq<Seq<u8>>, stride: nat, samples: nat)
    requires
        even_planes(held, stride),
        samples * stride <= held[0].len(),
    ensures
        even_planes(tail_planes(held, (samples * stride) as int), stride),
        tail_planes(held, (samples * stride) as int)[0].len() / stride == held[0].len() / stride
            - samples,
{
    let bytes = (samples * stride) as int;
    let tail = tail_planes(held, bytes);
    let len = held[0].len() as int;
    assert forall|i: int| 0 <= i < tail.len() implies (#[trigger] tail[i]).len() == len - bytes by {
        assert(held[i].len() == held[0].len());
    }
    vstd::arithmetic::div_mod::lemma_mod_multiples_vanish(
        samples as int,
        len - bytes,
        stride as int,
    );
    vstd::arithmetic::div_mod::lemma_hoist_over_denominator(len - bytes, samples as int, stride);
    assert(stride * samples == bytes) by (nonlinear_arith)
        requires
            bytes == samples * stride,
    ;
}

/// What is done with a FIFO.
pub enum FifoUse {
    /// A frame with so many samples in each plane is pushed.
    Push { planes: Seq<Seq<u8>>, samples: nat },
    /// So many samples are popped.
    Pop { samples: nat },
}

/// What a FIFO holds after one use, as `push` and `pop` leave it.
pub open spec fn used(held: Seq<Seq<u8>>, stride: nat, with: FifoUse) -> Seq<Seq<u8>> {
    match with {
        FifoUse::Push { planes, samples } => if samples == 0 {
            held
        } else {
            append_planes(held, planes, (samples * stride) as int)
        },
        FifoUse::Pop { samples } => tail_planes(held, (samples * stride) as int),
    }
}

/// What a FIFO holds after these uses, in order.
pub open spec fn held_after(held: Seq<Seq<u8>>, stride: nat, uses: Seq<FifoUse>) -> Seq<Seq<u8>>
    decreases uses.len(),
{
    if uses.len() == 0 {
        held
    } else {
        used(held_after(held, stride, uses.drop_last()), stride, uses.last())
    }
}

/// Whether a FIFO that holds this can be used so: a pushed frame has the planes and
/// the bytes of its samples, and no more is popped than is held.
pub open spec fn can_use(held: Seq<Seq<u8>>, stride: nat, with: FifoUse) -> bool {
    match with {
        FifoUse::Push { planes, samples } => samples > 0 ==> planes.len() >= held.len() && (
        forall|i: int|
            0 <= i < held.len() ==> (#[trigger] planes[i]).len() >= samples * stride),
        FifoUse::Pop { samples } => samples <= held[0].len() / stride,
    }
}

pub open spec fn can_use_all(held: Seq<Seq<u8>>, stride: nat, uses: Seq<FifoUse>) -> bool
    decreases uses.len(),
{
    uses.len() > 0 ==> can_use_all(held, stride, uses.drop_last()) && can_use(
        held_after(held, stride, uses.drop_last()),
        stride,
        uses.last(),
    )
}

/// The sample bytes of a plane that are pushed, padding left out.
pub open spec fn pushed(stride: nat, uses: Seq<FifoUse>, plane: int) -> Seq<u8>
    decreases uses.len(),
{
    if uses.len() == 0 {
        Seq::empty()
    } else {
        let earlier = pushed(stride, uses.drop_last(), plane);
        match uses.last() {
            FifoUse::Push { planes, samples } => if samples == 0 {
                earlier
            } else {
                earlier + planes[plane].take((samples * stride) as int)
            },
            FifoUse::Pop { .. } => earlier,
        }
    }
}

/// The sample bytes of a plane that are popped.
pub open spec fn popped(
    held: Seq<Seq<u8>>,
    stride: nat,
    uses: Seq<FifoUse>,
    plane: int,
) -> Seq<u8>
    decreases uses.len(),
{
    if uses.len() == 0 {
        Seq::empty()
    } else {
        let front = uses.drop_last();
        let earlier = popped(held, stride, front, plane);
        match uses.last() {
            FifoUse::Push { .. } => earlier,
            FifoUse::Pop { samples } => earlier + head_planes(
                held_after(held, stride, front),
                (samples * stride) as int,
            )[plane],
        }
    }
}

/// Pushed samples less popped samples.
pub open spec fn balance(uses: Seq<FifoUse>) -> int
    decreases uses.len(),
{
    if uses.len() == 0 {
        0
    } else {
        balance(uses.drop_last()) + match uses.last() {
            FifoUse::Push { samples, .. } => samples as int,
            FifoUse::Pop { samples } => -(samples as int),
        }
    }
}

proof fn lemma_used_even(held: Seq<Seq<u8>>, stride: nat, with: FifoUse)
    requires
        even_planes(held, stride),
        can_use(held, stride, with),
    ensures
        even_planes(used(held, stride, with), stride),
        used(held, stride, with).len() == held.len(),
        used(held, stride, with)[0].len() / stride == held[0].len() / stride + (match with {
            FifoUse::Push { samples, .. } => samples as int,
            FifoUse::Pop { samples } => -(samples as int),
        }),
        with matches FifoUse::Pop { samples } ==> samples * stride <= held[0].len(),
{
    let len = held[0].len() as int;
    match with {
        FifoUse::Push { planes, samples } => {
            if samples > 0 {
                let bytes = (samples * stride) as int;
                let now = used(held, stride, with);
                assert forall|i: int| 0 <= i < now.len() implies (#[trigger] now[i]).len() == len
                    + bytes by {
                    assert(held[i].len() == held[0].len());
                    assert(planes[i].len() >= samples * stride);
                }
                vstd::arithmetic::div_mod::lemma_mod_multiples_vanish(
                    samples as int,
                    len,
                    stride as int,
                );
                vstd::arithmetic::div_mod::lemma_hoist_over_denominator(
                    len,
                    samples as int,
                    stride,
                );
                assert(stride * samples == bytes) by (nonlinear_arith)
                    requires
                        bytes == samples * stride,
                ;
            }
        },
        FifoUse::Pop { samples } => {
            assert(samples * stride <= len) by (nonlinear_arith)
                requires
                    samples <= len / stride as int,
                    stride > 0,
            ;
            lemma_tail_even(held, stride, samples);
        },
    }
}

/// Over any pushes and pops, what comes out of a FIFO, followed by what it still
/// holds, is of every plane what it held at first, followed by the samples that
/// were pushed; and it holds as many samples more as were pushed than popped.
pub proof fn law_fifo_keeps_order(
    held: Seq<Seq<u8>>,
    stride: nat,
    uses: Seq<FifoUse>,
    plane: int,
)
    requires
        even_planes(held, stride),
        can_use_all(held, stride, uses),
        0 <= plane < held.len(),
    ensures
        ({
            let now = held_after(held, stride, uses);
            &&& even_planes(now, stride)
            &&& now.len() == held.len()
            &&& popped(held, stride, uses, plane) + now[plane] == held[plane] + pushed(
                stride,
                uses,
                plane,
            )
            &&& now[0].len() / stride == held[0].len() / stride + balance(uses)
        }),
    decreases uses.len(),
{
    let out = popped(held, stride, uses, plane);
    if uses.len() == 0 {
        assert(out + held[plane] =~= held[plane] + pushed(stride, uses, plane));
    } else {
        let front = uses.drop_last();
        law_fifo_keeps_order(held, stride, front, plane);
        let before = held_after(held, stride, front);
        let now = held_after(held, stride, uses);
        let earlier = popped(held, stride, front, plane);
        let came = pushed(stride, front, plane);
        lemma_used_even(before, stride, uses.last());
        assert(before[plane].len() == before[0].len());
        match uses.last() {
            FifoUse::Push { planes, samples } => {
                if samples > 0 {
                    let more = planes[plane].take((samples * stride) as int);
                    assert(now[plane] == before[plane] + more);
                    assert(earlier + now[plane] =~= (earlier + before[plane]) + more);
                    assert((held[plane] + came) + more =~= held[plane] + (came + more));
                }
            },
            FifoUse::Pop { samples } => {
                let bytes = (samples * stride) as int;
                assert(before[plane] =~= before[plane].take(bytes) + before[plane].skip(bytes));
                assert(out + now[plane] =~= earlier + before[plane]);
            },
        }
    }
}

/// What comes out of a new FIFO is, plane by plane, a prefix of what went in, and it
/// holds as many samples as were pushed and not popped.
pub proof fn law_fifo_gives_a_prefix(
    fifo: AudioFifo,
    uses: Seq<FifoUse>,
    plane: int,
)
    requires
        fifo.wf(),
        fifo.count() == 0,
        can_use_all(fifo.held(), fifo.sample_bytes(), uses),
        0 <= plane < fifo.held().len(),
    ensures
        popped(fifo.held(), fifo.sample_bytes(), uses, plane).is_prefix_of(
            pushed(fifo.sample_bytes(), uses, plane),
        ),
        held_after(fifo.held(), fifo.sample_bytes(), uses)[0].len() / fifo.sample_bytes()
            == balance(uses),
{
    let held = fifo.held();
    let stride = fifo.sample_bytes();
    let len = held[0].len();
    assert(len == 0) by (nonlinear_arith)
        requires
            len / stride == 0,
            len % stride == 0,
            stride > 0,
    ;
    assert(held[plane].len() == held[0].len());
    law_fifo_keeps_order(held, stride, uses, plane);
    let came = pushed(stride, uses, plane);
    let out = popped(held, stride, uses, plane);
    let now = held_after(held, stride, uses);
    assert(held[plane] + came =~= came);
    assert(out =~= (out + now[plane]).take(out.len() as int));
}

/// What the encoder gets of one plane, in order.
pub open spec fn encoded_plane(frames: Seq<CutFrame>, plane: int) -> Seq<u8> {
    frames.map_values(|frame: CutFrame| frame.planes[plane]).flatten()
}

/// No audio is lost or made up, and its order is kept: of every plane, the
/// frames followed by what stays held are what was held.
pub proof fn law_no_audio_is_lost(
    held: Seq<Seq<u8>>,
    stride: nat,
    frame_size: nat,
    pts: int,
    drain: bool,
    plane: int,
)
    requires
        even_planes(held, stride),
        0 <= plane < held.len(),
    ensures
        cut_rest(held, stride, frame_size, drain).len() == held.len(),
        held[plane] == encoded_plane(cut_frames(held, stride, frame_size, pts, drain), plane)
            + cut_rest(held, stride, frame_size, drain)[plane],
    decreases held[0].len(),
{
    let samples = next_cut(held, stride, frame_size, drain);
    let frames = cut_frames(held, stride, frame_size, pts, drain);
    let of_plane = |frame: CutFrame| frame.planes[plane];
    if samples == 0 {
        assert(frames.map_values(of_plane) =~= Seq::<Seq<u8>>::empty());
        assert(encoded_plane(frames, plane) + held[plane] =~= held[plane]);
    } else {
        lemma_cut_shrinks(held, stride, frame_size, drain);
        lemma_tail_even(held, stride, samples);
        let bytes = (samples * stride) as int;
        let tail = tail_planes(held, bytes);
        law_no_audio_is_lost(tail, stride, frame_size, pts + samples, drain, plane);
        let more = cut_frames(tail, stride, frame_size, pts + samples, drain);
        let parts = frames.map_values(of_plane);
        assert(held[plane].len() == held[0].len());
        assert(parts[0] == held[plane].take(bytes));
        assert(parts.drop_first() =~= more.map_values(of_plane));
        assert(held[plane] =~= held[plane].take(bytes) + tail[plane]);
        assert(held[plane] =~= encoded_plane(frames, plane) + cut_rest(
            held,
            stride,
            frame_size,
            drain,
        )[plane]);
    }
}

/// Every frame has exactly `frame_size` samples; only when draining may the
/// very last one be shorter, and it is not empty.
pub proof fn law_frames_have_exact_size(
    held: Seq<Seq<u8>>,
    stride: nat,
    frame_size: nat,
    pts: int,
    drain: bool,
)
    requires
        even_planes(held, stride),
        frame_size > 0,
    ensures
        ({
            let frames = cut_frames(held, stride, frame_size, pts, drain);
            &&& forall|i: int|
                0 <= i < frames.len() && (!drain || i < frames.len() - 1) ==> (
                #[trigger] frames[i]).samples == frame_size
            &&& forall|i: int|
                0 <= i < frames.len() ==> 0 < (#[trigger] frames[i]).samples <= frame_size
        }),
    decreases held[0].len(),
{
    let samples = next_cut(held, stride, frame_size, drain);
    let frames = cut_frames(held, stride, frame_size, pts, drain);
    if samples > 0 {
        lemma_cut_shrinks(held, stride, frame_size, drain);
        lemma_tail_even(held, stride, samples);
        let tail = tail_planes(held, (samples * stride) as int);
        let more = cut_frames(tail, stride, frame_size, pts + samples, drain);
        law_frames_have_exact_size(tail, stride, frame_size, pts + samples, drain);
        if samples < frame_size {
            assert(tail[0].len() / stride == 0);
            assert(more.len() == 0);
        }
        assert forall|i: int|
            0 <= i < frames.len() && (!drain || i < frames.len() - 1) implies (
        #[trigger] frames[i]).samples == frame_size by {
            if i > 0 {
                assert(frames[i] == more[i - 1]);
            }
        }
        assert forall|i: int| 0 <= i < frames.len() implies 0 < (#[trigger] frames[i]).samples
            <= frame_size by {
            if i > 0 {
                assert(frames[i] == more[i - 1]);
            }
        }
    }
}

/// Every frame holds exactly the bytes of its samples, in each plane, and has a plane
/// for each that is held.
pub proof fn law_frames_hold_their_samples(
    held: Seq<Seq<u8>>,
    stride: nat,
    frame_size: nat,
    pts: int,
    drain: bool,
)
    requires
        even_planes(held, stride),
    ensures
        ({
            let frames = cut_frames(held, stride, frame_size, pts, drain);
            forall|i: int, plane: int|
                0 <= i < frames.len() && 0 <= plane < held.len() ==> (
                #[trigger] frames[i].planes[plane]).len() == frames[i].samples * stride
                    && frames[i].planes.len() == held.len()
        }),
    decreases held[0].len(),
{
    let samples = next_cut(held, stride, frame_size, drain);
    let frames = cut_frames(held, stride, frame_size, pts, drain);
    if samples > 0 {
        lemma_cut_shrinks(held, stride, frame_size, drain);
        lemma_tail_even(held, stride, samples);
        let tail = tail_planes(held, (samples * stride) as int);
        let more = cut_frames(tail, stride, frame_size, pts + samples, drain);
        law_frames_hold_their_samples(tail, stride, frame_size, pts + samples, drain);
        assert forall|i: int, plane: int|
            0 <= i < frames.len() && 0 <= plane < held.len() implies (
        #[trigger] frames[i].planes[plane]).len() == frames[i].samples * stride
            && frames[i].planes.len() == held.len() by {
            if i > 0 {
                assert(frames[i] == more[i - 1]);
                assert(more[i - 1].planes[plane].len() == more[i - 1].samples * stride);
            } else {
                assert(held[plane].len() == held[0].len());
            }
        }
    }
}

/// Timestamps run on without gap or overlap: each frame begins where the one
/// before it ends.
pub proof fn law_timestamps_are_contiguous(
    held: Seq<Seq<u8>>,
    stride: nat,
    frame_size: nat,
    pts: int,
    drain: bool,
)
    requires
        even_planes(held, stride),
    ensures
        ({
            let frames = cut_frames(held, stride, frame_size, pts, drain);
            &&& frames.len() > 0 ==> frames[0].pts == pts
            &&& forall|i: int|
                0 < i < frames.len() ==> (#[trigger] frames[i]).pts == frames[i - 1].pts + frames[i
                    - 1].samples
        }),
    decreases held[0].len(),
{
    let samples = next_cut(held, stride, frame_size, drain);
    let frames = cut_frames(held, stride, frame_size, pts, drain);
    if samples > 0 {
        lemma_cut_shrinks(held, stride, frame_size, drain);
        lemma_tail_even(held, stride, samples);
        let tail = tail_planes(held, (samples * stride) as int);
        let more = cut_frames(tail, stride, frame_size, pts + samples, drain);
        law_timestamps_are_contiguous(tail, stride, frame_size, pts + samples, drain);
        assert forall|i: int| 0 < i < frames.len() implies (#[trigger] frames[i]).pts == frames[i
            - 1].pts + frames[i - 1].samples by {
            assert(frames[i] == more[i - 1]);
            if i > 1 {
                assert(frames[i - 1] == more[i - 2]);
            }
        }
    }
}

/// What stays held is less than a frame, and nothing at all after draining.
pub proof fn law_less_than_a_frame_stays(
    held: Seq<Seq<u8>>,
    stride: nat,
    frame_size: nat,
    drain: bool,
)
    requires
        even_planes(held, stride),
        frame_size > 0,
    ensures
        even_planes(cut_rest(held, stride, frame_size, drain), stride),
        cut_rest(held, stride, frame_size, drain)[0].len() / stride < frame_size,
        drain ==> cut_rest(held, stride, frame_size, drain)[0].len() == 0,
    decreases held[0].len(),
{
    let samples = next_cut(held, stride, frame_size, drain);
    if samples > 0 {
        lemma_cut_shrinks(held, stride, frame_size, drain);
        lemma_tail_even(held, stride, samples);
        law_less_than_a_frame_stays(
            tail_planes(held, (samples * stride) as int),
            stride,
            frame_size,
            drain,
        );
    } else if drain {
        let len = held[0].len();
        assert(len == 0) by (nonlinear_arith)
            requires
                len / stride == 0,
                len % stride == 0,
                stride > 0,
        ;
    }
}

/// The frames as an encoder gets them.
pub open spec fn as_cut(frames: Seq<AudioFrame>) -> Seq<CutFrame> {
    frames.map_values(
        |frame: AudioFrame|
            CutFrame {
                samples: frame.samples as nat,
                pts: match frame.pts {
                    Some(pts) => pts as int,
                    None => 0,
                },
                planes: plane_bytes(frame.planes@),
            },
    )
}

/// Resampled audio on its way to the encoder, across reconnections.
#[derive(Debug)]
pub struct AudioRecorder {
    fifo: AudioFifo,
    frame_size: usize,
    /// Presentation timestamp of the next encoder frame, in samples.
    next_pts: i64,
}

impl AudioRecorder {
    /// The samples that wait for a whole frame.
    pub closed spec fn waiting(&self) -> AudioFifo {
        self.fifo
    }

    /// How many samples the encoder takes at a time.
    pub closed spec fn frame_samples(&self) -> nat {
        self.frame_size as nat
    }

    /// Presentation timestamp of the next frame.
    pub closed spec fn timestamp(&self) -> int {
        self.next_pts as int
    }

    pub open spec fn wf(&self) -> bool {
        &&& self.waiting().wf()
        &&& self.frame_samples() > 0
        &&& self.timestamp() >= 0
    }

    /// A recorder for an encoder with this sample format, number of channels and
    /// rate, which reports this frame size.
    pub fn new(format: SampleFormat, channels: usize, rate: u32, reported_frame_size: u32) -> (r: Self)
        requires
            format.width() * channels <= usize::MAX,
        ensures
            r.wf(),
            r.timestamp() == 0,
            r.frame_samples() == (if reported_frame_size == 0 {
                1024
            } else {
                reported_frame_size as int
            }),
            r.frame_samples() == frame_samples_for(reported_frame_size),
            r.waiting().sample_format() == format,
            r.waiting().sample_rate() == rate,
            r.waiting().count() == 0,
            ({
                let channels = if channels == 0 {
                    1nat
                } else {
                    channels as nat
                };
                &&& format.planar ==> r.waiting().sample_bytes() == format.width()
                &&& format.planar ==> r.waiting().held() == Seq::new(
                    channels,
                    |i: int| Seq::<u8>::empty(),
                )
                &&& !format.planar ==> r.waiting().sample_bytes() == format.width() * channels
                &&& !format.planar ==> r.waiting().held() == seq![Seq::<u8>::empty()]
            }),
    {
        Self {
            fifo: AudioFifo::new(format, channels, rate),
            frame_size: frame_size(reported_frame_size),
            next_pts: 0,
        }
    }

    /// Takes a resampled frame in.
    pub fn push(&mut self, frame: &AudioFrame)
        requires
            old(self).wf(),
            frame.samples > 0 ==> frame.planes@.len() >= old(self).waiting().held().len() && (
            forall|i: int|
                0 <= i < old(self).waiting().held().len() ==> (
                #[trigger] frame.planes@[i])@.len() >= frame.samples
                    * old(self).waiting().sample_bytes()),
            old(self).waiting().held()[0].len() + frame.samples
                * old(self).waiting().sample_bytes() <= usize::MAX,
        ensures
            final(self).wf(),
            frame.samples == 0 ==> final(self).waiting().held() == old(self).waiting().held(),
            frame.samples > 0 ==> final(self).waiting().held() == append_planes(
                old(self).waiting().held(),
                plane_bytes(frame.planes@),
                frame.samples * old(self).waiting().sample_bytes(),
            ),
            final(self).waiting().sample_bytes() == old(self).waiting().sample_bytes(),
            final(self).waiting().sample_format() == old(self).waiting().sample_format(),
            final(self).waiting().sample_rate() == old(self).waiting().sample_rate(),
            final(self).frame_samples() == old(self).frame_samples(),
            final(self).timestamp() == old(self).timestamp(),
    {
        self.fifo.push(frame);
    }

    /// Whether all that waits can still get a timestamp.
    pub fn can_encode(&self) -> (r: bool)
        requires
            self.wf(),
        ensures
            r == (self.timestamp() + self.waiting().count() <= i64::MAX),
    {
        let left: u64 = (i64::MAX - self.next_pts) as u64;
        self.fifo.samples() as u64 <= left
    }

    /// Cut whole `frame_size` chunks out of the FIFO. When `drain` is set,
    /// also emit whatever is left as a final short frame — permitted only once,
    /// as the very last frame handed to the encoder.
    pub fn encode_buffered(&mut self, drain: bool) -> (frames: Vec<AudioFrame>)
        requires
            old(self).wf(),
            old(self).timestamp() + old(self).waiting().count() <= i64::MAX,
        ensures
            final(self).wf(),
            as_cut(frames@) == cut_frames(
                old(self).waiting().held(),
                old(self).waiting().sample_bytes(),
                old(self).frame_samples(),
                old(self).timestamp(),
                drain,
            ),
            forall|i: int|
                0 <= i < frames@.len() ==> (#[trigger] frames@[i]).format
                    == old(self).waiting().sample_format() && frames@[i].rate
                    == old(self).waiting().sample_rate() && frames@[i].pts is Some,
            final(self).waiting().held() == cut_rest(
                old(self).waiting().held(),
                old(self).waiting().sample_bytes(),
                old(self).frame_samples(),
                drain,
            ),
            final(self).timestamp() == old(self).timestamp() + old(self).waiting().count() - final(self).waiting().count(),
            final(self).waiting().sample_bytes() == old(self).waiting().sample_bytes(),
            final(self).waiting().sample_format() == old(self).waiting().sample_format(),
            final(self).waiting().sample_rate() == old(self).waiting().sample_rate(),
            final(self).frame_samples() == old(self).frame_samples(),
    {
        let ghost held = self.fifo.held();
        let ghost stride = self.fifo.sample_bytes();
        let ghost size = self.frame_samples();
        let ghost start = self.timestamp();
        let mut frames: Vec<AudioFrame> = Vec::new();
        assert(as_cut(frames@) + cut_frames(held, stride, size, start, drain) =~= cut_frames(
            held,
            stride,
            size,
            start,
            drain,
        ));
        while self.fifo.samples() >= self.frame_size || (drain && self.fifo.samples() > 0)
            invariant
                self.wf(),
                stride == self.fifo.sample_bytes(),
                size == self.frame_samples(),
                self.frame_samples() == self.frame_size,
                self.fifo.sample_format() == old(self).waiting().sample_format(),
                self.fifo.sample_rate() == old(self).waiting().sample_rate(),
                as_cut(frames@) + cut_frames(
                    self.fifo.held(),
                    stride,
                    size,
                    self.timestamp(),
                    drain,
                ) == cut_frames(held, stride, size, start, drain),
                cut_rest(self.fifo.held(), stride, size, drain) == cut_rest(
                    held,
                    stride,
                    size,
                    drain,
                ),
                forall|i: int|
                    0 <= i < frames@.len() ==> (#[trigger] frames@[i]).format
                        == old(self).waiting().sample_format() && frames@[i].rate
                        == old(self).waiting().sample_rate() && frames@[i].pts is Some,
                self.timestamp() + self.fifo.count() == start + old(self).waiting().count(),
                start + old(self).waiting().count() <= i64::MAX,
            decreases self.fifo.count(),
        {
            let ghost now = self.fifo.held();
            let ghost at = self.timestamp();
            let ghost so_far = as_cut(frames@);
            let available: usize = self.fifo.samples();
            let samples: usize = if self.frame_size < available {
                self.frame_size
            } else {
                available
            };
            let mut frame = self.fifo.pop(samples);
            frame.pts = Some(self.next_pts);
            self.next_pts += samples as i64;
            frames.push(frame);
            proof {
                lemma_cut_shrinks(now, stride, size, drain);
                let first = CutFrame {
                    samples: samples as nat,
                    pts: at,
                    planes: head_planes(now, (samples * stride) as int),
                };
                let more = cut_frames(self.fifo.held(), stride, size, self.timestamp(), drain);
                assert(cut_frames(now, stride, size, at, drain) == seq![first] + more);
                assert(as_cut(frames@) =~= so_far.push(first));
                assert(so_far.push(first) + more =~= so_far + (seq![first] + more));
            }
        }
        proof {
            assert(next_cut(self.fifo.held(), stride, size, drain) == 0);
            assert(as_cut(frames@) + Seq::<CutFrame>::empty() =~= as_cut(frames@));
        }
        frames
    }
}

/// Where the last of these frames ends, or `pts` if there is none.
pub open spec fn end_of(frames: Seq<CutFrame>, pts: int) -> int {
    if frames.len() == 0 {
        pts
    } else {
        frames.last().pts + frames.last().samples
    }
}

proof fn lemma_cut_end(held: Seq<Seq<u8>>, stride: nat, frame_size: nat, pts: int, drain: bool)
    requires
        even_planes(held, stride),
    ensures
        even_planes(cut_rest(held, stride, frame_size, drain), stride),
        cut_rest(held, stride, frame_size, drain).len() == held.len(),
        end_of(cut_frames(held, stride, frame_size, pts, drain), pts) == pts + held[0].len()
            / stride - cut_rest(held, stride, frame_size, drain)[0].len() / stride,
    decreases held[0].len(),
{
    let samples = next_cut(held, stride, frame_size, drain);
    if samples > 0 {
        lemma_cut_shrinks(held, stride, frame_size, drain);
        lemma_tail_even(held, stride, samples);
        let tail = tail_planes(held, (samples * stride) as int);
        lemma_cut_end(tail, stride, frame_size, pts + samples, drain);
        let frames = cut_frames(held, stride, frame_size, pts, drain);
        let more = cut_frames(tail, stride, frame_size, pts + samples, drain);
        if more.len() > 0 {
            assert(frames.last() == more.last());
        }
    }
}

/// All frames that an encoder gets while these resampled frames come in, one after
/// the other, and when the recording is finished.
pub open spec fn recording_frames(
    held: Seq<Seq<u8>>,
    stride: nat,
    frame_size: nat,
    pts: int,
    inputs: Seq<Seq<Seq<u8>>>,
) -> Seq<CutFrame>
    decreases inputs.len(),
{
    if inputs.len() == 0 {
        cut_frames(held, stride, frame_size, pts, true)
    } else {
        let now = append_planes(held, inputs[0], inputs[0][0].len() as int);
        let frames = cut_frames(now, stride, frame_size, pts, false);
        frames + recording_frames(
            cut_rest(now, stride, frame_size, false),
            stride,
            frame_size,
            end_of(frames, pts),
            inputs.drop_first(),
        )
    }
}

/// Resampled frames that fit what is held: as many planes, of whole samples.
pub open spec fn even_inputs(inputs: Seq<Seq<Seq<u8>>>, planes: nat, stride: nat) -> bool {
    forall|i: int|
        0 <= i < inputs.len() ==> even_planes(#[trigger] inputs[i], stride) && inputs[i].len()
            == planes
}

proof fn lemma_append_even(held: Seq<Seq<u8>>, more: Seq<Seq<u8>>, stride: nat)
    requires
        even_planes(held, stride),
        even_planes(more, stride),
        more.len() == held.len(),
    ensures
        even_planes(append_planes(held, more, more[0].len() as int), stride),
        forall|i: int|
            0 <= i < held.len() ==> #[trigger] append_planes(held, more, more[0].len() as int)[i]
                == held[i] + more[i],
{
    let now = append_planes(held, more, more[0].len() as int);
    let a = held[0].len() as int;
    let b = more[0].len() as int;
    vstd::arithmetic::div_mod::lemma_add_mod_noop(a, b, stride as int);
    vstd::arithmetic::div_mod::lemma_small_mod(0, stride);
    assert forall|i: int| 0 <= i < held.len() implies #[trigger] now[i] == held[i] + more[i] by {
        assert(more[i].len() == more[0].len());
        assert(more[i].take(b) =~= more[i]);
    }
    assert forall|i: int| 0 <= i < now.len() implies (#[trigger] now[i]).len() == now[0].len() by {
        assert(held[i].len() == held[0].len() && more[i].len() == more[0].len());
    }
    assert(now[0].len() == a + b);
}

proof fn lemma_inputs_rest(inputs: Seq<Seq<Seq<u8>>>, planes: nat, stride: nat)
    requires
        even_inputs(inputs, planes, stride),
        inputs.len() > 0,
    ensures
        even_planes(inputs[0], stride) && inputs[0].len() == planes,
        even_inputs(inputs.drop_first(), planes, stride),
{
    assert(even_planes(inputs[0], stride));
    assert forall|i: int| 0 <= i < inputs.drop_first().len() implies even_planes(
        #[trigger] inputs.drop_first()[i],
        stride,
    ) && inputs.drop_first()[i].len() == planes by {
        assert(even_planes(inputs[i + 1], stride));
    }
}

/// A recording is complete, across all connections: of every plane, the encoder
/// gets all that was held and all that came in, in order, and nothing else.
pub proof fn law_recording_is_complete(
    held: Seq<Seq<u8>>,
    stride: nat,
    frame_size: nat,
    pts: int,
    inputs: Seq<Seq<Seq<u8>>>,
    plane: int,
)
    requires
        even_planes(held, stride),
        frame_size > 0,
        even_inputs(inputs, held.len(), stride),
        0 <= plane < held.len(),
    ensures
        encoded_plane(recording_frames(held, stride, frame_size, pts, inputs), plane) == held[plane]
            + inputs.map_values(|input: Seq<Seq<u8>>| input[plane]).flatten(),
    decreases inputs.len(),
{
    let of_plane = |frame: CutFrame| frame.planes[plane];
    let of_input = |input: Seq<Seq<u8>>| input[plane];
    if inputs.len() == 0 {
        law_no_audio_is_lost(held, stride, frame_size, pts, true, plane);
        law_less_than_a_frame_stays(held, stride, frame_size, true);
        assert(inputs.map_values(of_input) =~= Seq::<Seq<u8>>::empty());
        let rest = cut_rest(held, stride, frame_size, true);
        assert(rest[plane].len() == rest[0].len());
        assert(rest[plane] =~= inputs.map_values(of_input).flatten());
        let all = encoded_plane(recording_frames(held, stride, frame_size, pts, inputs), plane);
        assert(all + rest[plane] =~= all);
    } else {
        lemma_inputs_rest(inputs, held.len(), stride);
        lemma_append_even(held, inputs[0], stride);
        let now = append_planes(held, inputs[0], inputs[0][0].len() as int);
        let frames = cut_frames(now, stride, frame_size, pts, false);
        let rest = cut_rest(now, stride, frame_size, false);
        let later = inputs.drop_first();
        lemma_cut_end(now, stride, frame_size, pts, false);
        law_no_audio_is_lost(now, stride, frame_size, pts, false, plane);
        law_recording_is_complete(rest, stride, frame_size, end_of(frames, pts), later, plane);
        let more = recording_frames(rest, stride, frame_size, end_of(frames, pts), later);
        assert((frames + more).map_values(of_plane) =~= frames.map_values(of_plane)
            + more.map_values(of_plane));
        crate::flv::lemma_flatten_add(frames.map_values(of_plane), more.map_values(of_plane));
        let parts = inputs.map_values(of_input);
        assert(parts.drop_first() =~= later.map_values(of_input));
        assert(now[plane] == held[plane] + inputs[0][plane]);
        assert(encoded_plane(frames, plane) + (rest[plane] + parts.drop_first().flatten())
            =~= now[plane] + parts.drop_first().flatten());
        assert(now[plane] + parts.drop_first().flatten() =~= held[plane] + parts.flatten());
    }
}

/// Across all connections, every frame but the very last has exactly `frame_size`
/// samples, and the last one has no more and is not empty.
pub proof fn law_recording_frames_have_exact_size(
    held: Seq<Seq<u8>>,
    stride: nat,
    frame_size: nat,
    pts: int,
    inputs: Seq<Seq<Seq<u8>>>,
)
    requires
        even_planes(held, stride),
        frame_size > 0,
        even_inputs(inputs, held.len(), stride),
    ensures
        ({
            let frames = recording_frames(held, stride, frame_size, pts, inputs);
            &&& forall|i: int|
                0 <= i < frames.len() - 1 ==> (#[trigger] frames[i]).samples == frame_size
            &&& forall|i: int|
                0 <= i < frames.len() ==> 0 < (#[trigger] frames[i]).samples <= frame_size
        }),
    decreases inputs.len(),
{
    if inputs.len() == 0 {
        law_frames_have_exact_size(held, stride, frame_size, pts, true);
    } else {
        lemma_inputs_rest(inputs, held.len(), stride);
        lemma_append_even(held, inputs[0], stride);
        let now = append_planes(held, inputs[0], inputs[0][0].len() as int);
        let frames = cut_frames(now, stride, frame_size, pts, false);
        let rest = cut_rest(now, stride, frame_size, false);
        lemma_cut_end(now, stride, frame_size, pts, false);
        law_frames_have_exact_size(now, stride, frame_size, pts, false);
        let at = end_of(frames, pts);
        law_recording_frames_have_exact_size(rest, stride, frame_size, at, inputs.drop_first());
        let more = recording_frames(rest, stride, frame_size, at, inputs.drop_first());
        let all = frames + more;
        assert forall|i: int| 0 <= i < all.len() - 1 implies (#[trigger] all[i]).samples
            == frame_size by {
            if i < frames.len() {
                assert(all[i] == frames[i]);
            } else {
                assert(all[i] == more[i - frames.len()]);
            }
        }
        assert forall|i: int| 0 <= i < all.len() implies 0 < (#[trigger] all[i]).samples
            <= frame_size by {
            if i < frames.len() {
                assert(all[i] == frames[i]);
            } else {
                assert(all[i] == more[i - frames.len()]);
            }
        }
    }
}

/// Across all connections, timestamps run on without gap or overlap.
pub proof fn law_recording_timestamps_are_contiguous(
    held: Seq<Seq<u8>>,
    stride: nat,
    frame_size: nat,
    pts: int,
    inputs: Seq<Seq<Seq<u8>>>,
)
    requires
        even_planes(held, stride),
        even_inputs(inputs, held.len(), stride),
    ensures
        ({
            let frames = recording_frames(held, stride, frame_size, pts, inputs);
            &&& frames.len() > 0 ==> frames[0].pts == pts
            &&& forall|i: int|
                0 < i < frames.len() ==> (#[trigger] frames[i]).pts == frames[i - 1].pts + frames[i
                    - 1].samples
        }),
    decreases inputs.len(),
{
    if inputs.len() == 0 {
        law_timestamps_are_contiguous(held, stride, frame_size, pts, true);
    } else {
        lemma_inputs_rest(inputs, held.len(), stride);
        lemma_append_even(held, inputs[0], stride);
        let now = append_planes(held, inputs[0], inputs[0][0].len() as int);
        let frames = cut_frames(now, stride, frame_size, pts, false);
        let rest = cut_rest(now, stride, frame_size, false);
        lemma_cut_end(now, stride, frame_size, pts, false);
        law_timestamps_are_contiguous(now, stride, frame_size, pts, false);
        let at = end_of(frames, pts);
        law_recording_timestamps_are_contiguous(rest, stride, frame_size, at, inputs.drop_first());
        let more = recording_frames(rest, stride, frame_size, at, inputs.drop_first());
        let all = frames + more;
        assert forall|i: int| 0 < i < all.len() implies (#[trigger] all[i]).pts == all[i - 1].pts
            + all[i - 1].samples by {
            if i < frames.len() {
                assert(all[i] == frames[i] && all[i - 1] == frames[i - 1]);
            } else if i == frames.len() {
                assert(all[i] == more[0]);
                assert(all[i - 1] == frames.last());
            } else {
                assert(all[i] == more[i - frames.len()] && all[i - 1] == more[i - 1
                    - frames.len()]);
            }
        }
    }
}

/// The samples that the resampler says it still holds.
pub open spec fn pending_samples(delay: Option<i64>) -> int {
    match delay {
        Some(d) => if d > 0 {
            d as int
        } else {
            0
        },
        None => 0,
    }
}

/// What the resampler says it holds is believed, unless it is less than nothing.
pub proof fn law_pending_samples_are_believed(delay: i64)
    ensures
        delay >= 0 ==> pending_samples(Some(delay)) == delay,
        delay < 0 ==> pending_samples(Some(delay)) == 0,
        pending_samples(None) == 0,
{
}

/// `a / b`, rounded up.
pub open spec fn div_up(a: int, b: int) -> int {
    (a + b - 1) / b
}

/// Samples that a frame for resampled audio has room for beyond the estimate.
pub const HEADROOM: usize = 64;

/// How many samples a frame must hold that takes what the resampler still holds and
/// what it makes of `samples` more.
pub open spec fn room_for(delay: Option<i64>, samples: nat, in_rate: nat, out_rate: nat) -> int {
    pending_samples(delay) + div_up(
        (samples * out_rate) as int,
        if in_rate == 0 {
            1
        } else {
            in_rate as int
        },
    ) + HEADROOM
}

/// A frame has room for what the resampler holds, if that is anything, for all that the
/// samples become at the new rate, counted up to a whole one, and for the headroom, and
/// for no more.
pub proof fn law_room_is_exact(delay: i64, samples: nat, in_rate: nat, out_rate: nat)
    requires
        in_rate > 0,
    ensures
        ({
            let new = room_for(None, samples, in_rate, out_rate) - HEADROOM;
            &&& samples * out_rate <= new * in_rate < samples * out_rate + in_rate
            &&& delay >= 0 ==> room_for(Some(delay), samples, in_rate, out_rate) == delay + new
                + HEADROOM
            &&& delay < 0 ==> room_for(Some(delay), samples, in_rate, out_rate) == new + HEADROOM
            &&& room_for(Some(delay), samples, 0, out_rate) == room_for(
                Some(delay),
                samples,
                1,
                out_rate,
            )
        }),
{
    let a = (samples * out_rate) as int;
    let b = in_rate as int;
    let new = div_up(a, b);
    assert(a <= new * b < a + b) by (nonlinear_arith)
        requires
            b > 0,
            a >= 0,
            new == (a + b - 1) / b,
    ;
}

/// How many samples a frame must hold that takes what the resampler still holds
/// and what it makes of `samples` more. The resampler's own delay is already
/// expressed in output samples, so it is not rescaled.
pub fn resample_capacity(delay: Option<i64>, samples: usize, in_rate: u32, out_rate: u32) -> (
    capacity: usize)
    requires
        samples * out_rate <= usize::MAX,
        pending_samples(delay) + samples * out_rate + HEADROOM <= usize::MAX,
    ensures
        capacity == pending_samples(delay) + div_up(
            samples * out_rate,
            if in_rate == 0 {
                1
            } else {
                in_rate as int
            },
        ) + HEADROOM,
        capacity == room_for(delay, samples as nat, in_rate as nat, out_rate as nat),
{
    let rate: usize = if in_rate == 0 {
        1
    } else {
        in_rate as usize
    };
    let pending: usize = match delay {
        Some(d) => if d > 0 {
            d as usize
        } else {
            0
        },
        None => 0,
    };
    let scaled: usize = samples * out_rate as usize;
    let whole: usize = scaled / rate;
    proof {
        let a = scaled as int;
        let b = rate as int;
        assert(whole <= a) by (nonlinear_arith)
            requires
                whole == a / b,
                a >= 0,
                b > 0,
        ;
        assert(a % b == 0 ==> div_up(a, b) == a / b) by (nonlinear_arith)
            requires
                b > 0,
        ;
        assert(a % b != 0 ==> div_up(a, b) == a / b + 1 && a / b + 1 <= a) by (nonlinear_arith)
            requires
                b > 0,
                a >= 0,
        ;
    }
    if scaled % rate == 0 {
        pending + whole + HEADROOM
    } else {
        pending + (whole + 1) + HEADROOM
    }
}

/// A frame of that capacity is never too short: beyond what is pending and the
/// headroom it has room for all that `samples` become at the new rate, which are
/// no fewer where the new rate is no lower. Nor is it longer than it need be.
pub proof fn law_capacity_suffices(samples: nat, in_rate: nat, out_rate: nat)
    requires
        in_rate > 0,
    ensures
        div_up((samples * out_rate) as int, in_rate as int) * in_rate >= samples * out_rate,
        in_rate <= out_rate ==> div_up((samples * out_rate) as int, in_rate as int) >= samples,
        samples * out_rate > 0 ==> (div_up((samples * out_rate) as int, in_rate as int) - 1)
            * in_rate < samples * out_rate,
        samples * out_rate == 0 ==> div_up((samples * out_rate) as int, in_rate as int) == 0,
{
    let a = (samples * out_rate) as int;
    let b = in_rate as int;
    assert(div_up(a, b) * b >= a) by (nonlinear_arith)
        requires
            b > 0,
    ;
    assert((div_up(a, b) - 1) * b < a || a == 0) by (nonlinear_arith)
        requires
            b > 0,
            a >= 0,
    ;
    assert(a == 0 ==> div_up(a, b) == 0) by (nonlinear_arith)
        requires
            b > 0,
    ;
    if in_rate <= out_rate {
        let q = div_up(a, b);
        assert(q >= samples) by (nonlinear_arith)
            requires
                q * b >= a,
                a == samples * out_rate,
                b <= out_rate,
                b > 0,
        ;
    }
}

/// The room that what the resampler still holds at the end of a connection takes.
pub open spec fn flush_room(delay: Option<i64>) -> Option<int> {
    if pending_samples(delay) == 0 {
        None
    } else {
        Some(pending_samples(delay) + HEADROOM)
    }
}

/// The resampler is flushed if and only if it says that it holds something, into a frame
/// that has room for all of that and the headroom.
pub proof fn law_whatever_is_held_is_flushed(delay: i64)
    ensures
        delay > 0 ==> flush_room(Some(delay)) == Some(delay + HEADROOM),
        delay <= 0 ==> flush_room(Some(delay)) is None,
        flush_room(None) is None,
{
}

/// The capacity of a frame that takes what the resampler still holds at the end
/// of a connection, or `None` if it holds nothing.
pub fn flush_capacity(delay: Option<i64>) -> (capacity: Option<usize>)
    requires
        pending_samples(delay) + HEADROOM <= usize::MAX,
    ensures
        capacity == (if pending_samples(delay) == 0 {
            None
        } else {
            Some((pending_samples(delay) + HEADROOM) as usize)
        }),
        flush_room(delay) == (match capacity {
            Some(n) => Some(n as int),
            None => None,
        }),
{
    match delay {
        Some(d) => if d > 0 {
            Some(d as usize + HEADROOM)
        } else {
            None
        },
        None => None,
    }
}

/// Why a connection ended.
#[derive(Debug, Clone, Copy, PartialEq, Eq, Structural)]
pub enum ConnEnd {
    Eof,
    Cancelled,
}

/// What a connection brings.
#[derive(Debug, Clone, Copy, PartialEq, Eq, Structural)]
pub enum Input {
    /// A packet of the stream with this index.
    Packet { stream: usize },
    /// There is nothing more.
    End,
}

/// What is done about it.
#[derive(Debug, Clone, Copy, PartialEq, Eq, Structural)]
pub enum InputUse {
    /// Decode the packet, and take in what comes of it.
    Decode,
    /// Leave the packet; it belongs to another stream.
    Skip,
    /// Take in what the decoder and then the resampler still hold, and leave the
    /// connection.
    Flush(ConnEnd),
}

/// What is done about what a connection brings.
pub open spec fn used_as(cancelled: bool, input: Input, audio_stream: usize) -> InputUse {
    match input {
        Input::Packet { stream } => if cancelled {
            InputUse::Flush(ConnEnd::Cancelled)
        } else if stream == audio_stream {
            InputUse::Decode
        } else {
            InputUse::Skip
        },
        Input::End => InputUse::Flush(ConnEnd::Eof),
    }
}

/// A packet is decoded if and only if it is one of the audio stream, whichever that is,
/// and the recording is not cancelled. A connection is left at its end, and at the next
/// packet once the recording is cancelled, never before, and what the decoder and the
/// resampler hold is taken in then.
pub proof fn law_audio_packets_are_decoded(cancelled: bool, stream: usize, audio_stream: usize)
    ensures
        used_as(false, Input::Packet { stream: audio_stream }, audio_stream) == InputUse::Decode,
        stream != audio_stream ==> used_as(false, Input::Packet { stream }, audio_stream)
            == InputUse::Skip,
        used_as(true, Input::Packet { stream }, audio_stream) == InputUse::Flush(
            ConnEnd::Cancelled,
        ),
        used_as(cancelled, Input::End, audio_stream) == InputUse::Flush(ConnEnd::Eof),
{
}

/// What is done about what a connection brings: only packets of the audio stream
/// are decoded. Whether the connection ends or the recording is cancelled, what
/// the decoder and the resampler hold is not dropped.
pub fn input_use(cancelled: bool, input: Input, audio_stream: usize) -> (r: InputUse)
    ensures
        r == (match input {
            Input::Packet { stream } => if cancelled {
                InputUse::Flush(ConnEnd::Cancelled)
            } else if stream == audio_stream {
                InputUse::Decode
            } else {
                InputUse::Skip
            },
            Input::End => InputUse::Flush(ConnEnd::Eof),
        }),
        r == used_as(cancelled, input, audio_stream),
{
    match input {
        Input::Packet { stream } => if cancelled {
            InputUse::Flush(ConnEnd::Cancelled)
        } else if stream == audio_stream {
            InputUse::Decode
        } else {
            InputUse::Skip
        },
        Input::End => InputUse::Flush(ConnEnd::Eof),
    }
}

} // verus!
