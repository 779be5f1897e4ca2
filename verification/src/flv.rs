//! FLV byte streams: dropping repeated container headers after a reconnection,
//! and dropping the audio or the video tags of a stream.
//!
//! A stream is a 9-byte file header, a 4-byte zero `PreviousTagSize`, and then
//! tags. A tag is an 11-byte tag header (kind, 24-bit big-endian payload size,
//! timestamp, stream id), the payload, and the 4-byte `PreviousTagSize`.
//!
//! Bytes come in chunks that may end anywhere, so what is known of a header or a
//! tag that goes on in the next chunk is carried over.

use vstd::prelude::*;
use vstd::slice::slice_subrange;

verus! {

/// Kind of an audio tag.
pub const AUDIO: u8 = 0x08;

/// Kind of a video tag.
pub const VIDEO: u8 = 0x09;

/// Kind of a script-data tag.
pub const SCRIPT: u8 = 0x12;

/// Length of the file header together with the `PreviousTagSize` after it.
pub const FILE_HEADER_LEN: usize = 13;

/// Length of the header of a tag.
pub const TAG_HEADER_LEN: usize = 11;

/// Length of a tag without payload: its header and its `PreviousTagSize`.
pub const EMPTY_TAG_LEN: usize = 15;

/// The kind that the first byte of a tag announces.
pub open spec fn tag_kind(first: u8) -> u8 {
    first & 0x1F
}

/// A tag that carries audio or video.
pub open spec fn is_media(kind: u8) -> bool {
    kind == AUDIO || kind == VIDEO
}

/// The length of the tag that begins at `at`, as its header announces it.
pub open spec fn tag_len(data: Seq<u8>, at: int) -> int {
    EMPTY_TAG_LEN + data[at + 1] * 0x10000 + data[at + 2] * 0x100 + data[at + 3]
}

/// Whether a filter with these settings lets tags of this kind through.
pub open spec fn kept(kind: u8, keep_audio: bool, keep_video: bool) -> bool {
    &&& kind == AUDIO ==> keep_audio
    &&& kind == VIDEO ==> keep_video
}

/// Where in a stream the next byte stands.
pub enum Place {
    /// At the start of the stream, after so many bytes of the signature `FLV` that a
    /// file header begins with. It may also be a tag that begins like it.
    Opening(nat),
    /// So many bytes before the next tag.
    Before(nat),
    /// In the header of a tag, after its kind and so many bytes of its size.
    Size { seen: nat, size: nat },
}

/// Whether the next byte begins a tag, or else a file header.
pub open spec fn begins(place: Place) -> bool {
    place == Place::Before(0) || place == Place::Opening(0)
}

/// Where the byte after `b` stands.
pub open spec fn past(place: Place, b: u8) -> Place {
    match place {
        Place::Opening(n) => if n == 0 {
            if b == 0x46 {
                Place::Opening(1)
            } else {
                Place::Size { seen: 0, size: 0 }
            }
        } else if n == 1 {
            if b == 0x4C {
                Place::Opening(2)
            } else {
                Place::Size { seen: 1, size: b as nat }
            }
        } else {
            if b == 0x56 {
                Place::Before((FILE_HEADER_LEN - 3) as nat)
            } else {
                Place::Size { seen: 2, size: (0x4C00 + b) as nat }
            }
        },
        Place::Before(n) => if n == 0 {
            Place::Size { seen: 0, size: 0 }
        } else {
            Place::Before((n - 1) as nat)
        },
        Place::Size { seen, size } => if seen < 2 {
            Place::Size { seen: seen + 1, size: size * 0x100 + b as nat }
        } else {
            Place::Before((size * 0x100 + b + EMPTY_TAG_LEN - 4) as nat)
        },
    }
}

/// How far the headers that open a connection are stripped.
pub struct Strip {
    /// Whether all further bytes are handed on.
    pub passing: bool,
    pub place: Place,
}

/// The headers of a new connection are to be stripped.
pub open spec fn reconnected() -> Strip {
    Strip { passing: false, place: Place::Before(FILE_HEADER_LEN as nat) }
}

/// Whether stripping ends before this byte: it begins an audio or video tag.
pub open spec fn stops(strip: Strip, b: u8) -> bool {
    begins(strip.place) && is_media(tag_kind(b))
}

/// How far stripping is after these bytes.
pub open spec fn strip_after(strip: Strip, data: Seq<u8>) -> Strip
    decreases data.len(),
{
    if strip.passing || data.len() == 0 {
        strip
    } else if stops(strip, data[0]) {
        Strip { passing: true, place: strip.place }
    } else {
        strip_after(Strip { passing: false, place: past(strip.place, data[0]) }, data.skip(1))
    }
}

/// What is handed on of these bytes: those from the first audio or video tag on.
pub open spec fn strip_out(strip: Strip, data: Seq<u8>) -> Seq<u8>
    decreases data.len(),
{
    if strip.passing || data.len() == 0 || stops(strip, data[0]) {
        data
    } else {
        strip_out(Strip { passing: false, place: past(strip.place, data[0]) }, data.skip(1))
    }
}

/// How far a stream is filtered.
pub struct Sieve {
    pub place: Place,
    /// Whether the tag, or the file header, that is being read is kept.
    pub keep: bool,
}

/// The start of a stream.
pub open spec fn stream_start() -> Sieve {
    Sieve { place: Place::Opening(0), keep: true }
}

/// The start of a tag.
pub open spec fn tag_start() -> Sieve {
    Sieve { place: Place::Before(0), keep: true }
}

/// Whether the byte is kept: a tag is kept or dropped whole, by its kind.
pub open spec fn keeps(sieve: Sieve, b: u8, keep_audio: bool, keep_video: bool) -> bool {
    if begins(sieve.place) {
        kept(tag_kind(b), keep_audio, keep_video)
    } else {
        sieve.keep
    }
}

/// How far filtering is after this byte.
pub open spec fn sieve_past(sieve: Sieve, b: u8, keep_audio: bool, keep_video: bool) -> Sieve {
    Sieve { place: past(sieve.place, b), keep: keeps(sieve, b, keep_audio, keep_video) }
}

/// How far filtering is after these bytes.
pub open spec fn sieve_after(
    sieve: Sieve,
    data: Seq<u8>,
    keep_audio: bool,
    keep_video: bool,
) -> Sieve
    decreases data.len(),
{
    if data.len() == 0 {
        sieve
    } else {
        sieve_after(
            sieve_past(sieve, data[0], keep_audio, keep_video),
            data.skip(1),
            keep_audio,
            keep_video,
        )
    }
}

/// What is left of these bytes: those that are kept.
pub open spec fn sieve_out(
    sieve: Sieve,
    data: Seq<u8>,
    keep_audio: bool,
    keep_video: bool,
) -> Seq<u8>
    decreases data.len(),
{
    if data.len() == 0 {
        Seq::empty()
    } else {
        let rest = sieve_out(
            sieve_past(sieve, data[0], keep_audio, keep_video),
            data.skip(1),
            keep_audio,
            keep_video,
        );
        if keeps(sieve, data[0], keep_audio, keep_video) {
            seq![data[0]] + rest
        } else {
            rest
        }
    }
}

/// Follows the tags of a stream, byte by byte.
pub struct Cursor {
    /// One more than the number of bytes read of the signature that a stream may
    /// open with, 0 if that is settled.
    opening: u8,
    /// Bytes before the next tag.
    left: u32,
    /// One more than the number of bytes read of the size of a tag, 0 outside.
    sizing: u8,
    high: u8,
    mid: u8,
}

impl View for Cursor {
    type V = Place;

    closed spec fn view(&self) -> Place {
        if self.opening == 1 {
            Place::Opening(0)
        } else if self.opening == 2 {
            Place::Opening(1)
        } else if self.opening == 3 {
            Place::Opening(2)
        } else if self.sizing == 0 {
            Place::Before(self.left as nat)
        } else if self.sizing == 1 {
            Place::Size { seen: 0, size: 0 }
        } else if self.sizing == 2 {
            Place::Size { seen: 1, size: self.high as nat }
        } else {
            Place::Size { seen: 2, size: (self.high * 0x100 + self.mid) as nat }
        }
    }
}

impl Cursor {
    /// At the start of a stream.
    fn opening() -> (r: Self)
        ensures
            r@ == Place::Opening(0),
    {
        Self { opening: 1, left: 0, sizing: 0, high: 0, mid: 0 }
    }

    /// So many bytes before a tag.
    fn before(left: u32) -> (r: Self)
        ensures
            r@ == Place::Before(left as nat),
    {
        Self { opening: 0, left, sizing: 0, high: 0, mid: 0 }
    }

    fn begins(&self) -> (r: bool)
        ensures
            r == begins(self@),
    {
        self.opening == 1 || (self.opening != 2 && self.opening != 3 && self.sizing == 0
            && self.left == 0)
    }

    /// How many of the next bytes certainly come before the next tag.
    fn run(&self) -> (n: usize)
        ensures
            n > 0 ==> self@ == Place::Before(n as nat),
            n == 0 ==> !(self@ matches Place::Before(m) && m > 0),
    {
        if self.opening == 1 || self.opening == 2 || self.opening == 3 || self.sizing != 0 {
            0
        } else {
            self.left as usize
        }
    }

    /// Reads `n` bytes before the next tag.
    fn pass(&mut self, n: usize)
        requires
            old(self)@ matches Place::Before(m) && n <= m,
        ensures
            final(self)@ == Place::Before((old(self)@->Before_0 - n) as nat),
    {
        self.left = self.left - n as u32;
    }

    /// Reads one byte.
    fn step(&mut self, b: u8)
        ensures
            final(self)@ == past(old(self)@, b),
    {
        if self.opening == 1 || self.opening == 2 || self.opening == 3 {
            self.sizing = 0;
            self.left = 0;
            if self.opening == 1 {
                if b == 0x46 {
                    self.opening = 2;
                } else {
                    self.opening = 0;
                    self.sizing = 1;
                }
            } else if self.opening == 2 {
                if b == 0x4C {
                    self.opening = 3;
                } else {
                    self.opening = 0;
                    self.sizing = 2;
                    self.high = b;
                }
            } else {
                self.opening = 0;
                if b == 0x56 {
                    self.left = (FILE_HEADER_LEN - 3) as u32;
                } else {
                    self.sizing = 3;
                    self.high = 0x4C;
                    self.mid = b;
                }
            }
        } else if self.sizing == 0 {
            if self.left == 0 {
                self.sizing = 1;
            } else {
                self.left -= 1;
            }
        } else if self.sizing == 1 {
            self.high = b;
            self.sizing = 2;
        } else if self.sizing == 2 {
            self.mid = b;
            self.sizing = 3;
        } else {
            let size: u32 = self.high as u32 * 0x10000 + self.mid as u32 * 0x100 + b as u32;
            self.left = size + (EMPTY_TAG_LEN - 4) as u32;
            self.sizing = 0;
        }
    }
}

proof fn lemma_strip_run(strip: Strip, data: Seq<u8>, n: nat)
    requires
        !strip.passing,
        strip.place matches Place::Before(m) && n <= m,
        n <= data.len(),
    ensures
        ({
            let later = Strip {
                passing: false,
                place: Place::Before((strip.place->Before_0 - n) as nat),
            };
            &&& strip_out(strip, data) == strip_out(later, data.skip(n as int))
            &&& strip_after(strip, data) == strip_after(later, data.skip(n as int))
        }),
    decreases n,
{
    if n == 0 {
        assert(data.skip(0) =~= data);
    } else {
        let next = Strip {
            passing: false,
            place: Place::Before((strip.place->Before_0 - 1) as nat),
        };
        lemma_strip_run(next, data.skip(1), (n - 1) as nat);
        assert(data.skip(1).skip(n - 1) =~= data.skip(n as int));
    }
}

proof fn lemma_sieve_run(
    sieve: Sieve,
    data: Seq<u8>,
    n: nat,
    keep_audio: bool,
    keep_video: bool,
)
    requires
        sieve.place matches Place::Before(m) && n <= m,
        n <= data.len(),
    ensures
        ({
            let later = Sieve {
                place: Place::Before((sieve.place->Before_0 - n) as nat),
                keep: sieve.keep,
            };
            let rest = sieve_out(later, data.skip(n as int), keep_audio, keep_video);
            &&& sieve_out(sieve, data, keep_audio, keep_video) == (if sieve.keep {
                data.take(n as int) + rest
            } else {
                rest
            })
            &&& sieve_after(sieve, data, keep_audio, keep_video) == sieve_after(
                later,
                data.skip(n as int),
                keep_audio,
                keep_video,
            )
        }),
    decreases n,
{
    if n == 0 {
        assert(data.skip(0) =~= data);
        assert(data.take(0) + sieve_out(sieve, data, keep_audio, keep_video) =~= sieve_out(
            sieve,
            data,
            keep_audio,
            keep_video,
        ));
    } else {
        let next = Sieve {
            place: Place::Before((sieve.place->Before_0 - 1) as nat),
            keep: sieve.keep,
        };
        lemma_sieve_run(next, data.skip(1), (n - 1) as nat, keep_audio, keep_video);
        assert(data.skip(1).skip(n - 1) =~= data.skip(n as int));
        assert(data.take(n as int) =~= seq![data[0]] + data.skip(1).take(n - 1));
        let later = Sieve {
            place: Place::Before((sieve.place->Before_0 - n) as nat),
            keep: sieve.keep,
        };
        let rest = sieve_out(later, data.skip(n as int), keep_audio, keep_video);
        assert(seq![data[0]] + (data.skip(1).take(n - 1) + rest) =~= data.take(n as int) + rest);
    }
}

/// Strips redundant FLV container headers on reconnections so that
/// downstream ffmpeg can continue decoding the concatenated stream.
pub struct FlvStripper {
    /// Whether bytes pass through unchanged: true on the first connection, and
    /// again once the headers of a new connection are stripped.
    pub first_connection: bool,
    /// Where in the headers of a new connection the next byte stands.
    pub cursor: Cursor,
}

impl FlvStripper {
    /// How far the headers of a connection are stripped.
    pub open spec fn strip(&self) -> Strip {
        Strip { passing: self.first_connection, place: self.cursor@ }
    }

    pub fn new() -> (stripper: Self)
        ensures
            stripper.strip() == (Strip { passing: true, place: Place::Before(0) }),
    {
        Self { first_connection: true, cursor: Cursor::before(0) }
    }

    /// Process a chunk of FLV data.
    /// On the first connection data passes through unchanged.
    /// On reconnects the FLV header (9 bytes) + first PreviousTagSize0 (4 bytes)
    /// and any leading script-data tags (type 0x12) are stripped,
    /// preserving audio/video tags so the downstream decoder re-initialises.
    pub fn process<'a>(&mut self, data: &'a [u8]) -> (out: &'a [u8])
        ensures
            out@ == strip_out(old(self).strip(), data@),
            final(self).strip() == strip_after(old(self).strip(), data@),
    {
        if self.first_connection {
            return data;
        }
        let len: usize = data.len();
        let mut offset: usize = 0;
        assert(data@.skip(0) =~= data@);
        while offset < len
            invariant
                len == data@.len(),
                offset <= len,
                !self.first_connection,
                strip_out(old(self).strip(), data@) == strip_out(
                    self.strip(),
                    data@.skip(offset as int),
                ),
                strip_after(old(self).strip(), data@) == strip_after(
                    self.strip(),
                    data@.skip(offset as int),
                ),
            decreases len - offset,
        {
            let ghost rest = data@.skip(offset as int);
            let run: usize = self.cursor.run();
            if run > 0 {
                let n: usize = if run < len - offset {
                    run
                } else {
                    len - offset
                };
                proof {
                    lemma_strip_run(self.strip(), rest, n as nat);
                    assert(rest.skip(n as int) =~= data@.skip(offset + n));
                }
                self.cursor.pass(n);
                offset += n;
            } else {
                let b: u8 = data[offset];
                assert(rest[0] == b);
                let kind: u8 = b & 0x1F;
                if self.cursor.begins() && (kind == AUDIO || kind == VIDEO) {
                    self.first_connection = true;
                    return slice_subrange(data, offset, len);
                }
                assert(rest.skip(1) =~= data@.skip(offset + 1));
                self.cursor.step(b);
                offset += 1;
            }
        }
        assert(data@.skip(len as int) =~= Seq::<u8>::empty());
        slice_subrange(data, len, len)
    }

    /// Call after a reconnection so the next `process` call strips headers.
    pub fn mark_reconnect(&mut self)
        ensures
            final(self).strip() == reconnected(),
    {
        self.first_connection = false;
        self.cursor = Cursor::before(FILE_HEADER_LEN as u32);
    }
}

/// Wraps `FlvStripper` and optionally drops audio or video tags from the FLV
/// byte stream.  The returned slice is valid until the next `process` call.
pub struct FlvFilter {
    stripper: FlvStripper,
    keep_audio: bool,
    keep_video: bool,
    cursor: Cursor,
    /// Whether the tag that is being read is kept.
    keep: bool,
    /// Whether any bytes came yet.
    started: bool,
    buf: Vec<u8>,
}

/// The state of a filter.
pub struct Filter {
    pub strip: Strip,
    pub sieve: Sieve,
    pub keep_audio: bool,
    pub keep_video: bool,
}

/// The state of a filter before its first chunk.
pub open spec fn new_filter(keep_audio: bool, keep_video: bool) -> Filter {
    Filter {
        strip: Strip { passing: true, place: Place::Before(0) },
        sieve: stream_start(),
        keep_audio,
        keep_video,
    }
}

/// The state of a filter after a reconnection: headers are to be stripped, and a tag
/// follows.
pub open spec fn filter_reconnected(filter: Filter) -> Filter {
    Filter { strip: reconnected(), sieve: tag_start(), ..filter }
}

/// What a filter hands on of these bytes.
pub open spec fn filter_out(filter: Filter, data: Seq<u8>) -> Seq<u8> {
    let body = strip_out(filter.strip, data);
    if filter.keep_audio && filter.keep_video {
        body
    } else {
        sieve_out(filter.sieve, body, filter.keep_audio, filter.keep_video)
    }
}

/// The state of a filter after these bytes. A filter that keeps everything need not
/// follow the tags.
pub open spec fn filter_after(filter: Filter, data: Seq<u8>) -> Filter {
    let body = strip_out(filter.strip, data);
    Filter {
        strip: strip_after(filter.strip, data),
        sieve: if filter.keep_audio && filter.keep_video {
            filter.sieve
        } else {
            sieve_after(filter.sieve, body, filter.keep_audio, filter.keep_video)
        },
        ..filter
    }
}

impl View for FlvFilter {
    type V = Filter;

    closed spec fn view(&self) -> Filter {
        Filter {
            strip: self.stripper.strip(),
            sieve: Sieve { place: self.cursor@, keep: self.keep },
            keep_audio: self.keep_audio,
            keep_video: self.keep_video,
        }
    }
}

impl FlvFilter {
    /// Whether any bytes came yet.
    pub closed spec fn is_started(&self) -> bool {
        self.started
    }

    pub fn new(keep_audio: bool, keep_video: bool) -> (filter: Self)
        ensures
            filter@ == new_filter(keep_audio, keep_video),
            !filter.is_started(),
    {
        Self {
            stripper: FlvStripper::new(),
            keep_audio,
            keep_video,
            cursor: Cursor::opening(),
            keep: true,
            started: false,
            buf: Vec::with_capacity(65536),
        }
    }

    /// Whether any bytes came yet.
    pub fn has_started(&self) -> (r: bool)
        ensures
            r == self.is_started(),
    {
        self.started
    }

    /// Process a chunk of FLV data, returning the (possibly filtered) bytes
    /// that should be written to output.
    pub fn process<'a>(&'a mut self, data: &'a [u8]) -> (out: &'a [u8])
        ensures
            out@ == filter_out(old(self)@, data@),
            final(self)@ == filter_after(old(self)@, data@),
            final(self).is_started() == (old(self).is_started() || data@.len() > 0),
    {
        self.started = self.started || data.len() > 0;
        let rest: &'a [u8] = self.stripper.process(data);
        if self.keep_audio && self.keep_video {
            return rest;
        }
        self.buf.clear();

        let ghost start = old(self)@.sieve;
        let len: usize = rest.len();
        let mut offset: usize = 0;
        assert(rest@.skip(0) =~= rest@);
        assert(self.buf@ + sieve_out(start, rest@, self.keep_audio, self.keep_video) =~= sieve_out(
            start,
            rest@,
            self.keep_audio,
            self.keep_video,
        ));
        while offset < len
            invariant
                len == rest@.len(),
                offset <= len,
                self.buf@ + sieve_out(
                    self@.sieve,
                    rest@.skip(offset as int),
                    self.keep_audio,
                    self.keep_video,
                ) == sieve_out(start, rest@, self.keep_audio, self.keep_video),
                sieve_after(
                    self@.sieve,
                    rest@.skip(offset as int),
                    self.keep_audio,
                    self.keep_video,
                ) == sieve_after(start, rest@, self.keep_audio, self.keep_video),
                self.stripper.strip() == strip_after(old(self)@.strip, data@),
                self.started == (old(self).is_started() || data@.len() > 0),
                self.keep_audio == old(self)@.keep_audio,
                self.keep_video == old(self)@.keep_video,
            decreases len - offset,
        {
            let ghost left = rest@.skip(offset as int);
            let ghost before = self.buf@;
            let ghost sieve = self@.sieve;
            let run: usize = self.cursor.run();
            let mut n: usize = 1;
            if run > 0 {
                if run < len - offset {
                    n = run;
                } else {
                    n = len - offset;
                }
                proof {
                    lemma_sieve_run(sieve, left, n as nat, self.keep_audio, self.keep_video);
                }
                self.cursor.pass(n);
            } else {
                let b: u8 = rest[offset];
                assert(left[0] == b);
                assert(left.take(1) =~= seq![b]);
                if self.cursor.begins() {
                    let kind: u8 = b & 0x1F;
                    self.keep = if kind == AUDIO {
                        self.keep_audio
                    } else if kind == VIDEO {
                        self.keep_video
                    } else {
                        true
                    };
                }
                self.cursor.step(b);
            }
            let end: usize = offset + n;
            assert(left.skip(n as int) =~= rest@.skip(end as int));
            if self.keep {
                self.buf.extend_from_slice(slice_subrange(rest, offset, end));
                assert(rest@.subrange(offset as int, end as int) =~= left.take(n as int));
            }
            proof {
                let more = sieve_out(
                    self@.sieve,
                    rest@.skip(end as int),
                    self.keep_audio,
                    self.keep_video,
                );
                if self.keep {
                    assert((before + left.take(n as int)) + more =~= before + (left.take(n as int)
                        + more));
                }
            }
            offset = end;
        }
        assert(rest@.skip(len as int) =~= Seq::<u8>::empty());
        assert(self.buf@ =~= self.buf@ + Seq::<u8>::empty());
        self.buf.as_slice()
    }

    pub fn mark_reconnect(&mut self)
        ensures
            final(self)@ == filter_reconnected(old(self)@),
            final(self).is_started() == old(self).is_started(),
    {
        self.stripper.mark_reconnect();
        self.cursor = Cursor::before(0);
        self.keep = true;
    }
}

// What holds of streams that go through a stripper or a filter.

/// One complete tag, whose header announces exactly the bytes that are there.
pub open spec fn is_tag(tag: Seq<u8>) -> bool {
    tag.len() >= EMPTY_TAG_LEN && tag_len(tag, 0) == tag.len()
}

pub open spec fn all_tags(tags: Seq<Seq<u8>>) -> bool {
    forall|i: int| 0 <= i < tags.len() ==> #[trigger] is_tag(tags[i])
}

pub open spec fn kind_of(tag: Seq<u8>) -> u8 {
    tag_kind(tag[0])
}

/// No audio and no video among the tags: what may come before the first media tag.
pub open spec fn no_media(tags: Seq<Seq<u8>>) -> bool {
    forall|i: int| 0 <= i < tags.len() ==> !is_media(#[trigger] kind_of(tags[i]))
}

/// The file header and the `PreviousTagSize` that follows it.
pub open spec fn is_file_header(header: Seq<u8>) -> bool {
    header.len() == FILE_HEADER_LEN && header[0] == 0x46 && header[1] == 0x4C && header[2] == 0x56
}

/// A file header and then complete tags, which is what a decoder can read.
pub open spec fn is_flv(stream: Seq<u8>) -> bool {
    exists|header: Seq<u8>, tags: Seq<Seq<u8>>| #[trigger]
        is_file_header(header) && #[trigger] all_tags(tags) && stream == header + tags.flatten()
}

/// Everything that a stripper hands on of these chunks, in order.
pub open spec fn strip_all(strip: Strip, chunks: Seq<Seq<u8>>) -> Seq<u8>
    decreases chunks.len(),
{
    if chunks.len() == 0 {
        Seq::empty()
    } else {
        strip_out(strip, chunks[0]) + strip_all(
            strip_after(strip, chunks[0]),
            chunks.drop_first(),
        )
    }
}

/// Everything that a filter hands on of these chunks, in order.
pub open spec fn filter_all(filter: Filter, chunks: Seq<Seq<u8>>) -> Seq<u8>
    decreases chunks.len(),
{
    if chunks.len() == 0 {
        Seq::empty()
    } else {
        filter_out(filter, chunks[0]) + filter_all(
            filter_after(filter, chunks[0]),
            chunks.drop_first(),
        )
    }
}

/// The kinds that a filter with these settings lets through, as a predicate on tags.
pub open spec fn keeping(keep_audio: bool, keep_video: bool) -> spec_fn(Seq<u8>) -> bool {
    |tag: Seq<u8>| kept(kind_of(tag), keep_audio, keep_video)
}

/// Bytes that do not begin with a complete tag.
pub open spec fn no_tag_yet(tail: Seq<u8>) -> bool {
    tail.len() < TAG_HEADER_LEN || tag_len(tail, 0) > tail.len()
}

/// The complete tags that `data` begins with.
pub open spec fn leading_tags(data: Seq<u8>) -> Seq<Seq<u8>>
    decreases data.len(),
{
    if no_tag_yet(data) {
        Seq::empty()
    } else {
        seq![data.take(tag_len(data, 0))] + leading_tags(data.skip(tag_len(data, 0)))
    }
}

/// What comes after the complete tags that `data` begins with.
pub open spec fn after_tags(data: Seq<u8>) -> Seq<u8>
    decreases data.len(),
{
    if no_tag_yet(data) {
        data
    } else {
        after_tags(data.skip(tag_len(data, 0)))
    }
}

/// Two lists of pieces, each put together, make up what both lists do.
pub proof fn lemma_flatten_add(a: Seq<Seq<u8>>, b: Seq<Seq<u8>>)
    ensures
        (a + b).flatten() == a.flatten() + b.flatten(),
    decreases a.len(),
{
    if a.len() == 0 {
        assert(a + b =~= b);
    } else {
        lemma_flatten_add(a.drop_first(), b);
        assert((a + b).drop_first() =~= a.drop_first() + b);
    }
}

proof fn lemma_strip_cut(strip: Strip, a: Seq<u8>, b: Seq<u8>)
    ensures
        strip_out(strip, a + b) == strip_out(strip, a) + strip_out(strip_after(strip, a), b),
        strip_after(strip, a + b) == strip_after(strip_after(strip, a), b),
    decreases a.len(),
{
    if strip.passing {
    } else if a.len() == 0 {
        assert(a + b =~= b);
        assert(strip_out(strip, a) + strip_out(strip, b) =~= strip_out(strip, b));
    } else {
        assert((a + b)[0] == a[0]);
        assert((a + b).skip(1) =~= a.skip(1) + b);
        if !stops(strip, a[0]) {
            let next = Strip { passing: false, place: past(strip.place, a[0]) };
            lemma_strip_cut(next, a.skip(1), b);
        }
    }
}

proof fn lemma_sieve_cut(
    sieve: Sieve,
    a: Seq<u8>,
    b: Seq<u8>,
    keep_audio: bool,
    keep_video: bool,
)
    ensures
        sieve_out(sieve, a + b, keep_audio, keep_video) == sieve_out(
            sieve,
            a,
            keep_audio,
            keep_video,
        ) + sieve_out(sieve_after(sieve, a, keep_audio, keep_video), b, keep_audio, keep_video),
        sieve_after(sieve, a + b, keep_audio, keep_video) == sieve_after(
            sieve_after(sieve, a, keep_audio, keep_video),
            b,
            keep_audio,
            keep_video,
        ),
    decreases a.len(),
{
    if a.len() == 0 {
        assert(a + b =~= b);
        let out = sieve_out(sieve, b, keep_audio, keep_video);
        assert(sieve_out(sieve, a, keep_audio, keep_video) + out =~= out);
    } else {
        assert((a + b)[0] == a[0]);
        assert((a + b).skip(1) =~= a.skip(1) + b);
        let next = sieve_past(sieve, a[0], keep_audio, keep_video);
        lemma_sieve_cut(next, a.skip(1), b, keep_audio, keep_video);
        let first = sieve_out(next, a.skip(1), keep_audio, keep_video);
        let second = sieve_out(
            sieve_after(sieve, a, keep_audio, keep_video),
            b,
            keep_audio,
            keep_video,
        );
        assert(seq![a[0]] + (first + second) =~= (seq![a[0]] + first) + second);
    }
}

/// However the bytes are cut into chunks, a stripper hands on the same.
pub proof fn law_stripping_ignores_cuts(strip: Strip, chunks: Seq<Seq<u8>>)
    ensures
        strip_all(strip, chunks) == strip_out(strip, chunks.flatten()),
    decreases chunks.len(),
{
    if chunks.len() == 0 {
        assert(strip_out(strip, chunks.flatten()) =~= Seq::<u8>::empty());
    } else {
        let rest = chunks.drop_first();
        law_stripping_ignores_cuts(strip_after(strip, chunks[0]), rest);
        lemma_strip_cut(strip, chunks[0], rest.flatten());
    }
}

/// However the bytes are cut into chunks, a filter hands on the same.
pub proof fn law_filtering_ignores_cuts(filter: Filter, chunks: Seq<Seq<u8>>)
    ensures
        filter_all(filter, chunks) == filter_out(filter, chunks.flatten()),
    decreases chunks.len(),
{
    let keep_audio = filter.keep_audio;
    let keep_video = filter.keep_video;
    if chunks.len() == 0 {
        assert(strip_out(filter.strip, chunks.flatten()) =~= Seq::<u8>::empty());
        assert(filter_out(filter, chunks.flatten()) =~= Seq::<u8>::empty());
    } else {
        let rest = chunks.drop_first();
        let after = filter_after(filter, chunks[0]);
        law_filtering_ignores_cuts(after, rest);
        lemma_strip_cut(filter.strip, chunks[0], rest.flatten());
        lemma_sieve_cut(
            filter.sieve,
            strip_out(filter.strip, chunks[0]),
            strip_out(after.strip, rest.flatten()),
            keep_audio,
            keep_video,
        );
    }
}

/// On the first connection every byte is handed on.
pub proof fn law_first_connection_passes_through(strip: Strip, chunks: Seq<Seq<u8>>)
    requires
        strip.passing,
    ensures
        strip_all(strip, chunks) == chunks.flatten(),
{
    law_stripping_ignores_cuts(strip, chunks);
}

/// A complete tag without media is stripped whole.
proof fn lemma_strip_tag(tag: Seq<u8>, rest: Seq<u8>)
    requires
        is_tag(tag),
        !is_media(kind_of(tag)),
    ensures
        ({
            let at_tag = Strip { passing: false, place: Place::Before(0) };
            strip_out(at_tag, tag + rest) == strip_out(at_tag, rest)
        }),
{
    let data = tag + rest;
    let at_tag = Strip { passing: false, place: Place::Before(0) };
    let size = (tag[1] * 0x10000 + tag[2] * 0x100 + tag[3]) as nat;
    let payload = Strip { passing: false, place: Place::Before((size + 11) as nat) };
    let d1 = data.skip(1);
    let d2 = d1.skip(1);
    let d3 = d2.skip(1);
    let d4 = d3.skip(1);
    assert(data[0] == tag[0] && d1[0] == tag[1] && d2[0] == tag[2] && d3[0] == tag[3]);
    let s1 = Strip { passing: false, place: Place::Size { seen: 0, size: 0 } };
    let s2 = Strip { passing: false, place: Place::Size { seen: 1, size: tag[1] as nat } };
    let s3 = Strip {
        passing: false,
        place: Place::Size { seen: 2, size: (tag[1] * 0x100 + tag[2]) as nat },
    };
    assert(strip_out(at_tag, data) == strip_out(s1, d1));
    assert(strip_out(s1, d1) == strip_out(s2, d2));
    assert(strip_out(s2, d2) == strip_out(s3, d3));
    assert((tag[1] * 0x100 + tag[2]) * 0x100 + tag[3] == size);
    assert(strip_out(s3, d3) == strip_out(payload, d4));
    lemma_strip_run(payload, d4, (size + 11) as nat);
    assert(d4.skip((size + 11) as int) =~= rest);
}

proof fn lemma_strip_tags(lead: Seq<Seq<u8>>, rest: Seq<u8>)
    requires
        all_tags(lead),
        no_media(lead),
    ensures
        ({
            let at_tag = Strip { passing: false, place: Place::Before(0) };
            strip_out(at_tag, lead.flatten() + rest) == strip_out(at_tag, rest)
        }),
    decreases lead.len(),
{
    if lead.len() == 0 {
        assert(lead.flatten() + rest =~= rest);
    } else {
        let tag = lead[0];
        let more = lead.drop_first();
        assert(is_tag(tag) && !is_media(kind_of(tag)));
        assert forall|i: int| 0 <= i < more.len() implies #[trigger] is_tag(more[i]) by {
            assert(is_tag(lead[i + 1]));
        }
        assert forall|i: int| 0 <= i < more.len() implies !is_media(
            #[trigger] kind_of(more[i]),
        ) by {
            assert(!is_media(kind_of(lead[i + 1])));
        }
        lemma_strip_tags(more, rest);
        lemma_strip_tag(tag, more.flatten() + rest);
        assert(lead.flatten() + rest =~= tag + (more.flatten() + rest));
    }
}

/// After a reconnection the file header and the script-data tags at the start of
/// the new connection are dropped, and the tags from the first audio or video
/// tag on are handed on whole, however the bytes are cut into chunks.
pub proof fn law_reconnect_keeps_media_tags(
    header: Seq<u8>,
    lead: Seq<Seq<u8>>,
    rest: Seq<Seq<u8>>,
    chunks: Seq<Seq<u8>>,
)
    requires
        is_file_header(header),
        all_tags(lead),
        no_media(lead),
        all_tags(rest),
        rest.len() > 0 ==> is_media(kind_of(rest[0])),
        chunks.flatten() == header + lead.flatten() + rest.flatten(),
    ensures
        strip_all(reconnected(), chunks) == rest.flatten(),
{
    let whole = chunks.flatten();
    let tags = lead.flatten() + rest.flatten();
    law_stripping_ignores_cuts(reconnected(), chunks);
    lemma_strip_run(reconnected(), whole, FILE_HEADER_LEN as nat);
    assert(whole.skip(FILE_HEADER_LEN as int) =~= tags);
    lemma_strip_tags(lead, rest.flatten());
    if rest.len() > 0 {
        assert(is_tag(rest[0]));
        assert(rest.flatten()[0] == rest[0][0]);
    } else {
        assert(rest.flatten() =~= Seq::<u8>::empty());
    }
}

/// The concatenated byte stream stays valid: what was handed on before, a file
/// header and complete tags, followed by what a stripper hands on of a new
/// connection, is again a file header and complete tags.
pub proof fn law_concatenated_stream_stays_valid(
    before: Seq<u8>,
    header: Seq<u8>,
    lead: Seq<Seq<u8>>,
    rest: Seq<Seq<u8>>,
    chunks: Seq<Seq<u8>>,
)
    requires
        is_flv(before),
        is_file_header(header),
        all_tags(lead),
        no_media(lead),
        all_tags(rest),
        rest.len() > 0 ==> is_media(kind_of(rest[0])),
        chunks.flatten() == header + lead.flatten() + rest.flatten(),
    ensures
        is_flv(before + strip_all(reconnected(), chunks)),
{
    law_reconnect_keeps_media_tags(header, lead, rest, chunks);
    let all = |tag: Seq<u8>| true;
    lemma_filter_all(rest, all);
    lemma_append_tags(before, rest, all);
}

/// The complete tags at the start of any bytes, followed by what is left, are
/// those bytes.
pub proof fn law_tags_and_tail_are_the_data(data: Seq<u8>)
    ensures
        all_tags(leading_tags(data)),
        no_tag_yet(after_tags(data)),
        data == leading_tags(data).flatten() + after_tags(data),
    decreases data.len(),
{
    if no_tag_yet(data) {
        assert(leading_tags(data).flatten() + data =~= data);
    } else {
        let n = tag_len(data, 0);
        let tag = data.take(n);
        let more = data.skip(n);
        law_tags_and_tail_are_the_data(more);
        let tags = leading_tags(data);
        assert(tags.drop_first() =~= leading_tags(more));
        assert(tag_len(tag, 0) == n);
        assert(all_tags(tags)) by {
            assert forall|i: int| 0 <= i < tags.len() implies #[trigger] is_tag(tags[i]) by {
                if i > 0 {
                    assert(is_tag(leading_tags(more)[i - 1]));
                }
            }
        }
        assert(data =~= tag + more);
        assert(data =~= tags.flatten() + after_tags(data));
    }
}

/// A complete tag is kept or dropped whole.
proof fn lemma_sieve_tag(
    sieve: Sieve,
    tag: Seq<u8>,
    rest: Seq<u8>,
    keep_audio: bool,
    keep_video: bool,
)
    requires
        sieve.place == Place::Before(0),
        is_tag(tag),
    ensures
        ({
            let keep = kept(kind_of(tag), keep_audio, keep_video);
            let after = Sieve { place: Place::Before(0), keep };
            let out = sieve_out(after, rest, keep_audio, keep_video);
            sieve_out(sieve, tag + rest, keep_audio, keep_video) == (if keep {
                tag + out
            } else {
                out
            })
        }),
{
    let data = tag + rest;
    let keep = kept(kind_of(tag), keep_audio, keep_video);
    let after = Sieve { place: Place::Before(0), keep };
    let out = sieve_out(after, rest, keep_audio, keep_video);
    lemma_sieve_head(sieve, data, keep_audio, keep_video);
    let n = (tag_len(tag, 0) - 4) as nat;
    let payload = Sieve { place: Place::Before(n), keep };
    assert(tag_len(data, 0) == tag_len(tag, 0)) by {
        assert(data[0] == tag[0] && data[1] == tag[1] && data[2] == tag[2] && data[3] == tag[3]);
    }
    lemma_sieve_run(payload, data.skip(4), n, keep_audio, keep_video);
    assert(data.skip(4).skip(n as int) =~= rest);
    assert(data.take(4) + (data.skip(4).take(n as int) + out) =~= tag + out);
}

/// The kind and the size of a tag.
proof fn lemma_sieve_head(sieve: Sieve, data: Seq<u8>, keep_audio: bool, keep_video: bool)
    requires
        sieve.place == Place::Before(0),
        data.len() >= 4,
    ensures
        ({
            let keep = kept(tag_kind(data[0]), keep_audio, keep_video);
            let payload = Sieve { place: Place::Before((tag_len(data, 0) - 4) as nat), keep };
            let out = sieve_out(payload, data.skip(4), keep_audio, keep_video);
            sieve_out(sieve, data, keep_audio, keep_video) == (if keep {
                data.take(4) + out
            } else {
                out
            })
        }),
{
    let keep = kept(tag_kind(data[0]), keep_audio, keep_video);
    let d1 = data.skip(1);
    let d2 = d1.skip(1);
    let d3 = d2.skip(1);
    let d4 = d3.skip(1);
    assert(d1[0] == data[1] && d2[0] == data[2] && d3[0] == data[3]);
    assert(d4 =~= data.skip(4));
    let s1 = Sieve { place: Place::Size { seen: 0, size: 0 }, keep };
    let s2 = Sieve { place: Place::Size { seen: 1, size: data[1] as nat }, keep };
    let s3 = Sieve {
        place: Place::Size { seen: 2, size: (data[1] * 0x100 + data[2]) as nat },
        keep,
    };
    let payload = Sieve { place: Place::Before((tag_len(data, 0) - 4) as nat), keep };
    let out = sieve_out(payload, d4, keep_audio, keep_video);
    let o3 = sieve_out(s3, d3, keep_audio, keep_video);
    let o2 = sieve_out(s2, d2, keep_audio, keep_video);
    let o1 = sieve_out(s1, d1, keep_audio, keep_video);
    assert(sieve_past(s3, data[3], keep_audio, keep_video) == payload);
    assert(sieve_past(s2, data[2], keep_audio, keep_video) == s3);
    assert(sieve_past(s1, data[1], keep_audio, keep_video) == s2);
    assert(sieve_past(sieve, data[0], keep_audio, keep_video) == s1);
    if keep {
        assert(o3 == seq![data[3]] + out);
        assert(o2 == seq![data[2]] + o3);
        assert(o1 == seq![data[1]] + o2);
        assert(seq![data[0]] + o1 =~= data.take(4) + out);
    }
}

/// Bytes that come before the next tag are kept or dropped with the tag that they
/// belong to.
proof fn lemma_sieve_within(sieve: Sieve, data: Seq<u8>, keep_audio: bool, keep_video: bool)
    requires
        sieve.place matches Place::Before(n) && data.len() <= n,
    ensures
        sieve_out(sieve, data, keep_audio, keep_video) == (if sieve.keep {
            data
        } else {
            Seq::empty()
        }),
{
    lemma_sieve_run(sieve, data, data.len(), keep_audio, keep_video);
    assert(data.skip(data.len() as int) =~= Seq::<u8>::empty());
    assert(data.take(data.len() as int) + Seq::<u8>::empty() =~= data);
}

/// What is left of bytes that begin a tag but do not complete it.
pub open spec fn tail_kept(tail: Seq<u8>, keep_audio: bool, keep_video: bool) -> Seq<u8> {
    if tail.len() > 0 && kept(kind_of(tail), keep_audio, keep_video) {
        tail
    } else {
        Seq::empty()
    }
}

proof fn lemma_sieve_tail(sieve: Sieve, tail: Seq<u8>, keep_audio: bool, keep_video: bool)
    requires
        sieve.place == Place::Before(0),
        no_tag_yet(tail),
    ensures
        sieve_out(sieve, tail, keep_audio, keep_video) == tail_kept(tail, keep_audio, keep_video),
{
    let none = Seq::<u8>::empty();
    if tail.len() >= 4 {
        lemma_sieve_head(sieve, tail, keep_audio, keep_video);
        let keep = kept(kind_of(tail), keep_audio, keep_video);
        let payload = Sieve { place: Place::Before((tag_len(tail, 0) - 4) as nat), keep };
        lemma_sieve_within(payload, tail.skip(4), keep_audio, keep_video);
        assert(tail.take(4) + tail.skip(4) =~= tail);
    } else {
        reveal_with_fuel(sieve_out, 5);
        let d1 = tail.skip(1);
        let d2 = d1.skip(1);
        if tail.len() == 1 {
            assert(d1 =~= none);
            assert(seq![tail[0]] + none =~= tail);
        } else if tail.len() == 2 {
            assert(d1[0] == tail[1]);
            assert(d2 =~= none);
            assert(seq![tail[0]] + (seq![tail[1]] + none) =~= tail);
        } else if tail.len() == 3 {
            assert(d1[0] == tail[1] && d2[0] == tail[2]);
            assert(d2.skip(1) =~= none);
            assert(seq![tail[0]] + (seq![tail[1]] + (seq![tail[2]] + none)) =~= tail);
        }
    }
}

/// Of complete tags and the beginning of another one, exactly the tags of the kinds
/// that are kept are left, and the beginning if its kind is kept.
pub proof fn law_only_kept_tags_are_left(
    sieve: Sieve,
    tags: Seq<Seq<u8>>,
    tail: Seq<u8>,
    keep_audio: bool,
    keep_video: bool,
)
    requires
        sieve.place == Place::Before(0),
        all_tags(tags),
        no_tag_yet(tail),
    ensures
        sieve_out(sieve, tags.flatten() + tail, keep_audio, keep_video) == tags.filter(
            keeping(keep_audio, keep_video),
        ).flatten() + tail_kept(tail, keep_audio, keep_video),
    decreases tags.len(),
{
    let pred = keeping(keep_audio, keep_video);
    let data = tags.flatten() + tail;
    let last = tail_kept(tail, keep_audio, keep_video);
    let none = Seq::<Seq<u8>>::empty();
    reveal(Seq::filter);
    if tags.len() == 0 {
        assert(data =~= tail);
        lemma_sieve_tail(sieve, tail, keep_audio, keep_video);
        assert(tags.filter(pred) =~= none);
        assert(tags.filter(pred).flatten() + last =~= last);
    } else {
        let tag = tags[0];
        let more = tags.drop_first();
        assert(is_tag(tag));
        assert forall|i: int| 0 <= i < more.len() implies #[trigger] is_tag(more[i]) by {
            assert(is_tag(tags[i + 1]));
        }
        let after = Sieve {
            place: Place::Before(0),
            keep: kept(kind_of(tag), keep_audio, keep_video),
        };
        law_only_kept_tags_are_left(after, more, tail, keep_audio, keep_video);
        assert(data =~= tag + (more.flatten() + tail));
        lemma_sieve_tag(sieve, tag, more.flatten() + tail, keep_audio, keep_video);
        assert(tags =~= seq![tag] + more);
        Seq::filter_distributes_over_add(seq![tag], more, pred);
        assert(seq![tag].drop_last() =~= none);
        assert(none.filter(pred) =~= none);
        if pred(tag) {
            assert(seq![tag].filter(pred) =~= seq![tag]);
            lemma_flatten_add(seq![tag], more.filter(pred));
            assert(seq![tag].flatten() =~= tag) by {
                assert(seq![tag].drop_first().flatten() =~= Seq::<u8>::empty());
            }
            assert((tag + more.filter(pred).flatten()) + last =~= tag + (more.filter(
                pred,
            ).flatten() + last));
        } else {
            assert(seq![tag].filter(pred) =~= none);
            assert(seq![tag].filter(pred) + more.filter(pred) =~= more.filter(pred));
        }
    }
}

/// Whatever bytes come at the start of a tag, filtering drops nothing but whole tags
/// of the kinds that are not kept, and the beginning of such a tag at the end.
pub proof fn law_filter_drops_only_tags(
    sieve: Sieve,
    data: Seq<u8>,
    keep_audio: bool,
    keep_video: bool,
)
    requires
        sieve.place == Place::Before(0),
    ensures
        sieve_out(sieve, data, keep_audio, keep_video) == leading_tags(data).filter(
            keeping(keep_audio, keep_video),
        ).flatten() + tail_kept(after_tags(data), keep_audio, keep_video),
{
    law_tags_and_tail_are_the_data(data);
    law_only_kept_tags_are_left(
        sieve,
        leading_tags(data),
        after_tags(data),
        keep_audio,
        keep_video,
    );
}

/// Filtering that keeps audio and video changes nothing.
pub proof fn law_keeping_both_changes_nothing(sieve: Sieve, data: Seq<u8>)
    requires
        begins(sieve.place) || sieve.keep,
    ensures
        sieve_out(sieve, data, true, true) == data,
    decreases data.len(),
{
    if data.len() == 0 {
        assert(sieve_out(sieve, data, true, true) =~= data);
    } else {
        law_keeping_both_changes_nothing(sieve_past(sieve, data[0], true, true), data.skip(1));
        assert(seq![data[0]] + data.skip(1) =~= data);
    }
}

/// A stream that opens with a file header: the header is kept, and the tags follow.
proof fn lemma_sieve_file_header(
    header: Seq<u8>,
    rest: Seq<u8>,
    keep_audio: bool,
    keep_video: bool,
)
    requires
        is_file_header(header),
    ensures
        sieve_out(stream_start(), header + rest, keep_audio, keep_video) == header + sieve_out(
            tag_start(),
            rest,
            keep_audio,
            keep_video,
        ),
{
    let data = header + rest;
    let d1 = data.skip(1);
    let d2 = d1.skip(1);
    let d3 = d2.skip(1);
    assert(data[0] == 0x46 && d1[0] == 0x4C && d2[0] == 0x56);
    assert(0x46u8 & 0x1F == 6) by (bit_vector);
    let s1 = Sieve { place: Place::Opening(1), keep: true };
    let s2 = Sieve { place: Place::Opening(2), keep: true };
    let s3 = Sieve { place: Place::Before(10), keep: true };
    let o3 = sieve_out(s3, d3, keep_audio, keep_video);
    assert(sieve_past(stream_start(), data[0], keep_audio, keep_video) == s1);
    assert(sieve_past(s1, d1[0], keep_audio, keep_video) == s2);
    assert(sieve_past(s2, d2[0], keep_audio, keep_video) == s3);
    let o2 = sieve_out(s2, d2, keep_audio, keep_video);
    let o1 = sieve_out(s1, d1, keep_audio, keep_video);
    assert(o2 == seq![d2[0]] + o3);
    assert(o1 == seq![d1[0]] + o2);
    lemma_sieve_run(s3, d3, 10, keep_audio, keep_video);
    assert(d3.skip(10) =~= rest);
    let out = sieve_out(tag_start(), rest, keep_audio, keep_video);
    assert(seq![data[0]] + (seq![d1[0]] + (seq![d2[0]] + (d3.take(10) + out))) =~= header + out);
}

proof fn lemma_filter_all(tags: Seq<Seq<u8>>, pred: spec_fn(Seq<u8>) -> bool)
    requires
        forall|i: int| 0 <= i < tags.len() ==> pred(#[trigger] tags[i]),
    ensures
        tags.filter(pred) == tags,
    decreases tags.len(),
{
    reveal(Seq::filter);
    if tags.len() > 0 {
        assert(pred(tags[tags.len() - 1]));
        assert forall|i: int| 0 <= i < tags.drop_last().len() implies pred(
            #[trigger] tags.drop_last()[i],
        ) by {
            assert(tags.drop_last()[i] == tags[i]);
        }
        lemma_filter_all(tags.drop_last(), pred);
        assert(tags.drop_last().push(tags.last()) =~= tags);
    } else {
        assert(tags.filter(pred) =~= tags);
    }
}

/// Of a stream, a file header and tags that are cut into chunks anywhere, a filter
/// keeps the header and exactly the tags of the kinds that it keeps, so the result
/// is again a file header and complete tags. Of a tag that is not complete yet it
/// keeps what there is, if its kind is kept.
pub proof fn law_filtered_stream_stays_valid(
    header: Seq<u8>,
    tags: Seq<Seq<u8>>,
    tail: Seq<u8>,
    keep_audio: bool,
    keep_video: bool,
    chunks: Seq<Seq<u8>>,
)
    requires
        is_file_header(header),
        all_tags(tags),
        no_tag_yet(tail),
        chunks.flatten() == header + tags.flatten() + tail,
    ensures
        ({
            let left = tags.filter(keeping(keep_audio, keep_video));
            let out = filter_all(new_filter(keep_audio, keep_video), chunks);
            &&& out == header + left.flatten() + tail_kept(tail, keep_audio, keep_video)
            &&& tail.len() == 0 ==> is_flv(out)
            &&& forall|i: int|
                0 <= i < left.len() ==> kept(
                    kind_of(#[trigger] left[i]),
                    keep_audio,
                    keep_video,
                )
        }),
{
    let filter = new_filter(keep_audio, keep_video);
    let pred = keeping(keep_audio, keep_video);
    let left = tags.filter(pred);
    let body = tags.flatten() + tail;
    let last = tail_kept(tail, keep_audio, keep_video);
    law_filtering_ignores_cuts(filter, chunks);
    assert(chunks.flatten() =~= header + body);
    if keep_audio && keep_video {
        lemma_filter_all(tags, pred);
        assert(last =~= tail);
    } else {
        lemma_sieve_file_header(header, body, keep_audio, keep_video);
        law_only_kept_tags_are_left(tag_start(), tags, tail, keep_audio, keep_video);
    }
    let out = filter_all(filter, chunks);
    assert(out =~= header + left.flatten() + last);
    broadcast use Seq::lemma_filter_pred;

    if tail.len() == 0 {
        let none = Seq::<Seq<u8>>::empty();
        assert(all_tags(none));
        assert(header =~= header + none.flatten());
        assert(is_file_header(header) && all_tags(none));
        lemma_append_tags(header, tags, pred);
        assert(out =~= header + left.flatten());
    }
}

proof fn lemma_filter_member(tags: Seq<Seq<u8>>, pred: spec_fn(Seq<u8>) -> bool, i: int)
    requires
        all_tags(tags),
        0 <= i < tags.filter(pred).len(),
    ensures
        is_tag(tags.filter(pred)[i]),
    decreases tags.len(),
{
    reveal(Seq::filter);
    let last = tags.last();
    assert(is_tag(tags[tags.len() - 1]));
    let front = tags.drop_last();
    assert(all_tags(front)) by {
        assert forall|j: int| 0 <= j < front.len() implies #[trigger] is_tag(front[j]) by {
            assert(is_tag(tags[j]));
        }
    }
    if i < front.filter(pred).len() {
        lemma_filter_member(front, pred, i);
    }
}

/// After a reconnection a filter hands on exactly the tags of the kinds that it
/// keeps, from the first audio or video tag of the new connection on, however the
/// bytes are cut into chunks; so what was handed on before stays a valid stream.
pub proof fn law_filter_after_reconnect(
    before: Seq<u8>,
    filter: Filter,
    header: Seq<u8>,
    lead: Seq<Seq<u8>>,
    rest: Seq<Seq<u8>>,
    chunks: Seq<Seq<u8>>,
)
    requires
        is_flv(before),
        is_file_header(header),
        all_tags(lead),
        no_media(lead),
        all_tags(rest),
        rest.len() > 0 ==> is_media(kind_of(rest[0])),
        chunks.flatten() == header + lead.flatten() + rest.flatten(),
    ensures
        ({
            let out = filter_all(filter_reconnected(filter), chunks);
            &&& out == rest.filter(keeping(filter.keep_audio, filter.keep_video)).flatten()
            &&& is_flv(before + out)
        }),
{
    let start = filter_reconnected(filter);
    let pred = keeping(filter.keep_audio, filter.keep_video);
    let none = Seq::<u8>::empty();
    law_filtering_ignores_cuts(start, chunks);
    law_reconnect_keeps_media_tags(header, lead, rest, chunks);
    law_stripping_ignores_cuts(reconnected(), chunks);
    if filter.keep_audio && filter.keep_video {
        lemma_filter_all(rest, pred);
    } else {
        law_only_kept_tags_are_left(
            tag_start(),
            rest,
            none,
            filter.keep_audio,
            filter.keep_video,
        );
        assert(rest.flatten() + none =~= rest.flatten());
        let left = rest.filter(pred).flatten();
        assert(left + none =~= left);
    }
    lemma_append_tags(before, rest, pred);
}

/// A valid stream stays valid with some of these tags after it.
pub proof fn lemma_append_tags(
    before: Seq<u8>,
    tags: Seq<Seq<u8>>,
    pred: spec_fn(Seq<u8>) -> bool,
)
    requires
        is_flv(before),
        all_tags(tags),
    ensures
        is_flv(before + tags.filter(pred).flatten()),
{
    let left = tags.filter(pred);
    let (h, held) = choose|h: Seq<u8>, held: Seq<Seq<u8>>| #[trigger]
        is_file_header(h) && #[trigger] all_tags(held) && before == h + held.flatten();
    let all = held + left;
    lemma_flatten_add(held, left);
    assert forall|i: int| 0 <= i < all.len() implies #[trigger] is_tag(all[i]) by {
        if i < held.len() {
            assert(is_tag(held[i]));
        } else {
            lemma_filter_member(tags, pred, i - held.len());
        }
    }
    assert(before + left.flatten() =~= h + all.flatten());
    assert(is_file_header(h) && all_tags(all));
}

/// The kind of a tag is the number that the low five bits of its first byte make up,
/// whatever the other bits are. Audio is 8 and video is 9; nothing else is media.
pub proof fn law_kind_is_the_low_bits(first: u8)
    ensures
        tag_kind(first) == first % 32,
        is_media(tag_kind(first)) <==> first % 32 == 8 || first % 32 == 9,
{
    assert(first & 0x1F == first % 32) by (bit_vector);
}

/// Audio is kept if audio is wanted, video if video is, and anything else always.
pub proof fn law_kept_kinds_are_those_wanted(kind: u8, keep_audio: bool, keep_video: bool)
    ensures
        kept(8, keep_audio, keep_video) == keep_audio,
        kept(9, keep_audio, keep_video) == keep_video,
        kind != 8 && kind != 9 ==> kept(kind, keep_audio, keep_video),
{
}

/// A tag is its kind, the size of its payload in three bytes from the highest to the
/// lowest, seven bytes more, the payload, and four bytes after it; whatever these bytes
/// are, and whatever the size is.
pub proof fn law_tag_is_header_payload_and_size(
    first: u8,
    high: u8,
    mid: u8,
    low: u8,
    more: Seq<u8>,
    payload: Seq<u8>,
    after: Seq<u8>,
)
    requires
        more.len() == 7,
        payload.len() == high * 65536 + mid * 256 + low,
        after.len() == 4,
    ensures
        is_tag(seq![first, high, mid, low] + more + payload + after),
        kind_of(seq![first, high, mid, low] + more + payload + after) == first % 32,
{
    let tag = seq![first, high, mid, low] + more + payload + after;
    assert(tag[0] == first && tag[1] == high && tag[2] == mid && tag[3] == low);
    law_kind_is_the_low_bits(first);
}

/// Nothing else is a tag.
pub proof fn law_tag_is_nothing_else(tag: Seq<u8>)
    requires
        is_tag(tag),
    ensures
        tag.len() == 15 + tag[1] * 65536 + tag[2] * 256 + tag[3],
{
}

/// A file header is the letters `FLV` and ten bytes more, whatever they are, and
/// nothing else is one.
pub proof fn law_file_header_is_signature_and_more(more: Seq<u8>, header: Seq<u8>)
    requires
        more.len() == 10,
    ensures
        is_file_header(seq![0x46u8, 0x4C, 0x56] + more),
        is_file_header(header) ==> header.len() == 13 && header.take(3) == seq![0x46u8, 0x4C, 0x56],
{
    if is_file_header(header) {
        assert(header.take(3) =~= seq![0x46u8, 0x4C, 0x56]);
    }
}

/// Stripping drops bytes at the start only: what is handed on is the end of what came,
/// unchanged.
pub proof fn law_stripped_bytes_are_the_end(strip: Strip, data: Seq<u8>)
    ensures
        strip_out(strip, data).len() <= data.len(),
        strip_out(strip, data) == data.skip(data.len() - strip_out(strip, data).len()),
        !strip_after(strip, data).passing ==> strip_out(strip, data).len() == 0,
    decreases data.len(),
{
    if strip.passing || data.len() == 0 || stops(strip, data[0]) {
        assert(data.skip(0) =~= data);
    } else {
        let next = Strip { passing: false, place: past(strip.place, data[0]) };
        law_stripped_bytes_are_the_end(next, data.skip(1));
        let n = strip_out(strip, data).len();
        assert(data.skip(1).skip(data.len() - 1 - n) =~= data.skip(data.len() - n));
    }
}

/// Bytes that do not open with the signature of a file header are filtered as tags from
/// the first one on.
pub proof fn law_stream_without_header_is_tags(data: Seq<u8>, keep_audio: bool, keep_video: bool)
    requires
        !(data.len() >= 3 && data.take(3) == seq![0x46u8, 0x4C, 0x56]),
    ensures
        sieve_out(stream_start(), data, keep_audio, keep_video) == sieve_out(
            tag_start(),
            data,
            keep_audio,
            keep_video,
        ),
{
    assert(0x46u8 & 0x1F == 6) by (bit_vector);
    if data.len() > 0 && data[0] == 0x46 {
        let d1 = data.skip(1);
        let a1 = sieve_past(stream_start(), data[0], keep_audio, keep_video);
        let b1 = sieve_past(tag_start(), data[0], keep_audio, keep_video);
        assert(a1 == (Sieve { place: Place::Opening(1), keep: true }));
        assert(b1 == (Sieve { place: Place::Size { seen: 0, size: 0 }, keep: true }));
        if d1.len() > 0 && d1[0] == 0x4C {
            let d2 = d1.skip(1);
            let a2 = sieve_past(a1, d1[0], keep_audio, keep_video);
            let b2 = sieve_past(b1, d1[0], keep_audio, keep_video);
            assert(a2 == (Sieve { place: Place::Opening(2), keep: true }));
            assert(b2 == (Sieve { place: Place::Size { seen: 1, size: 0x4C }, keep: true }));
            if d2.len() > 0 {
                assert(data[1] == d1[0] && data[2] == d2[0]);
                assert(d2[0] != 0x56) by {
                    if d2[0] == 0x56 {
                        assert(data.take(3) =~= seq![0x46u8, 0x4C, 0x56]);
                    }
                }
                assert(sieve_past(a2, d2[0], keep_audio, keep_video) == sieve_past(
                    b2,
                    d2[0],
                    keep_audio,
                    keep_video,
                ));
            }
            assert(sieve_out(a2, d2, keep_audio, keep_video) == sieve_out(
                b2,
                d2,
                keep_audio,
                keep_video,
            ));
        } else if d1.len() > 0 {
            assert(sieve_past(a1, d1[0], keep_audio, keep_video) == sieve_past(
                b1,
                d1[0],
                keep_audio,
                keep_video,
            ));
        }
        assert(sieve_out(a1, d1, keep_audio, keep_video) == sieve_out(
            b1,
            d1,
            keep_audio,
            keep_video,
        ));
    } else if data.len() > 0 {
        assert(sieve_past(stream_start(), data[0], keep_audio, keep_video) == sieve_past(
            tag_start(),
            data[0],
            keep_audio,
            keep_video,
        ));
    }
}

} // verus!
