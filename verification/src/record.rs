//! Output formats of a recording, and where it is written.

use vstd::prelude::*;
use vstd::string::*;

use crate::text::{join3, push_signed, same};

verus! {

/// Output format of a recording.
#[derive(Debug, Clone, Copy, PartialEq, Eq, Structural)]
pub enum Format {
    Wav,
    Mp3,
    Flac,
    Flv,
}

impl Format {
    /// The file name extension of a format.
    pub open spec fn ext(self) -> Seq<char> {
        match self {
            Format::Wav => "wav"@,
            Format::Mp3 => "mp3"@,
            Format::Flac => "flac"@,
            Format::Flv => "flv"@,
        }
    }

    /// The format that a file name extension stands for.
    pub open spec fn of_ext(ext: Seq<char>) -> Option<Format> {
        if ext == "wav"@ {
            Some(Format::Wav)
        } else if ext == "mp3"@ {
            Some(Format::Mp3)
        } else if ext == "flac"@ {
            Some(Format::Flac)
        } else if ext == "flv"@ {
            Some(Format::Flv)
        } else {
            None
        }
    }

    pub fn is_audio_only(self) -> (r: bool)
        ensures
            r == (self != Format::Flv),
    {
        matches!(self, Format::Wav | Format::Mp3 | Format::Flac)
    }

    pub fn extension(self) -> (r: &'static str)
        ensures
            r@ == self.ext(),
    {
        match self {
            Format::Wav => "wav",
            Format::Mp3 => "mp3",
            Format::Flac => "flac",
            Format::Flv => "flv",
        }
    }

    pub fn from_ext(ext: &str) -> (r: Option<Self>)
        ensures
            r == Format::of_ext(ext@),
    {
        if same(ext, "wav") {
            Some(Format::Wav)
        } else if same(ext, "mp3") {
            Some(Format::Mp3)
        } else if same(ext, "flac") {
            Some(Format::Flac)
        } else if same(ext, "flv") {
            Some(Format::Flv)
        } else {
            None
        }
    }

    /// The encoder of an audio format.
    pub fn codec_name(self) -> (r: &'static str)
        requires
            self != Format::Flv,
        ensures
            self == Format::Wav ==> r@ == "pcm_s16le"@,
            self == Format::Mp3 ==> r@ == "libmp3lame"@,
            self == Format::Flac ==> r@ == "flac"@,
    {
        match self {
            Format::Wav => "pcm_s16le",
            Format::Mp3 => "libmp3lame",
            _ => "flac",
        }
    }

    /// The container of a format.
    pub fn muxer_name(self) -> (r: &'static str)
        ensures
            r@ == self.ext(),
    {
        match self {
            Format::Wav => "wav",
            Format::Mp3 => "mp3",
            Format::Flac => "flac",
            Format::Flv => "flv",
        }
    }
}

/// The extensions of two formats differ where the formats do.
pub proof fn law_extensions_tell_formats_apart(format: Format, other: Format)
    ensures
        format.ext() == other.ext() ==> format == other,
{
    lemma_extensions();
}

/// The extension of a format stands for that format.
pub proof fn law_extension_gives_format_back(format: Format)
    ensures
        Format::of_ext(format.ext()) == Some(format),
{
    lemma_extensions();
}

/// Only the extension of a format stands for it.
pub proof fn law_format_gives_extension_back(ext: Seq<char>)
    ensures
        Format::of_ext(ext) matches Some(format) ==> format.ext() == ext,
{
}

/// The extension of a format is one word: it holds no dot and no separator, and is not
/// empty.
pub proof fn law_extension_is_one_word(format: Format)
    ensures
        format.ext().len() > 0,
        !format.ext().contains('.'),
        !format.ext().contains('/'),
{
    lemma_extensions();
}

proof fn lemma_extensions()
    ensures
        "wav"@ == seq!['w', 'a', 'v'],
        "mp3"@ == seq!['m', 'p', '3'],
        "flac"@ == seq!['f', 'l', 'a', 'c'],
        "flv"@ == seq!['f', 'l', 'v'],
        "wav"@ != "mp3"@,
        "wav"@ != "flac"@,
        "wav"@ != "flv"@,
        "mp3"@ != "flac"@,
        "mp3"@ != "flv"@,
        "flac"@ != "flv"@,
{
    reveal_strlit("wav");
    reveal_strlit("mp3");
    reveal_strlit("flac");
    reveal_strlit("flv");
    assert("wav"@ =~= seq!['w', 'a', 'v']);
    assert("mp3"@ =~= seq!['m', 'p', '3']);
    assert("flac"@ =~= seq!['f', 'l', 'a', 'c']);
    assert("flv"@ =~= seq!['f', 'l', 'v']);
    assert("wav"@[0] != "mp3"@[0]);
    assert("wav"@[0] != "flv"@[0]);
    assert("mp3"@[0] != "flv"@[0]);
    assert("wav"@.len() != "flac"@.len());
    assert("mp3"@.len() != "flac"@.len());
    assert("flv"@.len() != "flac"@.len());
}

/// Why a recording cannot be made as asked.
#[derive(Debug, Clone, Copy, PartialEq, Eq, Structural)]
pub enum RecordError {
    /// Neither audio nor video is wanted.
    NothingToRecord,
    /// Audio is not wanted, in a format that holds nothing else.
    AudioOnly(Format),
}

impl RecordError {
    /// What the user is told.
    pub fn message(&self) -> (text: String)
        ensures
            *self == RecordError::NothingToRecord ==> text@
                == "Cannot disable both audio and video — nothing to record"@,
            self matches RecordError::AudioOnly(format) ==> text@ == "Format '"@ + format.ext()
                + "' is audio-only, incompatible with --no-audio"@,
    {
        match self {
            RecordError::NothingToRecord => {
                "Cannot disable both audio and video — nothing to record".to_owned()
            },
            RecordError::AudioOnly(format) => join3(
                "Format '",
                format.extension(),
                "' is audio-only, incompatible with --no-audio",
            ),
        }
    }
}

/// Why nothing would be left to record, if so.
pub open spec fn refusal(format: Format, no_video: bool, no_audio: bool) -> Option<RecordError> {
    if no_audio && no_video {
        Some(RecordError::NothingToRecord)
    } else if no_audio && format != Format::Flv {
        Some(RecordError::AudioOnly(format))
    } else {
        None
    }
}

/// A recording is made if and only if something of what its format holds is wanted:
/// audio in every format, video in FLV. Without either the reason is that nothing is
/// wanted, and else that the format holds audio only.
pub proof fn law_something_must_be_left_to_record(format: Format, no_video: bool, no_audio: bool)
    ensures
        refusal(format, no_video, no_audio) is None <==> !no_audio || !no_video && format
            == Format::Flv,
        refusal(format, no_video, no_audio) == Some(RecordError::NothingToRecord) <==> no_audio
            && no_video,
        refusal(format, no_video, no_audio) matches Some(RecordError::AudioOnly(named)) ==> named
            == format,
{
}

/// Whether something is left to record: refused if neither audio nor video is
/// wanted, and if audio is not wanted in an audio-only format.
pub fn validate(format: Format, no_video: bool, no_audio: bool) -> (r: Result<(), RecordError>)
    ensures
        r == (if no_audio && no_video {
            Err(RecordError::NothingToRecord)
        } else if no_audio && format != Format::Flv {
            Err(RecordError::AudioOnly(format))
        } else {
            Ok::<(), RecordError>(())
        }),
        refusal(format, no_video, no_audio) == (match r {
            Ok(_) => None,
            Err(error) => Some(error),
        }),
{
    if no_audio && no_video {
        return Err(RecordError::NothingToRecord);
    }
    if no_audio && format.is_audio_only() {
        return Err(RecordError::AudioOnly(format));
    }
    Ok(())
}

/// The characters that a timestamp is made of.
pub open spec fn is_timestamp_char(c: char) -> bool {
    '0' <= c <= '9' || c == '_' || c == '+' || c == '-'
}

/// A date, an underscore and a time, as `YYYYmmdd_HHMMSS`. A year that takes more
/// than four digits stands with its sign.
pub open spec fn is_timestamp(ts: Seq<char>) -> bool {
    &&& ts.len() >= 15
    &&& ts[ts.len() - 7] == '_'
    &&& forall|i: int|
        0 <= i < ts.len() && i != ts.len() - 7 && (i > 0 || ts.len() == 15) ==> '0'
            <= #[trigger] ts[i] <= '9'
    &&& forall|i: int| 0 <= i < ts.len() ==> is_timestamp_char(#[trigger] ts[i])
}

/// `chrono::Local::now()` written with the pattern `%Y%m%d_%H%M%S`. The result
/// depends on the clock and on the machine's time zone; of every outcome it is
/// claimed that it is a date, an underscore and a time. The call panics where the
/// clock stands before 1970, where the zone's offset is 24 hours or more, and where
/// the machine's data on its zone cannot be used; none of that can be told before.
#[verifier::external_body]
fn local_timestamp() -> (ts: String)
    ensures
        is_timestamp(ts@),
{
    chrono::Local::now().format("%Y%m%d_%H%M%S").to_string()
}

/// The file name of a recording: room, time and format.
pub open spec fn auto_name(real_room_id: i64, ts: Seq<char>, format: Format) -> Seq<char> {
    crate::text::signed_decimal(real_room_id as int) + "_"@ + ts + "."@ + format.ext()
}

/// The file name that a recording gets where the user names none.
pub fn auto_file_name(real_room_id: i64, ts: &str, format: Format) -> (name: String)
    ensures
        name@ == auto_name(real_room_id, ts@, format),
{
    let mut name = String::new();
    push_signed(&mut name, real_room_id);
    name.append("_");
    name.append(ts);
    name.append(".");
    name.append(format.extension());
    assert(name@ =~= auto_name(real_room_id, ts@, format));
    name
}

/// Where a recording goes: to the path that the user named, else to a file that
/// is named after the room, the local time and the format.
pub fn output_path(real_room_id: i64, format: Format, output: Option<&str>) -> (path: String)
    ensures
        output matches Some(o) ==> path@ == o@,
        output is None ==> exists|ts: Seq<char>|
            is_timestamp(ts) && path@ == #[trigger] auto_name(real_room_id, ts, format),
{
    match output {
        Some(o) => o.to_owned(),
        None => {
            let ts = local_timestamp();
            auto_file_name(real_room_id, ts.as_str(), format)
        },
    }
}

/// The extension of the file name that a recording gets of itself is that of its
/// format.
pub proof fn law_auto_name_has_extension(real_room_id: i64, ts: Seq<char>, format: Format)
    requires
        forall|i: int| 0 <= i < ts.len() ==> is_timestamp_char(#[trigger] ts[i]),
    ensures
        crate::path::extension_of(auto_name(real_room_id, ts, format)) == Some(format.ext()),
{
    lemma_extensions();
    reveal_strlit("_");
    reveal_strlit(".");
    let room = crate::text::signed_decimal(real_room_id as int);
    let stem = room + "_"@ + ts;
    let name = auto_name(real_room_id, ts, format);
    crate::text::lemma_decimal_digits(
        (if real_room_id < 0 {
            -real_room_id
        } else {
            real_room_id as int
        }) as nat,
    );
    assert forall|i: int| 0 <= i < stem.len() implies is_timestamp_char(#[trigger] stem[i]) by {
        if i < room.len() {
            assert(stem[i] == room[i]);
        } else if i == room.len() {
            assert(stem[i] == "_"@[0]);
        } else {
            assert(stem[i] == ts[i - room.len() - 1]);
        }
    }
    let dot = stem.len() as int;
    assert(name =~= stem + "."@ + format.ext());
    assert(name[dot] == "."@[0]);
    assert forall|i: int| 0 <= i < name.len() implies name[i] != '/' by {
        if i < dot {
            assert(name[i] == stem[i]);
        } else if i > dot {
            assert(name[i] == format.ext()[i - dot - 1]);
        }
    }
    assert forall|i: int| dot < i < name.len() implies name[i] != '.' by {
        assert(name[i] == format.ext()[i - dot - 1]);
    }
    crate::text::lemma_last_at_is(name, '/', -1);
    crate::text::lemma_last_at_is(name, '.', dot);
    assert(crate::path::last_piece(name) =~= name);
    assert(name.len() > 2);
    assert(name.skip(dot + 1) =~= format.ext());
}

/// A recording of the same room in the same format gets a new file name with every
/// new timestamp.
pub proof fn law_new_time_gives_new_name(
    real_room_id: i64,
    ts: Seq<char>,
    other: Seq<char>,
    format: Format,
)
    requires
        ts != other,
    ensures
        auto_name(real_room_id, ts, format) != auto_name(real_room_id, other, format),
{
    let head = crate::text::signed_decimal(real_room_id as int) + "_"@;
    let tail = "."@ + format.ext();
    let a = auto_name(real_room_id, ts, format);
    let b = auto_name(real_room_id, other, format);
    assert(a =~= head + ts + tail);
    assert(b =~= head + other + tail);
    if a == b {
        assert(a.len() == b.len());
        assert forall|i: int| 0 <= i < ts.len() implies ts[i] == other[i] by {
            assert(a[head.len() + i] == ts[i]);
            assert(b[head.len() + i] == other[i]);
        }
        assert(ts =~= other);
    }
}

/// The file name that a recording gets of itself tells the room and the time, and ends
/// in the extension of its format: what stands before the first underscore reads back
/// as the room, then comes the time as it is, and then a dot and the extension.
pub proof fn law_auto_name_tells_room_and_time(real_room_id: i64, ts: Seq<char>, format: Format)
    ensures
        ({
            let name = auto_name(real_room_id, ts, format);
            let bar = crate::text::first_at(name, '_');
            &&& bar < name.len()
            &&& crate::text::signed_number_of(name.take(bar)) == real_room_id
            &&& name.skip(bar + 1) == ts + seq!['.'] + format.ext()
        }),
{
    reveal_strlit("_");
    reveal_strlit(".");
    let room = crate::text::signed_decimal(real_room_id as int);
    let name = auto_name(real_room_id, ts, format);
    let bar = room.len() as int;
    crate::text::law_signed_decimal_reads_back(real_room_id as int);
    crate::text::lemma_first_at(name, '_');
    assert(name =~= room + seq!['_'] + (ts + seq!['.'] + format.ext()));
    assert(name[bar] == '_');
    assert forall|j: int| 0 <= j < bar implies name[j] != '_' by {
        assert(name[j] == room[j]);
        if real_room_id < 0 && j > 0 {
            assert(room.skip(1)[j - 1] == room[j]);
        }
    }
    assert(crate::text::first_at(name, '_') == bar);
    assert(name.take(bar) =~= room);
    assert(name.skip(bar + 1) =~= ts + seq!['.'] + format.ext());
}

} // verus!
