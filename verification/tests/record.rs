use blrec::record::{auto_file_name, output_path, validate, Format, RecordError};

const ALL: [Format; 4] = [Format::Wav, Format::Mp3, Format::Flac, Format::Flv];

#[test]
fn extensions_and_back() {
    for (format, ext) in ALL.into_iter().zip(["wav", "mp3", "flac", "flv"]) {
        assert_eq!(format.extension(), ext);
        assert_eq!(format.muxer_name(), ext);
        assert_eq!(Format::from_ext(ext), Some(format));
        assert_eq!(format.is_audio_only(), ext != "flv");
    }
    assert_eq!(Format::from_ext("WAV"), None);
    assert_eq!(Format::from_ext(""), None);
    assert_eq!(Format::from_ext("mp"), None);
}

#[test]
fn codecs() {
    assert_eq!(Format::Wav.codec_name(), "pcm_s16le");
    assert_eq!(Format::Mp3.codec_name(), "libmp3lame");
    assert_eq!(Format::Flac.codec_name(), "flac");
}

#[test]
fn something_must_be_left_to_record() {
    for format in ALL {
        assert_eq!(validate(format, false, false), Ok(()));
        assert_eq!(validate(format, true, false), Ok(()));
        assert_eq!(validate(format, true, true), Err(RecordError::NothingToRecord));
    }
    assert_eq!(validate(Format::Flv, false, true), Ok(()));
    assert_eq!(
        validate(Format::Mp3, false, true),
        Err(RecordError::AudioOnly(Format::Mp3))
    );
    assert_eq!(
        RecordError::NothingToRecord.message(),
        "Cannot disable both audio and video — nothing to record"
    );
    assert_eq!(
        RecordError::AudioOnly(Format::Wav).message(),
        "Format 'wav' is audio-only, incompatible with --no-audio"
    );
}

#[test]
fn file_names() {
    assert_eq!(
        auto_file_name(12345, "20260811_203000", Format::Flv),
        "12345_20260811_203000.flv"
    );
    assert_eq!(auto_file_name(-3, "x", Format::Mp3), "-3_x.mp3");
    assert_eq!(output_path(1, Format::Wav, Some("a b.wav")), "a b.wav");
}

#[test]
fn a_file_name_of_its_own_holds_the_time() {
    let before = chrono::Local::now().format("%Y%m%d_%H%M%S").to_string();
    let path = output_path(12345, Format::Flac, None);
    let after = chrono::Local::now().format("%Y%m%d_%H%M%S").to_string();
    let ts = path.strip_prefix("12345_").unwrap().strip_suffix(".flac").unwrap();
    assert_eq!(ts.len(), 15);
    assert_eq!(&ts[8..9], "_");
    assert!(ts.chars().all(|c| c == '_' || c.is_ascii_digit()));
    assert!(before.as_str() <= ts && ts <= after.as_str());
    assert_eq!(blrec::path::extension(&path), Some("flac"));
}

#[test]
fn new_times_give_new_names() {
    assert_ne!(
        auto_file_name(1, "20260811_203000", Format::Flv),
        auto_file_name(1, "20260811_203001", Format::Flv)
    );
}
