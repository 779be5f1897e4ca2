use blrec::flv::{FlvFilter, FlvStripper, AUDIO, SCRIPT, VIDEO};

fn header() -> Vec<u8> {
    vec![0x46, 0x4C, 0x56, 1, 5, 0, 0, 0, 9, 0, 0, 0, 0]
}

fn tag(kind: u8, payload: &[u8]) -> Vec<u8> {
    let n = payload.len();
    let mut tag = vec![kind, (n >> 16) as u8, (n >> 8) as u8, n as u8, 0, 0, 0, 0, 0, 0, 0];
    tag.extend_from_slice(payload);
    tag.extend_from_slice(&((n as u32 + 11).to_be_bytes()));
    tag
}

fn join(parts: &[Vec<u8>]) -> Vec<u8> {
    parts.concat()
}

fn stream() -> Vec<u8> {
    join(&[header(), tag(SCRIPT, b"meta"), tag(VIDEO, b"v1"), tag(AUDIO, b"a1")])
}

#[test]
fn first_connection_is_unchanged() {
    let mut stripper = FlvStripper::new();
    assert!(stripper.first_connection);
    assert_eq!(stripper.process(&stream()), &stream()[..]);
    assert_eq!(stripper.process(b"abc"), b"abc");
    assert_eq!(stripper.process(b""), b"");
}

#[test]
fn reconnect_strips_header_and_script_data() {
    let mut stripper = FlvStripper::new();
    stripper.process(&stream());
    stripper.mark_reconnect();
    assert!(!stripper.first_connection);
    let media = join(&[tag(VIDEO, b"v1"), tag(AUDIO, b"a1")]);
    assert_eq!(stripper.process(&stream()), &media[..]);
    // Only the chunk that opens the new connection is stripped.
    assert_eq!(stripper.process(&media), &media[..]);
    assert_eq!(stripper.process(b"xyz"), b"xyz");
    stripper.mark_reconnect();
    assert_eq!(stripper.process(&stream()), &media[..]);
}

#[test]
fn reconnect_with_little_data() {
    let mut stripper = FlvStripper::new();
    let start = 13 + 15 + 4;
    // Headers and script data are dropped, however little of them there is.
    for n in 0..=start {
        stripper.mark_reconnect();
        assert_eq!(stripper.process(&stream()[..n]), b"");
        assert!(!stripper.first_connection);
    }
    // Stripping ends with the first byte of a media tag.
    stripper.mark_reconnect();
    assert_eq!(stripper.process(&stream()[..start + 1]), &stream()[start..start + 1]);
    assert!(stripper.first_connection);
    // Nothing of the next connection is taken for the rest of the last one.
    stripper.mark_reconnect();
    assert_eq!(stripper.process(&stream()[..20]), b"");
    stripper.mark_reconnect();
    assert_eq!(stripper.process(&stream()), &stream()[start..]);
}

fn strip_all(stripper: &mut FlvStripper, chunks: &[&[u8]]) -> Vec<u8> {
    let mut out = Vec::new();
    for chunk in chunks {
        out.extend_from_slice(stripper.process(chunk));
    }
    out
}

fn filter_all(filter: &mut FlvFilter, chunks: &[&[u8]]) -> Vec<u8> {
    let mut out = Vec::new();
    for chunk in chunks {
        out.extend_from_slice(filter.process(chunk));
    }
    out
}

#[test]
fn cuts_do_not_matter_to_a_stripper() {
    let data = join(&[
        header(),
        tag(SCRIPT, b"meta"),
        tag(SCRIPT, &[VIDEO; 20]),
        tag(AUDIO, b"a1"),
        tag(SCRIPT, b"cue"),
        tag(VIDEO, b"v1"),
    ]);
    let media = join(&[tag(AUDIO, b"a1"), tag(SCRIPT, b"cue"), tag(VIDEO, b"v1")]);
    for i in 0..=data.len() {
        for j in i..=data.len() {
            let chunks = [&data[..i], &data[i..j], &data[j..]];
            let mut stripper = FlvStripper::new();
            assert_eq!(strip_all(&mut stripper, &chunks), data);
            stripper.mark_reconnect();
            assert_eq!(strip_all(&mut stripper, &chunks), media);
        }
    }
    let bytes: Vec<&[u8]> = data.chunks(1).collect();
    let mut stripper = FlvStripper::new();
    stripper.mark_reconnect();
    assert_eq!(strip_all(&mut stripper, &bytes), media);
}

#[test]
fn cuts_do_not_matter_to_a_filter() {
    let data = join(&[
        header(),
        tag(SCRIPT, b"meta"),
        tag(VIDEO, &[AUDIO; 20]),
        tag(AUDIO, b"a1"),
        tag(VIDEO, b""),
        tag(AUDIO, &[VIDEO; 16]),
    ]);
    let sound = join(&[tag(AUDIO, b"a1"), tag(AUDIO, &[VIDEO; 16])]);
    let whole = join(&[header(), tag(SCRIPT, b"meta"), sound.clone()]);
    for i in 0..=data.len() {
        for j in i..=data.len() {
            let chunks = [&data[..i], &data[i..j], &data[j..]];
            let mut filter = FlvFilter::new(true, false);
            assert_eq!(filter_all(&mut filter, &chunks), whole);
            filter.mark_reconnect();
            assert_eq!(filter_all(&mut filter, &chunks), sound);
        }
    }
    let bytes: Vec<&[u8]> = data.chunks(1).collect();
    let mut filter = FlvFilter::new(false, true);
    let pictures = [tag(VIDEO, &[AUDIO; 20]), tag(VIDEO, b"")].concat();
    assert_eq!(
        filter_all(&mut filter, &bytes),
        join(&[header(), tag(SCRIPT, b"meta"), pictures])
    );
}

#[test]
fn connection_lost_within_a_tag() {
    let mut filter = FlvFilter::new(true, false);
    let cut = join(&[stream(), tag(VIDEO, b"v2")[..6].to_vec()]);
    let kept = join(&[header(), tag(SCRIPT, b"meta"), tag(AUDIO, b"a1")]);
    assert_eq!(filter.process(&cut), &kept[..]);
    filter.mark_reconnect();
    assert_eq!(filter.process(&stream()), &tag(AUDIO, b"a1")[..]);
}

#[test]
fn kinds_are_the_low_bits() {
    let mut stripper = FlvStripper::new();
    stripper.mark_reconnect();
    let filtered = tag(0x20 | VIDEO, b"v");
    assert_eq!(stripper.process(&join(&[header(), filtered.clone()])), &filtered[..]);
}

#[test]
fn the_concatenated_stream_stays_valid() {
    let mut stripper = FlvStripper::new();
    let mut out = stripper.process(&stream()).to_vec();
    stripper.mark_reconnect();
    out.extend_from_slice(stripper.process(&stream()));
    let expected = join(&[stream(), tag(VIDEO, b"v1"), tag(AUDIO, b"a1")]);
    assert_eq!(out, expected);
}

#[test]
fn filter_that_keeps_both_changes_nothing() {
    let mut filter = FlvFilter::new(true, true);
    assert_eq!(filter.process(&stream()), &stream()[..]);
    assert_eq!(filter.process(b"half a tag"), b"half a tag");
}

#[test]
fn filter_drops_the_other_kind() {
    let mut audio = FlvFilter::new(true, false);
    assert_eq!(
        audio.process(&stream()),
        &join(&[header(), tag(SCRIPT, b"meta"), tag(AUDIO, b"a1")])[..]
    );
    assert_eq!(audio.process(&tag(VIDEO, b"v2")), b"");
    let mut video = FlvFilter::new(false, true);
    assert_eq!(
        video.process(&stream()),
        &join(&[header(), tag(SCRIPT, b"meta"), tag(VIDEO, b"v1")])[..]
    );
    assert_eq!(video.process(&tag(AUDIO, b"a2")), b"");
    let mut none = FlvFilter::new(false, false);
    assert_eq!(none.process(&stream()), &join(&[header(), tag(SCRIPT, b"meta")])[..]);
}

#[test]
fn filter_keeps_trailing_bytes() {
    let whole = tag(AUDIO, b"a2");
    for n in 0..whole.len() {
        // The beginning of a tag is handed on at once if the tag is kept.
        let mut filter = FlvFilter::new(true, false);
        let data = join(&[tag(AUDIO, b"a1"), tag(VIDEO, b"v1"), whole[..n].to_vec()]);
        let expected = join(&[tag(AUDIO, b"a1"), whole[..n].to_vec()]);
        assert_eq!(filter.process(&data), &expected[..]);
        assert_eq!(filter.process(b""), b"");
        assert_eq!(filter.process(&whole[n..]), &whole[n..]);
        // Of a tag that is dropped nothing is handed on.
        let mut filter = FlvFilter::new(false, true);
        assert_eq!(filter.process(&data), &tag(VIDEO, b"v1")[..]);
        assert_eq!(filter.process(&whole[n..]), b"");
        assert_eq!(filter.process(&tag(VIDEO, b"v2")), &tag(VIDEO, b"v2")[..]);
    }
    for n in 0..13 {
        let mut filter = FlvFilter::new(false, false);
        assert_eq!(filter.process(&header()[..n]), &header()[..n]);
        assert_eq!(filter.process(&stream()[n..13]), &header()[n..]);
    }
}

#[test]
fn filter_after_reconnect() {
    let mut filter = FlvFilter::new(false, true);
    filter.process(&stream());
    filter.mark_reconnect();
    assert_eq!(filter.process(&stream()), &tag(VIDEO, b"v1")[..]);
    assert_eq!(filter.process(&tag(VIDEO, b"v2")), &tag(VIDEO, b"v2")[..]);
}

#[test]
fn large_payload_sizes_are_big_endian() {
    let payload = vec![7u8; 0x1_02_03];
    let big = tag(VIDEO, &payload);
    assert_eq!(&big[1..4], &[1, 2, 3]);
    let mut filter = FlvFilter::new(true, false);
    let data = join(&[big, tag(AUDIO, b"a")]);
    assert_eq!(filter.process(&data), &tag(AUDIO, b"a")[..]);
}

#[test]
fn only_the_opening_has_a_file_header() {
    // Bytes like those of a file header are nothing special later on: they begin a
    // large tag.
    let mut filter = FlvFilter::new(true, false);
    filter.process(&stream());
    let mut big = vec![0x46, 0x4C, 0x56, 0x01, 0, 0, 0, 0, 0, 0, 0];
    big.extend_from_slice(&vec![0u8; 0x4C_56_01]);
    big.extend_from_slice(&[0; 4]);
    let data = join(&[big.clone(), tag(VIDEO, b"v"), tag(AUDIO, b"a")]);
    assert_eq!(filter.process(&data), &join(&[big.clone(), tag(AUDIO, b"a")])[..]);
    // Nor is the start of a stream that does not open with a file header.
    for near in [[0x46, 0x4C, 2], [0x46, 0, 2], [0x12, 0x4C, 2]] {
        let size = near[1] as usize * 0x10000 + near[2] as usize * 0x100 + 1;
        let mut odd = vec![near[0], near[1], near[2], 1];
        odd.extend_from_slice(&vec![0u8; size + 11]);
        let data = join(&[odd.clone(), tag(VIDEO, b"v"), tag(AUDIO, b"a")]);
        let mut filter = FlvFilter::new(true, false);
        assert_eq!(filter.process(&data), &join(&[odd, tag(AUDIO, b"a")])[..]);
    }
    // An empty chunk opens nothing.
    let mut filter = FlvFilter::new(true, false);
    assert!(!filter.has_started());
    filter.process(b"");
    assert!(!filter.has_started());
    assert_eq!(filter.process(&join(&[header(), tag(VIDEO, b"v")])), &header()[..]);
    assert!(filter.has_started());
}
