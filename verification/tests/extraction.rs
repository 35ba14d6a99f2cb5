use id3::TagLike;
use soniccave::explorer::{choose_tag, detect, parse_flac, parse_id3, TagType};
use soniccave::media::{Id3Fields, TrackInfo};
use soniccave::flac_frame::is_flac_safe;
use soniccave::id3_frame::is_id3_safe;
use soniccave::media::open_id3;
use soniccave::tag_parser::{
    first_supported_track, flac_song, get_metadata, id3_song, parse_vorbis_comment,
    parse_vorbis_comment_integer, read_track_metadata, seconds_of_stream, tag, tag_flac, tag_id3,
    FlacFields,
};
use soniccave::text::{ends_with, parse_i32, sanitize, suffix_of};

fn id3_bytes() -> Vec<u8> {
    let mut t = id3::Tag::new();
    t.set_title("Song");
    t.set_artist("Solo");
    t.set_album_artist("Band");
    t.set_album("Record");
    t.set_genre("Jazz");
    t.set_track(7);
    t.set_year(1987);
    t.set_duration(215);
    let mut bytes = Vec::new();
    t.write_to(&mut bytes, id3::Version::Id3v23).unwrap();
    bytes
}

fn flac_bytes() -> Vec<u8> {
    let mut t = metaflac::Tag::new();
    t.set_vorbis("TITLE", vec!["Tune", "Other"]);
    t.set_vorbis("ARTIST", vec!["Solo"]);
    t.set_vorbis("ALBUM", vec!["Rec\0ord"]);
    t.set_vorbis("TRACK", vec!["12"]);
    t.set_vorbis("YEAR", vec!["2001"]);
    t.set_vorbis("DISCNUMBER", vec!["x2"]);
    let mut bytes = Vec::new();
    t.write_to(&mut bytes).unwrap();
    bytes
}

fn flac_bytes_with_stream(sample_rate: u32, total_samples: u64) -> Vec<u8> {
    let mut t = metaflac::Tag::new();
    let mut info = metaflac::block::StreamInfo::new();
    info.sample_rate = sample_rate;
    info.total_samples = total_samples;
    info.num_channels = 2;
    info.bits_per_sample = 16;
    info.md5 = vec![0; 16];
    t.set_streaminfo(info);
    t.set_vorbis("TITLE", vec!["Tune"]);
    let mut bytes = Vec::new();
    t.write_to(&mut bytes).unwrap();
    bytes
}

fn block(kind: u8, last: bool, data: &[u8]) -> Vec<u8> {
    let mut b = vec![kind | if last { 0x80 } else { 0 }];
    b.extend_from_slice(&(data.len() as u32).to_be_bytes()[1..]);
    b.extend_from_slice(data);
    b
}

fn framed(blocks: &[Vec<u8>]) -> Vec<u8> {
    let mut b = b"fLaC".to_vec();
    for part in blocks {
        b.extend_from_slice(part);
    }
    b
}

#[test]
fn suffix_is_what_follows_the_last_dot() {
    assert_eq!(suffix_of("/music/a.b/song.flac"), "flac");
    assert_eq!(suffix_of("song"), "song");
    assert_eq!(suffix_of("song."), "");
    assert_eq!(suffix_of(""), "");
    assert_eq!(suffix_of("é.mp3"), "mp3");
    assert_eq!(suffix_of(".hidden"), "hidden");
}

#[test]
fn ends_with_compares_the_tail() {
    assert!(ends_with("a.flac", ".flac"));
    assert!(!ends_with("a.flac2", ".flac"));
    assert!(!ends_with("lac", ".flac"));
    assert!(ends_with("x", ""));
    assert!(!ends_with("a.FLAC", ".flac"));
}

#[test]
fn sanitize_replaces_every_null() {
    assert_eq!(sanitize("a\0b\0"), "a?b?");
    assert_eq!(sanitize("plain"), "plain");
    assert_eq!(sanitize(""), "");
}

#[test]
fn parse_i32_reads_what_std_reads() {
    for text in [
        "0", "7", "-7", "+7", "007", "2147483647", "2147483648", "-2147483648", "-2147483649",
        "", "-", "+", "1a", " 1", "1 ", "--1", "99999999999999999999", "１", "-0",
    ] {
        assert_eq!(parse_i32(text), text.parse::<i32>().ok(), "{:?}", text);
    }
}

#[test]
fn id3_tag_is_read_from_bytes() {
    let bytes = id3_bytes();
    assert!(parse_id3(&bytes));
    assert!(!parse_id3(b"no tag at all in these bytes"));
    let tags = tag_id3("/m/song.mp3", &bytes, &None).unwrap();
    assert_eq!(tags.artist, "Band");
    assert_eq!(tags.album, "Record");
    assert_eq!(tags.title, "Song");
    assert_eq!(tags.genre, "Jazz");
    assert_eq!(tags.track, 7);
    assert_eq!(tags.year, 1987);
    assert_eq!(tags.disc_number, 0);
    assert_eq!(tags.path, "/m/song.mp3");
    assert_eq!(tags.suffix, "mp3");
    assert_eq!(tags.duration, 215);
    assert_eq!(tags.content_type, "audio/mp3");
    assert!(tag_id3("/m/song.mp3", b"nothing", &None).is_none());
}

#[test]
fn flac_tag_is_read_from_bytes() {
    let bytes = flac_bytes();
    assert!(parse_flac(&bytes));
    assert!(!parse_flac(b"no tag at all in these bytes"));
    let tags = tag_flac("/m/tune.flac", &bytes, &None).unwrap();
    assert_eq!(tags.artist, "Solo");
    assert_eq!(tags.album, "Rec?ord");
    assert_eq!(tags.title, "Tune");
    assert_eq!(tags.genre, "");
    assert_eq!(tags.track, 12);
    assert_eq!(tags.year, 2001);
    assert_eq!(tags.disc_number, 0);
    assert_eq!(tags.duration, 0);
    assert_eq!(tags.suffix, "flac");
    assert_eq!(tags.content_type, "audio/flac");
    assert!(tag_flac("/m/tune.flac", b"nothing", &None).is_none());
}

#[test]
fn tag_reads_by_the_kind_given() {
    assert!(tag("a.mp3", &id3_bytes(), &None, TagType::Id3).is_some());
    assert!(tag("a.mp3", &id3_bytes(), &None, TagType::Flac).is_none());
    assert!(tag("a.flac", &flac_bytes(), &None, TagType::Flac).is_some());
    assert!(tag("a.flac", &flac_bytes(), &None, TagType::Id3).is_none());
}

#[test]
fn vorbis_comments_give_their_first_value() {
    let mut t = metaflac::Tag::new();
    t.set_vorbis("TITLE", vec!["one", "two"]);
    t.set_vorbis("TRACK", vec!["-3"]);
    t.set_vorbis("YEAR", vec!["MMXX"]);
    assert_eq!(parse_vorbis_comment(&t, "TITLE"), Some("one".to_string()));
    assert_eq!(parse_vorbis_comment(&t, "ARTIST"), None);
    assert_eq!(parse_vorbis_comment_integer(&t, "TRACK"), -3);
    assert_eq!(parse_vorbis_comment_integer(&t, "YEAR"), 0);
    assert_eq!(parse_vorbis_comment_integer(&t, "DISCNUMBER"), 0);
}

#[test]
fn detection_prefers_the_reader_that_the_extension_names() {
    assert_eq!(choose_tag("a.flac", true, true), Some(TagType::Flac));
    assert_eq!(choose_tag("a.flac", false, true), Some(TagType::Id3));
    assert_eq!(choose_tag("a.mp3", true, true), Some(TagType::Id3));
    assert_eq!(choose_tag("a.mp3", true, false), Some(TagType::Flac));
    assert_eq!(choose_tag("a.mp3", false, false), None);
    assert_eq!(choose_tag("a.flac", false, false), None);
    assert_eq!(detect("a.mp3", &id3_bytes()), Some(TagType::Id3));
    assert_eq!(detect("a.mp3", &flac_bytes()), Some(TagType::Flac));
    assert_eq!(detect("a.flac", &id3_bytes()), Some(TagType::Id3));
    assert_eq!(detect("a.txt", b"plain text"), None);
}

fn track(codec: &str, n_frames: Option<u64>, time_base: Option<(u32, u32)>) -> TrackInfo {
    TrackInfo { codec: codec.to_string(), n_frames, time_base }
}

#[test]
fn first_track_with_a_known_codec_is_chosen() {
    let tracks = vec![
        track("0x0", Some(1), Some((1, 1))),
        track("0x1001", Some(96000), Some((1, 48000))),
        track("0x2000", Some(1), Some((1, 1))),
    ];
    assert_eq!(first_supported_track(&tracks), Some(1));
    assert_eq!(first_supported_track(&vec![track("0x0", None, None)]), None);
    assert_eq!(first_supported_track(&Vec::new()), None);
    assert_eq!(read_track_metadata(&tracks), Some((2, "0x1001".to_string())));
}

#[test]
fn metadata_needs_frames_and_a_time_base_without_zero() {
    assert_eq!(read_track_metadata(&vec![track("0x1", None, Some((1, 10)))]), None);
    assert_eq!(read_track_metadata(&vec![track("0x1", Some(10), None)]), None);
    assert_eq!(read_track_metadata(&vec![track("0x1", Some(10), Some((0, 10)))]), None);
    assert_eq!(read_track_metadata(&vec![track("0x1", Some(10), Some((1, 0)))]), None);
    assert_eq!(
        read_track_metadata(&vec![track("0x1", Some(25), Some((1, 10)))]),
        Some((2, "0x1".to_string()))
    );
    assert_eq!(read_track_metadata(&vec![track("0x0", Some(25), Some((1, 10)))]), None);
}

#[test]
fn metadata_comes_from_what_the_probe_found() {
    let tracks = vec![track("0x0", None, None), track("0x1001", Some(96000), Some((2, 48000)))];
    assert_eq!(get_metadata(&Some(tracks)), Some((4, "0x1001".to_string())));
    assert_eq!(get_metadata(&Some(Vec::new())), None);
    assert_eq!(get_metadata(&None), None);
    let long = vec![track("0x1", Some(u64::MAX), Some((3, 2)))];
    let exact = (u64::MAX as u128 * 3 / 2) as u64;
    assert_eq!(get_metadata(&Some(long)), Some((exact, "0x1".to_string())));
}

#[test]
fn stream_lasts_its_samples_over_its_rate() {
    assert_eq!(seconds_of_stream(Some((44100, 44100 * 125 + 100))), 125);
    assert_eq!(seconds_of_stream(Some((0, 1000))), 0);
    assert_eq!(seconds_of_stream(None), 0);
    let bytes = flac_bytes_with_stream(8000, 8000 * 61 + 7999);
    let tags = tag_flac("/m/tune.flac", &bytes, &None).unwrap();
    assert_eq!(tags.duration, 61);
    assert_eq!(tags.suffix, "flac");
    let probed = Some(vec![track("0x2000", Some(90), Some((1, 30)))]);
    let tags = tag_flac("/m/tune.flac", &bytes, &probed).unwrap();
    assert_eq!(tags.duration, 3);
    assert_eq!(tags.suffix, "0x2000");
    assert_eq!(tags.content_type, "audio/0x2000");
}

#[test]
fn blocks_that_are_not_whole_are_not_read() {
    assert!(is_flac_safe(&flac_bytes()));
    assert!(is_flac_safe(&flac_bytes_with_stream(44100, 1)));
    assert!(is_flac_safe(b"not flac at all"));
    assert!(is_flac_safe(b""));
    assert!(is_flac_safe(b"fLaC"));
    let short_stream = framed(&[block(0, true, &[])]);
    assert!(!is_flac_safe(&short_stream));
    assert!(!parse_flac(&short_stream));
    assert!(tag_flac("a.flac", &short_stream, &None).is_none());
    assert_eq!(detect("a.flac", &short_stream), None);
    assert!(!is_flac_safe(&framed(&[block(0, true, &[0; 33])])));
    assert!(is_flac_safe(&framed(&[block(0, true, &[0; 34])])));
    assert!(!is_flac_safe(&framed(&[block(2, true, &[1, 2, 3])])));
    assert!(is_flac_safe(&framed(&[block(2, true, &[1, 2, 3, 4])])));
    assert!(is_flac_safe(&framed(&[block(1, false, &[0; 5]), block(3, true, &[0; 17])])));
    let mut comments = vec![0, 0, 0, 0, 1, 0, 0, 0, 3, 0, 0, 0];
    comments.extend_from_slice(b"a=b");
    assert!(is_flac_safe(&framed(&[block(4, true, &comments)])));
    assert!(parse_flac(&framed(&[block(4, true, &comments)])));
    let mut no_sign = vec![0, 0, 0, 0, 1, 0, 0, 0, 3, 0, 0, 0];
    no_sign.extend_from_slice(b"abc");
    assert!(!is_flac_safe(&framed(&[block(4, true, &no_sign)])));
    assert!(!parse_flac(&framed(&[block(4, true, &no_sign)])));
    assert!(!is_flac_safe(&framed(&[block(4, true, &[9, 0, 0, 0, 1])])));
    assert!(!is_flac_safe(&framed(&[block(6, true, &[0, 0, 0, 3, 0, 0, 0, 2, 1])])));
    assert!(!is_flac_safe(&framed(&[block(5, true, &[0; 395])])));
    assert!(is_flac_safe(&framed(&[block(5, true, &[0; 396])])));
    let mut cue = vec![0; 396];
    cue[395] = 1;
    assert!(!is_flac_safe(&framed(&[block(5, true, &cue)])));
    cue.extend_from_slice(&[0; 36]);
    assert!(is_flac_safe(&framed(&[block(5, true, &cue)])));
    let later = framed(&[block(1, false, &[0; 2]), block(0, true, &[0; 3])]);
    assert!(!is_flac_safe(&later));
    let unmarked = framed(&[block(1, false, &[0; 2])]);
    assert!(is_flac_safe(&unmarked));
    assert!(!parse_flac(&unmarked));
    let mut behind_id3 = vec![b'I', b'D', b'3', 3, 0, 0, 0, 0, 0, 2, 7, 7];
    behind_id3.extend_from_slice(&short_stream);
    assert!(!is_flac_safe(&behind_id3));
    let mut good_behind_id3 = vec![b'I', b'D', b'3', 3, 0, 0, 0, 0, 0, 2, 7, 7];
    good_behind_id3.extend_from_slice(&flac_bytes());
    assert!(is_flac_safe(&good_behind_id3));
    assert!(parse_flac(&good_behind_id3));
}

fn fields() -> Id3Fields {
    Id3Fields {
        album_artist: None,
        artist: Some("Solo".to_string()),
        album: None,
        title: Some("T\0".to_string()),
        genre: None,
        track: Some(4_000_000_000),
        year: None,
        disc: Some(2),
        duration: Some(61),
    }
}

#[test]
fn id3_record_follows_its_formulas() {
    let plain = id3_song("dir/a.mp3", &fields(), None);
    assert_eq!(plain.artist, "Solo");
    assert_eq!(plain.title, "T?");
    assert_eq!(plain.album, "");
    assert_eq!(plain.year, 0);
    assert_eq!(plain.duration, 61);
    assert_eq!(plain.track, 4_000_000_000u32 as i32);
    assert_eq!(plain.disc_number, 2);
    assert_eq!(plain.suffix, "mp3");
    assert_eq!(plain.content_type, "audio/mp3");
    let probed = id3_song("dir/a.mp3", &fields(), Some((5_000_000_000, "0x1001".to_string())));
    assert_eq!(probed.duration, 5_000_000_000u64 as i32);
    assert_eq!(probed.suffix, "mp3");
    assert_eq!(probed.content_type, "audio/0x1001");
}

#[test]
fn missing_id3_fields_are_empty_or_zero() {
    let bare = Id3Fields {
        album_artist: None,
        artist: None,
        album: None,
        title: None,
        genre: None,
        track: None,
        year: None,
        disc: None,
        duration: None,
    };
    let s = id3_song("x.mp3", &bare, None);
    assert_eq!((s.artist.as_str(), s.album.as_str(), s.title.as_str(), s.genre.as_str()), ("", "", "", ""));
    assert_eq!((s.track, s.year, s.disc_number, s.duration), (0, 0, 0, 0));
}

#[test]
fn flac_record_follows_its_formulas() {
    let f = FlacFields {
        album_artist: Some("Band".to_string()),
        artist: Some("Solo".to_string()),
        album: Some("R".to_string()),
        title: None,
        genre: Some("G\0".to_string()),
        track: 3,
        year: 1999,
        disc_number: 2,
        stream: Some((100, 1234)),
    };
    let plain = flac_song("x/y.flac", &f, None);
    assert_eq!(plain.artist, "Band");
    assert_eq!(plain.title, "");
    assert_eq!(plain.genre, "G?");
    assert_eq!(plain.duration, 12);
    assert_eq!(plain.suffix, "flac");
    assert_eq!(plain.content_type, "audio/flac");
    assert_eq!((plain.track, plain.year, plain.disc_number), (3, 1999, 2));
    let probed = flac_song("x/y.flac", &f, Some((125, "0x2000".to_string())));
    assert_eq!(probed.duration, 125);
    assert_eq!(probed.suffix, "0x2000");
    assert_eq!(probed.content_type, "audio/0x2000");
}

fn chapter_named(name: &str, frames: Vec<id3::frame::Frame>) -> id3::frame::Chapter {
    id3::frame::Chapter {
        element_id: name.to_string(),
        start_time: 0,
        end_time: 1000,
        start_offset: 0xffff_ffff,
        end_offset: 0xffff_ffff,
        frames,
    }
}

fn chapter(frames: Vec<id3::frame::Frame>) -> id3::frame::Chapter {
    chapter_named("part", frames)
}

fn id3_bytes_with(title: &str, chapters: Vec<id3::frame::Chapter>, version: id3::Version) -> Vec<u8> {
    let mut t = id3::Tag::new();
    t.set_title(title);
    for c in chapters {
        t.add_frame(c);
    }
    let mut bytes = Vec::new();
    t.write_to(&mut bytes, version).unwrap();
    bytes
}

fn seven_bits_each(size: usize) -> [u8; 4] {
    [
        ((size >> 21) & 0x7f) as u8,
        ((size >> 14) & 0x7f) as u8,
        ((size >> 7) & 0x7f) as u8,
        (size & 0x7f) as u8,
    ]
}

fn nested_chapters(depth: usize) -> Vec<u8> {
    let mut bytes = b"ID3\x04\x00\x00".to_vec();
    bytes.extend_from_slice(&seven_bits_each(28 * depth));
    for level in 0..depth {
        bytes.extend_from_slice(b"CHAP");
        bytes.extend_from_slice(&seven_bits_each(18 + 28 * (depth - 1 - level)));
        bytes.extend_from_slice(&[0, 0]);
        bytes.extend_from_slice(b"a\0");
        bytes.extend_from_slice(&[0; 16]);
    }
    bytes
}

fn tag_of_frames(version: u8, flags: u8, frames: &[u8]) -> Vec<u8> {
    let mut bytes = vec![b'I', b'D', b'3', version, 0, flags];
    bytes.extend_from_slice(&seven_bits_each(frames.len()));
    bytes.extend_from_slice(frames);
    bytes
}

fn frame_of(name: &[u8; 4], size: [u8; 4], flags: [u8; 2], data: &[u8]) -> Vec<u8> {
    let mut bytes = name.to_vec();
    bytes.extend_from_slice(&size);
    bytes.extend_from_slice(&flags);
    bytes.extend_from_slice(data);
    bytes
}

#[test]
fn a_tag_with_chapters_is_read() {
    for version in [id3::Version::Id3v23, id3::Version::Id3v24] {
        let inner = id3::frame::Frame::text("TIT2", "First part");
        let chapters = vec![chapter_named("one", vec![inner]), chapter_named("two", Vec::new())];
        let bytes = id3_bytes_with("Talk", chapters, version);
        assert_eq!(bytes.windows(4).filter(|w| w == b"CHAP").count(), 2);
        assert!(is_id3_safe(&bytes));
        assert!(parse_id3(&bytes));
        assert_eq!(open_id3(&bytes).unwrap().title, Some("Talk".to_string()));
        let tags = tag_id3("/m/talk.mp3", &bytes, &None).unwrap();
        assert_eq!(tags.title, "Talk");
        assert_eq!(detect("/m/talk.mp3", &bytes), Some(TagType::Id3));
    }
}

#[test]
fn a_chapter_inside_a_chapter_is_not_read() {
    for version in [id3::Version::Id3v23, id3::Version::Id3v24] {
        let inner = id3::frame::Frame::from(chapter(Vec::new()));
        let bytes = id3_bytes_with("Talk", vec![chapter(vec![inner])], version);
        assert!(!is_id3_safe(&bytes));
        assert!(!parse_id3(&bytes));
        assert!(open_id3(&bytes).is_none());
        assert!(tag_id3("/m/talk.mp3", &bytes, &None).is_none());
        assert_eq!(detect("/m/talk.mp3", &bytes), None);
    }
}

#[test]
fn chapters_inside_chapters_are_refused_unread() {
    let bytes = nested_chapters(20_000);
    assert!(!is_id3_safe(&bytes));
    assert!(!parse_id3(&bytes));
    assert!(tag_id3("/m/deep.mp3", &bytes, &None).is_none());
}

#[test]
fn a_name_in_a_text_is_no_frame() {
    for version in [id3::Version::Id3v23, id3::Version::Id3v24] {
        let bytes = id3_bytes_with("CHAPTER ONE OF CTOC", Vec::new(), version);
        assert!(is_id3_safe(&bytes));
        let tags = tag_id3("/m/book.mp3", &bytes, &None).unwrap();
        assert_eq!(tags.title, "CHAPTER ONE OF CTOC");
    }
}

#[test]
fn names_behind_the_frames_do_not_count() {
    let mut bytes = id3_bytes();
    let tag_len = bytes.len();
    bytes.extend_from_slice(&vec![0xffu8; 2 * tag_len + 64]);
    bytes.extend_from_slice(b"CHAP and CTOC in what follows the tag");
    assert!(is_id3_safe(&bytes));
    assert!(parse_id3(&bytes));
    let tags = tag_id3("/m/song.mp3", &bytes, &None).unwrap();
    assert_eq!(tags.title, "Song");
}

#[test]
fn a_tag_with_an_extended_header_is_searched_where_frames_can_begin() {
    let mut frames = frame_of(b"TIT2", [0, 0, 0, 5], [0, 0], b"\0CHAP");
    assert!(is_id3_safe(&tag_of_frames(3, 0, &frames)));
    assert!(is_id3_safe(&tag_of_frames(3, 0x80, &frames)));
    assert!(!is_id3_safe(&tag_of_frames(3, 0x40, &frames)));
    assert!(!is_id3_safe(&tag_of_frames(4, 0x40, &frames)));
    assert!(is_id3_safe(&tag_of_frames(4, 0x80, &frames)));
    assert!(is_id3_safe(&tag_of_frames(2, 0x80, &frames)));
    frames = frame_of(b"TIT2", [0, 0, 0, 5], [0, 0], b"\0Song");
    let mut bytes = tag_of_frames(3, 0x40, &frames);
    let reach = 2 * frames.len() + 32;
    bytes.resize(reach - 4, 0xff);
    bytes.extend_from_slice(b"CTOC");
    assert!(!is_id3_safe(&bytes));
    bytes.truncate(reach - 3);
    bytes.extend_from_slice(b"CTOC");
    assert!(is_id3_safe(&bytes));
}

fn unsynchronised(title: &str, chapters: Vec<id3::frame::Chapter>) -> Vec<u8> {
    let mut t = id3::Tag::new();
    t.set_title(title);
    for c in chapters {
        t.add_frame(c);
    }
    let mut bytes = Vec::new();
    id3::Encoder::new()
        .version(id3::Version::Id3v23)
        .unsynchronisation(true)
        .encode(&t, &mut bytes)
        .unwrap();
    bytes
}

fn chapter_with_ones(frames: Vec<id3::frame::Frame>) -> id3::frame::Chapter {
    id3::frame::Chapter {
        element_id: "ones".to_string(),
        start_time: 255,
        end_time: 0,
        start_offset: 0xff00_00ff,
        end_offset: 0,
        frames,
    }
}

#[test]
fn an_unsynchronised_tag_is_followed_as_it_is_read() {
    let bytes = unsynchronised("Talk", vec![chapter_with_ones(Vec::new()), chapter(Vec::new())]);
    assert_eq!(bytes[5] & 0x80, 0x80);
    assert!(bytes.windows(2).any(|w| w == [0xff, 0]));
    assert!(is_id3_safe(&bytes));
    assert_eq!(tag_id3("/m/talk.mp3", &bytes, &None).unwrap().title, "Talk");

    let inner = id3::frame::Frame::from(chapter(Vec::new()));
    let bytes = unsynchronised("Talk", vec![chapter_with_ones(Vec::new()), chapter(vec![inner])]);
    assert!(!is_id3_safe(&bytes));
    assert!(tag_id3("/m/talk.mp3", &bytes, &None).is_none());

    let first = frame_of(b"TIT2", [0, 0, 0, 3], [0, 0], &[0, 0xff, 0, 0]);
    let mut held = vec![b'a', 0];
    held.extend_from_slice(&[0; 16]);
    let mut flat = first.clone();
    flat.extend_from_slice(&frame_of(b"CHAP", [0, 0, 0, 18], [0, 0], &held));
    assert!(is_id3_safe(&tag_of_frames(3, 0x80, &flat)));
    assert!(parse_id3(&tag_of_frames(3, 0x80, &flat)));
    held.extend_from_slice(&frame_of(b"CHAP", [0, 0, 0, 0], [0, 0], &[]));
    let mut deep = first.clone();
    deep.extend_from_slice(&frame_of(b"CHAP", [0, 0, 0, 28], [0, 0], &held));
    assert!(!is_id3_safe(&tag_of_frames(3, 0x80, &deep)));
    assert!(is_id3_safe(&tag_of_frames(3, 0, &deep)));
    assert!(parse_id3(&tag_of_frames(3, 0, &deep)));
}

#[test]
fn a_frame_that_hides_its_end_stops_the_walk() {
    let mut frames = frame_of(b"TXXX", [0, 0, 0, 1], [0, 8], &[0]);
    frames.extend_from_slice(&frame_of(b"TIT2", [0, 0, 0, 5], [0, 0], b"\0CHAP"));
    assert!(!is_id3_safe(&tag_of_frames(4, 0, &frames)));
    let mut frames = frame_of(b"TXXX", [0, 0, 0, 1], [0, 1], &[0]);
    frames.extend_from_slice(&frame_of(b"TIT2", [0, 0, 0, 5], [0, 0], b"\0CHAP"));
    assert!(!is_id3_safe(&tag_of_frames(4, 0, &frames)));
    let mut frames = frame_of(b"TXXX", [0, 0, 0x80, 1], [0, 0], &[0]);
    frames.extend_from_slice(&frame_of(b"TIT2", [0, 0, 0, 5], [0, 0], b"\0CHAP"));
    assert!(!is_id3_safe(&tag_of_frames(4, 0, &frames)));
    let mut frames = frame_of(b"TXXX", [0, 0, 0, 1], [0, 2], &[0]);
    frames.extend_from_slice(&frame_of(b"TIT2", [0, 0, 0, 5], [0, 0], b"\0CHAP"));
    assert!(is_id3_safe(&tag_of_frames(4, 0, &frames)));
}

#[test]
fn a_chapter_must_stand_in_the_bytes_as_it_is_read() {
    let held = [b'a', 0, 0, 0, 0, 0, 0, 0, 0, 0, 0, 0, 0, 0, 0, 0, 0, 0];
    let plain = frame_of(b"CHAP", [0, 0, 0, 18], [0, 0], &held);
    assert!(is_id3_safe(&tag_of_frames(3, 0, &plain)));
    assert!(is_id3_safe(&tag_of_frames(4, 0, &plain)));
    assert!(parse_id3(&tag_of_frames(4, 0, &plain)));
    let packed = frame_of(b"CHAP", [0, 0, 0, 18], [0, 0x80], &held);
    assert!(!is_id3_safe(&tag_of_frames(3, 0, &packed)));
    let marked = frame_of(b"CTOC", [0, 0, 0, 18], [0, 2], &held);
    assert!(!is_id3_safe(&tag_of_frames(4, 0, &marked)));
}

fn chunk_of(little: bool, name: &[u8; 4], data: &[u8]) -> Vec<u8> {
    let mut bytes = name.to_vec();
    let size: u32 = data.len() as u32;
    bytes.extend_from_slice(&if little { size.to_le_bytes() } else { size.to_be_bytes() });
    bytes.extend_from_slice(data);
    if data.len() % 2 == 1 {
        bytes.push(0);
    }
    bytes
}

fn container_of(little: bool, chunks: &[Vec<u8>]) -> Vec<u8> {
    let held: Vec<u8> = chunks.concat();
    let size: u32 = held.len() as u32 + 4;
    let mut bytes = if little { b"RIFF".to_vec() } else { b"FORM".to_vec() };
    bytes.extend_from_slice(&if little { size.to_le_bytes() } else { size.to_be_bytes() });
    bytes.extend_from_slice(if little { b"WAVE" } else { b"AIFF" });
    bytes.extend_from_slice(&held);
    bytes
}

#[test]
fn a_tag_in_a_chunk_is_found_behind_the_sound() {
    for little in [true, false] {
        let sound = chunk_of(little, b"data", b"CHAP and CTOC among the samples");
        let tagged = chunk_of(little, b"ID3 ", &id3_bytes());
        let bytes = container_of(little, &[sound.clone(), tagged]);
        assert!(is_id3_safe(&bytes));
        assert!(parse_id3(&bytes));
        let tags = tag_id3("/m/song.wav", &bytes, &None).unwrap();
        assert_eq!(tags.title, "Song");
        assert_eq!(tags.artist, "Band");

        let inner = id3::frame::Frame::from(chapter(Vec::new()));
        let deep = id3_bytes_with("Talk", vec![chapter(vec![inner])], id3::Version::Id3v24);
        let bytes = container_of(little, &[sound.clone(), chunk_of(little, b"ID3 ", &deep)]);
        assert!(!is_id3_safe(&bytes));
        assert!(!parse_id3(&bytes));

        let bytes = container_of(little, &[sound.clone(), chunk_of(little, b"ID3 ", &nested_chapters(20_000))]);
        assert!(!is_id3_safe(&bytes));
        assert!(tag_id3("/m/deep.wav", &bytes, &None).is_none());

        let flat = id3_bytes_with("Talk", vec![chapter(Vec::new())], id3::Version::Id3v23);
        let bytes = container_of(little, &[sound, chunk_of(little, b"ID3 ", &flat)]);
        assert!(is_id3_safe(&bytes));
        assert_eq!(tag_id3("/m/talk.wav", &bytes, &None).unwrap().title, "Talk");
    }
}

#[test]
fn a_container_without_a_tag_is_free_to_ask() {
    let mut bytes = b"RIFF\x00\x00\x00\x00WAVE".to_vec();
    bytes.extend_from_slice(&[1; 500]);
    bytes.extend_from_slice(b"CHAP");
    assert!(is_id3_safe(&bytes));
    assert!(!parse_id3(&bytes));
    assert!(is_id3_safe(b"RIFFCHAP"));
    assert!(is_id3_safe(b"FORM\x00\x00\x00\x10AIFFID3 "));
}

#[test]
fn bytes_without_a_tag_are_free_to_ask() {
    assert!(is_id3_safe(b""));
    assert!(is_id3_safe(b"ID3CHAP"));
    assert!(is_id3_safe(b"fLaC and then CHAP and CTOC"));
    assert!(!parse_id3(b"fLaC and then CHAP and CTOC"));
}
