//! What the audio libraries read out of a file's bytes. The functions that call a
//! library are not proved: each hands its arguments to the library and turns what comes
//! back into plain values.

use id3::TagLike;
use vstd::prelude::*;

verus! {

/// The fields of an ID3 tag that the catalog reads.
#[derive(Debug, PartialEq, Eq)]
pub struct Id3Fields {
    pub album_artist: Option<String>,
    pub artist: Option<String>,
    pub album: Option<String>,
    pub title: Option<String>,
    pub genre: Option<String>,
    pub track: Option<u32>,
    pub year: Option<i32>,
    pub disc: Option<u32>,
    pub duration: Option<u32>,
}

/// The mathematical value of an [`Id3Fields`].
pub struct Id3Data {
    pub album_artist: Option<Seq<char>>,
    pub artist: Option<Seq<char>>,
    pub album: Option<Seq<char>>,
    pub title: Option<Seq<char>>,
    pub genre: Option<Seq<char>>,
    pub track: Option<u32>,
    pub year: Option<i32>,
    pub disc: Option<u32>,
    pub duration: Option<u32>,
}

/// The characters of a text that may be missing.
pub open spec fn text_of(text: Option<String>) -> Option<Seq<char>> {
    match text {
        Some(s) => Some(s@),
        None => None,
    }
}

impl View for Id3Fields {
    type V = Id3Data;

    open spec fn view(&self) -> Id3Data {
        Id3Data {
            album_artist: text_of(self.album_artist),
            artist: text_of(self.artist),
            album: text_of(self.album),
            title: text_of(self.title),
            genre: text_of(self.genre),
            track: self.track,
            year: self.year,
            disc: self.disc,
            duration: self.duration,
        }
    }
}

/// The value of fields that may be missing.
pub open spec fn fields_of(fields: Option<Id3Fields>) -> Option<Id3Data> {
    match fields {
        Some(f) => Some(f@),
        None => None,
    }
}

/// What one track of an audio container says of itself: the codec as the probing
/// library prints it, which is `0x0` for a codec that it does not know, the number of
/// frames, and the time base as numerator and denominator.
#[derive(Debug, PartialEq, Eq)]
pub struct TrackInfo {
    pub codec: String,
    pub n_frames: Option<u64>,
    pub time_base: Option<(u32, u32)>,
}

/// The mathematical value of a [`TrackInfo`].
pub struct TrackData {
    pub codec: Seq<char>,
    pub n_frames: Option<u64>,
    pub time_base: Option<(u32, u32)>,
}

impl View for TrackInfo {
    type V = TrackData;

    open spec fn view(&self) -> TrackData {
        TrackData { codec: self.codec@, n_frames: self.n_frames, time_base: self.time_base }
    }
}

/// The values of a run of tracks.
pub open spec fn tracks_of(tracks: Seq<TrackInfo>) -> Seq<TrackData> {
    Seq::new(tracks.len(), |n: int| tracks[n]@)
}

/// The values of tracks that may be missing.
pub open spec fn probed_of(tracks: Option<Vec<TrackInfo>>) -> Option<Seq<TrackData>> {
    match tracks {
        Some(v) => Some(tracks_of(v@)),
        None => None,
    }
}

/// The values of a run of texts.
pub open spec fn texts_of(texts: Seq<String>) -> Seq<Seq<char>> {
    Seq::new(texts.len(), |n: int| texts[n]@)
}

/// A FLAC tag as the crate `metaflac` holds it.
#[verifier::external_type_specification]
#[verifier::external_body]
pub struct ExFlacTag(metaflac::Tag);

/// The fields of the ID3 tag in these bytes, as the crate `id3` reads them; nothing
/// where it reads no tag.
pub uninterp spec fn id3_read(bytes: Seq<u8>) -> Option<Id3Data>;

/// What the catalog reads of a FLAC tag: its comments, as the values under each key that
/// can be asked for, and of its stream information the sample rate and the number of
/// samples, where it has any.
pub struct FlacTagData {
    pub comments: Map<Seq<char>, Seq<Seq<char>>>,
    pub stream: Option<(u32, u64)>,
}

/// The FLAC tag in these bytes, as the crate `metaflac` reads it; nothing where it reads
/// no tag.
pub uninterp spec fn flac_read(bytes: Seq<u8>) -> Option<FlacTagData>;

/// The comments that a FLAC tag holds: the values under each key that can be asked for,
/// which are those that the first block of comments holds under that key in upper case.
pub uninterp spec fn flac_comments(tag: metaflac::Tag) -> Map<Seq<char>, Seq<Seq<char>>>;

/// The sample rate and the number of samples that the first block of stream information
/// of a FLAC tag gives; nothing where the tag has no such block.
pub uninterp spec fn flac_stream(tag: metaflac::Tag) -> Option<(u32, u64)>;

/// The whole seconds that this many frames last at this time base: the frames times the
/// numerator, divided by the denominator, rounded down and cut to 64 bits.
pub open spec fn whole_seconds(numer: u32, denom: u32, frames: u64) -> u64 {
    (((frames as int * numer as int) / denom as int) % 0x1_0000_0000_0000_0000) as u64
}

/// Calls `id3::Tag::read_from2` on the bytes, which finds the tag at their start or in a
/// chunk of an AIFF or WAV container, and reads the fields off the tag with the getters
/// `album_artist`, `artist`, `album`, `title`, `genre`, `track`, `year`, `disc` and
/// `duration` of `id3::TagLike`. That crate reads the frames inside a chapter or a table
/// of contents by calling itself, once more for each frame of that kind inside another,
/// so the bytes must be such that no frame of either kind that is read from them holds
/// another. The contract only names the result: the same bytes give the same fields.
#[verifier::external_body]
pub(crate) fn read_id3(bytes: &[u8]) -> (r: Option<Id3Fields>)
    requires
        crate::id3_frame::id3_safe(bytes@),
    ensures
        fields_of(r) == id3_read(bytes@),
{
    let tag = id3::Tag::read_from2(std::io::Cursor::new(bytes)).ok()?;
    Some(
        Id3Fields {
            album_artist: tag.album_artist().map(String::from),
            artist: tag.artist().map(String::from),
            album: tag.album().map(String::from),
            title: tag.title().map(String::from),
            genre: tag.genre().map(String::from),
            track: tag.track(),
            year: tag.year(),
            disc: tag.disc(),
            duration: tag.duration(),
        },
    )
}

/// The fields of the ID3 tag that can be read from these bytes: those that the library
/// reads, where the bytes are framed so that it may be asked.
pub open spec fn id3_tag(bytes: Seq<u8>) -> Option<Id3Data> {
    if crate::id3_frame::id3_safe(bytes) {
        id3_read(bytes)
    } else {
        None
    }
}

/// Reads the fields of the ID3 tag from the bytes, where one may be read from them.
pub fn open_id3(bytes: &[u8]) -> (r: Option<Id3Fields>)
    ensures
        fields_of(r) == id3_tag(bytes@),
{
    if crate::id3_frame::is_id3_safe(bytes) {
        read_id3(bytes)
    } else {
        None
    }
}

/// The FLAC tag that can be read from these bytes: the one that the library reads, where
/// the bytes are framed so that it may be asked.
pub open spec fn flac_tag(bytes: Seq<u8>) -> Option<FlacTagData> {
    if crate::flac_frame::flac_safe(bytes) {
        flac_read(bytes)
    } else {
        None
    }
}

/// Calls `metaflac::Tag::read_from` on the bytes. The library slices each block at the
/// places that the block's own lengths give, indexes behind the equals sign of each
/// comment, and adds the lengths of the blocks up in 32 bits, so the bytes must be
/// framed so that every block is whole and the lengths fit. The contract only names the
/// result: the same bytes give a tag with the same comments and stream information, or
/// no tag.
#[verifier::external_body]
pub(crate) fn read_flac(bytes: &[u8]) -> (r: Option<metaflac::Tag>)
    requires
        crate::flac_frame::flac_safe(bytes@),
    ensures
        match r {
            Some(tag) => flac_read(bytes@) == Some(
                FlacTagData { comments: flac_comments(tag), stream: flac_stream(tag) },
            ),
            None => flac_read(bytes@) is None,
        },
{
    metaflac::Tag::read_from(&mut std::io::Cursor::new(bytes)).ok()
}

/// Reads the FLAC tag from the bytes, where they are framed so that one may be read.
pub fn open_flac(bytes: &[u8]) -> (r: Option<metaflac::Tag>)
    ensures
        match r {
            Some(tag) => flac_tag(bytes@) == Some(
                FlacTagData { comments: flac_comments(tag), stream: flac_stream(tag) },
            ),
            None => flac_tag(bytes@) is None,
        },
{
    if crate::flac_frame::is_flac_safe(bytes) {
        read_flac(bytes)
    } else {
        None
    }
}

/// Calls `metaflac::Tag::get_vorbis`: the values under a key, in the order in which
/// the tag holds them, or nothing where the tag has no such key.
#[verifier::external_body]
pub(crate) fn flac_values(tag: &metaflac::Tag, key: &str) -> (r: Option<Vec<String>>)
    ensures
        match r {
            Some(values) => flac_comments(*tag).dom().contains(key@) && texts_of(values@)
                == flac_comments(*tag)[key@],
            None => !flac_comments(*tag).dom().contains(key@),
        },
{
    tag.get_vorbis(key).map(|values| values.map(String::from).collect())
}

/// Calls `metaflac::Tag::get_streaminfo` and picks the sample rate and the number of
/// samples; nothing where the tag has no stream information.
#[verifier::external_body]
pub(crate) fn flac_stream_info(tag: &metaflac::Tag) -> (r: Option<(u32, u64)>)
    ensures
        r == flac_stream(*tag),
{
    tag.get_streaminfo().map(|info| (info.sample_rate, info.total_samples))
}

/// Calls `TimeBase::calc_time` of `symphonia` and takes the whole seconds. The library
/// does not accept a time base with a zero in it. It multiplies the frames by the
/// numerator and divides by the denominator, rounds down, and keeps 64 bits.
#[verifier::external_body]
pub(crate) fn calc_seconds(numer: u32, denom: u32, frames: u64) -> (r: u64)
    requires
        numer > 0,
        denom > 0,
    ensures
        r == whole_seconds(numer, denom, frames),
{
    symphonia::core::units::TimeBase::new(numer, denom).calc_time(frames).seconds
}

} // verus!
