//! From a file's tags to a normalised record, and from records to the tree of what is on disk.

use crate::entities::{AlbumModel, ArtistModel, DiskSong, SongModel};
use crate::keys::{distinct, lemma_position, position, Key};
use crate::tree::{
    album_names, album_well_formed, artist_names, artist_well_formed, song_paths, well_formed,
    AlbumEntry, ArtistEntry, DiskAlbum, DiskArtist, DiskTree,
};
use crate::explorer::TagType;
use crate::media::{
    calc_seconds, flac_comments, flac_stream, flac_stream_info, flac_tag, flac_values, id3_tag,
    open_flac, probed_of, open_id3, texts_of, tracks_of, whole_seconds, FlacTagData, Id3Data,
    Id3Fields, TrackData, TrackInfo,
};
use crate::text::{clean, number_or_zero, parse_i32, sanitize, suffix, suffix_of};
use vstd::prelude::*;
use vstd::string::StringExecFns;

verus! {

/// What one audio file yields: the song, and the names of its artist and album.
#[derive(Debug, PartialEq, Eq)]
pub struct SongTags {
    pub artist: String,
    pub album: String,
    pub duration: i32,
    pub track: i32,
    pub year: i32,
    pub title: String,
    pub path: String,
    pub genre: String,
    pub suffix: String,
    pub content_type: String,
    pub disc_number: i32,
}

/// The mathematical value of a [`SongTags`].
pub struct TagsData {
    pub artist: Key,
    pub album: Key,
    pub year: i32,
    pub song: DiskSong,
}

impl View for SongTags {
    type V = TagsData;

    open spec fn view(&self) -> TagsData {
        TagsData {
            artist: self.artist@,
            album: self.album@,
            year: self.year,
            song: DiskSong {
                title: self.title@,
                duration: self.duration,
                track: self.track,
                path: self.path@,
                genre: self.genre@,
                suffix: self.suffix@,
                content_type: self.content_type@,
                disc_number: self.disc_number,
            },
        }
    }
}

/// The values of a run of records.
pub open spec fn records_of(records: Seq<SongTags>) -> Seq<TagsData> {
    Seq::new(records.len(), |n: int| records[n]@)
}

/// The paths of a run of records.
pub open spec fn record_paths(records: Seq<TagsData>) -> Seq<Key> {
    Seq::new(records.len(), |n: int| records[n].song.path)
}

/// The artist with one more record: the song goes to the end of the album of that name,
/// or into a new album at the end, which takes the record's year.
pub open spec fn with_record(artist: DiskArtist, t: TagsData) -> DiskArtist {
    match position(album_names(artist), t.album) {
        Some(j) => DiskArtist {
            name: artist.name,
            albums: artist.albums.update(
                j,
                DiskAlbum {
                    name: artist.albums[j].name,
                    year: artist.albums[j].year,
                    songs: artist.albums[j].songs.push(t.song),
                },
            ),
        },
        None => DiskArtist {
            name: artist.name,
            albums: artist.albums.push(
                DiskAlbum { name: t.album, year: t.year, songs: seq![t.song] },
            ),
        },
    }
}

/// The tree with one more record: it goes to the artist of that name, or to a new artist
/// at the end.
pub open spec fn place(tree: Seq<DiskArtist>, t: TagsData) -> Seq<DiskArtist> {
    match position(artist_names(tree), t.artist) {
        Some(i) => tree.update(i, with_record(tree[i], t)),
        None => tree.push(with_record(DiskArtist { name: t.artist, albums: Seq::empty() }, t)),
    }
}

/// The tree that a run of records folds into, taken one by one from the first.
pub open spec fn shelved(records: Seq<TagsData>) -> Seq<DiskArtist>
    decreases records.len(),
{
    if records.len() == 0 {
        Seq::empty()
    } else {
        place(shelved(records.drop_last()), records.last())
    }
}

/// Whether a song with this path stands anywhere in the tree.
pub open spec fn holds_path(tree: Seq<DiskArtist>, path: Key) -> bool {
    exists|i: int, j: int, k: int|
        0 <= i < tree.len() && 0 <= j < tree[i].albums.len() && 0 <= k
            < tree[i].albums[j].songs.len() && #[trigger] tree[i].albums[j].songs[k].path == path
}

/// Whether the record's song stands in the tree under the record's artist and album.
pub open spec fn holds_record(tree: Seq<DiskArtist>, t: TagsData) -> bool {
    exists|i: int, j: int, k: int|
        0 <= i < tree.len() && 0 <= j < tree[i].albums.len() && 0 <= k
            < tree[i].albums[j].songs.len() && #[trigger] tree[i].albums[j].songs[k] == t.song
            && tree[i].name == t.artist && tree[i].albums[j].name == t.album
}

/// Filing a record into an artist keeps what was there and adds the record's song.
proof fn lemma_with_record(artist: DiskArtist, t: TagsData)
    ensures
        ({
            let after = with_record(artist, t);
            &&& after.name == artist.name
            &&& after.albums.len() >= artist.albums.len()
            &&& forall|j: int|
                0 <= j < artist.albums.len() ==> {
                    &&& (#[trigger] after.albums[j]).name == artist.albums[j].name
                    &&& after.albums[j].year == artist.albums[j].year
                    &&& after.albums[j].songs.len() >= artist.albums[j].songs.len()
                    &&& forall|k: int|
                        0 <= k < artist.albums[j].songs.len() ==> #[trigger] after.albums[j].songs[k]
                            == artist.albums[j].songs[k]
                }
            &&& forall|j: int, k: int|
                0 <= j < after.albums.len() && 0 <= k < after.albums[j].songs.len() ==> {
                    ||| (j < artist.albums.len() && k < artist.albums[j].songs.len())
                    ||| (#[trigger] after.albums[j].songs[k] == t.song && after.albums[j].name
                        == t.album)
                }
            &&& exists|j: int, k: int|
                0 <= j < after.albums.len() && 0 <= k < after.albums[j].songs.len()
                    && #[trigger] after.albums[j].songs[k] == t.song && after.albums[j].name
                    == t.album
            &&& distinct(album_names(artist)) ==> distinct(album_names(after))
        }),
{
    let after = with_record(artist, t);
    lemma_position(album_names(artist), t.album);
    match position(album_names(artist), t.album) {
        Some(j) => {
            let k = artist.albums[j].songs.len() as int;
            assert(after.albums[j].songs[k] == t.song);
            assert(album_names(artist)[j] == t.album);
            assert(album_names(after) =~= album_names(artist));
        },
        None => {
            let j = artist.albums.len() as int;
            assert(after.albums[j].songs[0] == t.song);
            if distinct(album_names(artist)) {
                assert forall|a: int, b: int| 0 <= a < b < after.albums.len() implies album_names(
                    after,
                )[a] != album_names(after)[b] by {
                    if b < j {
                        assert(album_names(artist)[a] != album_names(artist)[b]);
                    } else {
                        assert(album_names(artist)[a] != t.album);
                    }
                }
            }
        },
    }
}

/// Filing a record keeps every song of the tree in its place and adds the record's song
/// under the record's artist and album; it adds no other song.
pub proof fn lemma_place(tree: Seq<DiskArtist>, t: TagsData)
    ensures
        holds_record(place(tree, t), t),
        forall|u: TagsData| holds_record(tree, u) ==> holds_record(place(tree, t), u),
        forall|path: Key|
            holds_path(place(tree, t), path) ==> holds_path(tree, path) || path == t.song.path,
        distinct(artist_names(tree)) ==> distinct(artist_names(place(tree, t))),
{
    let after = place(tree, t);
    lemma_position(artist_names(tree), t.artist);
    let i0: int = match position(artist_names(tree), t.artist) {
        Some(i) => i,
        None => tree.len() as int,
    };
    let start = if i0 < tree.len() {
        tree[i0]
    } else {
        DiskArtist { name: t.artist, albums: Seq::empty() }
    };
    lemma_with_record(start, t);
    assert(after[i0] == with_record(start, t));
    if i0 < tree.len() {
        assert(artist_names(tree)[i0] == t.artist);
        assert(artist_names(after) =~= artist_names(tree));
    } else {
        if distinct(artist_names(tree)) {
            assert forall|a: int, b: int| 0 <= a < b < after.len() implies artist_names(
                after,
            )[a] != artist_names(after)[b] by {
                if b < i0 {
                    assert(artist_names(tree)[a] != artist_names(tree)[b]);
                } else {
                    assert(artist_names(tree)[a] != t.artist);
                }
            }
        }
    }
    let (j0, k0) = choose|j: int, k: int|
        0 <= j < after[i0].albums.len() && 0 <= k < after[i0].albums[j].songs.len()
            && #[trigger] after[i0].albums[j].songs[k] == t.song && after[i0].albums[j].name
            == t.album;
    assert(after[i0].albums[j0].songs[k0] == t.song);
    assert forall|u: TagsData| holds_record(tree, u) implies holds_record(after, u) by {
        let (i, j, k) = choose|i: int, j: int, k: int|
            0 <= i < tree.len() && 0 <= j < tree[i].albums.len() && 0 <= k
                < tree[i].albums[j].songs.len() && #[trigger] tree[i].albums[j].songs[k] == u.song
                && tree[i].name == u.artist && tree[i].albums[j].name == u.album;
        if i == i0 {
            assert(after[i].albums[j].name == tree[i].albums[j].name);
            assert(after[i].albums[j].songs[k] == tree[i].albums[j].songs[k]);
        } else {
            assert(after[i] == tree[i]);
            assert(after[i].albums[j].songs[k] == u.song);
        }
    }
    assert forall|path: Key| holds_path(after, path) implies holds_path(tree, path) || path
        == t.song.path by {
        let (i, j, k) = choose|i: int, j: int, k: int|
            0 <= i < after.len() && 0 <= j < after[i].albums.len() && 0 <= k
                < after[i].albums[j].songs.len() && #[trigger] after[i].albums[j].songs[k].path
                == path;
        if i == i0 {
            if i0 < tree.len() && j < tree[i].albums.len() && k < tree[i].albums[j].songs.len() {
                assert(after[i].albums[j].name == tree[i].albums[j].name);
                assert(after[i].albums[j].songs[k] == tree[i].albums[j].songs[k]);
                assert(tree[i].albums[j].songs[k].path == path);
            } else {
                assert(after[i].albums[j].songs[k] == t.song);
            }
        } else {
            assert(after[i] == tree[i]);
            assert(tree[i].albums[j].songs[k].path == path);
        }
    }
}

/// Filing a record whose path the tree does not hold yet keeps the tree well formed.
pub proof fn lemma_place_well_formed(tree: Seq<DiskArtist>, t: TagsData)
    requires
        well_formed(tree),
        !holds_path(tree, t.song.path),
    ensures
        well_formed(place(tree, t)),
{
    let after = place(tree, t);
    lemma_place(tree, t);
    lemma_position(artist_names(tree), t.artist);
    let i0: int = match position(artist_names(tree), t.artist) {
        Some(i) => i,
        None => tree.len() as int,
    };
    let start = if i0 < tree.len() {
        tree[i0]
    } else {
        DiskArtist { name: t.artist, albums: Seq::empty() }
    };
    assert(artist_well_formed(start));
    lemma_with_record(start, t);
    lemma_position(album_names(start), t.album);
    let grown = with_record(start, t);
    assert(after[i0] == grown);
    assert forall|j: int| 0 <= j < grown.albums.len() implies album_well_formed(
        #[trigger] grown.albums[j],
    ) by {
        match position(album_names(start), t.album) {
            Some(j0) => {
                if j == j0 {
                    let was = start.albums[j];
                    assert(album_well_formed(was));
                    assert forall|a: int, b: int|
                        0 <= a < b < grown.albums[j].songs.len() implies song_paths(
                        grown.albums[j],
                    )[a] != song_paths(grown.albums[j])[b] by {
                        if b < was.songs.len() {
                            assert(song_paths(was)[a] != song_paths(was)[b]);
                        } else {
                            assert(tree[i0].albums[j].songs[a].path == was.songs[a].path);
                        }
                    }
                } else {
                    assert(grown.albums[j] == start.albums[j]);
                }
            },
            None => {
                if j < start.albums.len() {
                    assert(grown.albums[j] == start.albums[j]);
                }
            },
        }
    }
    assert forall|i: int| 0 <= i < after.len() implies artist_well_formed(#[trigger] after[i]) by {
        if i != i0 {
            assert(after[i] == tree[i]);
        }
    }
}

/// The tree of a run of records with distinct paths is well formed, holds every record's
/// song under the record's artist and album, and holds no other song.
pub proof fn lemma_shelved(records: Seq<TagsData>)
    requires
        distinct(record_paths(records)),
    ensures
        well_formed(shelved(records)),
        forall|n: int| 0 <= n < records.len() ==> holds_record(shelved(records), #[trigger] records[n]),
        forall|path: Key|
            holds_path(shelved(records), path) ==> exists|n: int|
                0 <= n < records.len() && #[trigger] records[n].song.path == path,
    decreases records.len(),
{
    if records.len() > 0 {
        let head = records.drop_last();
        let t = records.last();
        let last = records.len() - 1;
        assert forall|a: int, b: int| 0 <= a < b < head.len() implies record_paths(head)[a]
            != record_paths(head)[b] by {
            assert(record_paths(records)[a] != record_paths(records)[b]);
        }
        lemma_shelved(head);
        let tree = shelved(head);
        if holds_path(tree, t.song.path) {
            let n = choose|n: int| 0 <= n < head.len() && #[trigger] head[n].song.path == t.song.path;
            assert(record_paths(records)[n] != record_paths(records)[last]);
        }
        lemma_place_well_formed(tree, t);
        lemma_place(tree, t);
        assert forall|n: int| 0 <= n < records.len() implies holds_record(
            shelved(records),
            #[trigger] records[n],
        ) by {
            if n < last {
                assert(holds_record(tree, head[n]));
            }
        }
        assert forall|path: Key| holds_path(shelved(records), path) implies exists|n: int|
            0 <= n < records.len() && #[trigger] records[n].song.path == path by {
            if holds_path(tree, path) {
                let n = choose|n: int| 0 <= n < head.len() && #[trigger] head[n].song.path == path;
                assert(records[n].song.path == path);
            } else {
                assert(records[last].song.path == path);
            }
        }
    }
}

impl SongTags {
    /// The song of this record.
    pub fn song(&self) -> (r: SongModel)
        ensures
            r@ == self@.song,
    {
        SongModel {
            title: self.title.clone(),
            duration: self.duration,
            track: self.track,
            path: self.path.clone(),
            genre: self.genre.clone(),
            suffix: self.suffix.clone(),
            content_type: self.content_type.clone(),
            disc_number: self.disc_number,
        }
    }
}

impl DiskTree {
    /// Files one record: under its artist and album, each made where the tree has none of
    /// that name.
    pub fn add(&mut self, t: &SongTags)
        ensures
            final(self)@ == place(old(self)@, t@),
    {
        let ghost before = self@;
        let song = t.song();
        let found = self.find_artist(&t.artist);
        proof {
            lemma_position(artist_names(self@), t.artist@);
        }
        let i: usize = match found {
            Some(i) => i,
            None => {
                self.artists.push(
                    ArtistEntry { artist: ArtistModel { name: t.artist.clone() }, albums: Vec::new() },
                );
                self.artists.len() - 1
            },
        };
        let ghost start = self.artists[i as int]@;
        proof {
            if found is None {
                assert(start.albums =~= Seq::<DiskAlbum>::empty());
                assert(start == DiskArtist { name: t@.artist, albums: Seq::empty() });
            } else {
                assert(start == before[i as int]);
            }
            assert(forall|x: int| 0 <= x < before.len() && x != i ==> self@[x] == before[x]);
        }
        let ghost with_artist = self@;
        let found_album = self.artists[i].find_album(&t.album);
        proof {
            lemma_position(album_names(start), t.album@);
        }
        let j: usize = match found_album {
            Some(j) => j,
            None => {
                self.artists[i].albums.push(
                    AlbumEntry {
                        album: AlbumModel { name: t.album.clone(), year: t.year },
                        songs: Vec::new(),
                    },
                );
                self.artists[i].albums.len() - 1
            },
        };
        self.artists[i].albums[j].songs.push(song);
        proof {
            let now = self.artists[i as int]@;
            let goal = with_record(start, t@);
            assert(now.name == goal.name);
            assert(now.albums.len() == goal.albums.len());
            assert forall|y: int| 0 <= y < now.albums.len() implies now.albums[y] == goal.albums[y] by {
                if y == j {
                    assert(now.albums[y].songs =~= goal.albums[y].songs);
                } else {
                    assert(now.albums[y].songs =~= goal.albums[y].songs);
                }
            }
            assert(now.albums =~= goal.albums);
            assert(now == goal);
            assert(self@ =~= place(before, t@));
        }
    }
}

/// Folds the records of a walk into the tree of what is on disk.
pub fn parse(records: &Vec<SongTags>) -> (tree: DiskTree)
    ensures
        tree@ == shelved(records_of(records@)),
        distinct(record_paths(records_of(records@))) ==> well_formed(tree@),
{
    let mut tree = DiskTree::new();
    let mut n: usize = 0;
    while n < records.len()
        invariant
            n <= records.len(),
            tree@ == shelved(records_of(records@).take(n as int)),
        decreases records.len() - n,
    {
        tree.add(&records[n]);
        proof {
            let all = records_of(records@);
            assert(all.take(n + 1).drop_last() =~= all.take(n as int));
            assert(all.take(n + 1).last() == records[n as int]@);
        }
        n += 1;
    }
    proof {
        assert(records_of(records@).take(n as int) =~= records_of(records@));
        if distinct(record_paths(records_of(records@))) {
            lemma_shelved(records_of(records@));
        }
    }
    tree
}

/// The first track whose codec is known: the codec of an unknown kind prints as `0x0`.
pub open spec fn first_supported(tracks: Seq<TrackData>) -> Option<int>
    decreases tracks.len(),
{
    if tracks.len() == 0 {
        None
    } else {
        match first_supported(tracks.drop_last()) {
            Some(n) => Some(n),
            None => if tracks.last().codec != "0x0"@ {
                Some(tracks.len() - 1)
            } else {
                None
            },
        }
    }
}

/// The first track whose codec is known.
pub fn first_supported_track(tracks: &Vec<TrackInfo>) -> (r: Option<usize>)
    ensures
        match r {
            Some(n) => first_supported(tracks_of(tracks@)) == Some(n as int) && n < tracks@.len(),
            None => first_supported(tracks_of(tracks@)) is None,
        },
{
    let unknown = "0x0".to_string();
    let mut n: usize = 0;
    while n < tracks.len()
        invariant
            n <= tracks.len(),
            unknown@ == "0x0"@,
            first_supported(tracks_of(tracks@).take(n as int)) is None,
        decreases tracks.len() - n,
    {
        proof {
            let all = tracks_of(tracks@);
            assert(all.take(n + 1).drop_last() =~= all.take(n as int));
            assert(all.take(n + 1).last() == tracks@[n as int]@);
        }
        if tracks[n].codec != unknown {
            proof {
                lemma_first_supported(tracks_of(tracks@), n + 1);
            }
            return Some(n);
        }
        n += 1;
    }
    proof {
        assert(tracks_of(tracks@).take(n as int) =~= tracks_of(tracks@));
    }
    None
}

/// The first track whose codec is known among the first `n` is the first among all.
proof fn lemma_first_supported(tracks: Seq<TrackData>, n: int)
    requires
        0 <= n <= tracks.len(),
        first_supported(tracks.take(n)) is Some,
    ensures
        first_supported(tracks) == first_supported(tracks.take(n)),
    decreases tracks.len() - n,
{
    if n < tracks.len() {
        assert(tracks.take(n + 1).drop_last() =~= tracks.take(n));
        lemma_first_supported(tracks, n + 1);
    } else {
        assert(tracks.take(n) =~= tracks);
    }
}

/// How long the audio lasts in whole seconds, and its codec as printed: read off the
/// first track whose codec is known, where it says how many frames it has at which time
/// base, and the time base has no zero in it.
pub open spec fn track_metadata(tracks: Seq<TrackData>) -> Option<(u64, Seq<char>)> {
    match first_supported(tracks) {
        None => None,
        Some(n) => match (tracks[n].n_frames, tracks[n].time_base) {
            (Some(frames), Some((numer, denom))) => if numer > 0 && denom > 0 {
                Some((whole_seconds(numer, denom, frames), tracks[n].codec))
            } else {
                None
            },
            _ => None,
        },
    }
}

/// The metadata of probed tracks; nothing where the probe found no container.
pub open spec fn metadata(probed: Option<Seq<TrackData>>) -> Option<(u64, Seq<char>)> {
    match probed {
        Some(tracks) => track_metadata(tracks),
        None => None,
    }
}

/// The value of metadata that may be missing.
pub open spec fn metadata_of(m: Option<(u64, String)>) -> Option<(u64, Seq<char>)> {
    match m {
        Some((seconds, codec)) => Some((seconds, codec@)),
        None => None,
    }
}

/// How long the audio of these tracks lasts in whole seconds, and its codec as printed.
pub fn read_track_metadata(tracks: &Vec<TrackInfo>) -> (r: Option<(u64, String)>)
    ensures
        metadata_of(r) == track_metadata(tracks_of(tracks@)),
{
    let n = match first_supported_track(tracks) {
        Some(n) => n,
        None => {
            return None;
        },
    };
    let track = &tracks[n];
    let frames = match track.n_frames {
        Some(frames) => frames,
        None => {
            return None;
        },
    };
    let (numer, denom) = match track.time_base {
        Some(base) => base,
        None => {
            return None;
        },
    };
    if numer == 0 || denom == 0 {
        return None;
    }
    Some((calc_seconds(numer, denom, frames), track.codec.clone()))
}

/// How long the audio lasts and its codec, from what a probe of the file's container
/// found: the tracks, or nothing where it found no container.
pub fn get_metadata(probed: &Option<Vec<TrackInfo>>) -> (r: Option<(u64, String)>)
    ensures
        metadata_of(r) == metadata(probed_of(*probed)),
{
    match probed {
        Some(tracks) => read_track_metadata(tracks),
        None => None,
    }
}

/// The first value under a key; nothing where the key is missing or has no value.
pub open spec fn first_comment(
    comments: Map<Seq<char>, Seq<Seq<char>>>,
    key: Seq<char>,
) -> Option<Seq<char>> {
    if comments.dom().contains(key) && comments[key].len() > 0 {
        Some(comments[key][0])
    } else {
        None
    }
}

/// The first value of a comment of a FLAC tag.
pub fn parse_vorbis_comment(tag: &metaflac::Tag, tag_name: &str) -> (r: Option<String>)
    ensures
        crate::media::text_of(r) == first_comment(flac_comments(*tag), tag_name@),
{
    match flac_values(tag, tag_name) {
        Some(values) => {
            if values.len() > 0 {
                proof {
                    assert(texts_of(values@)[0] == values@[0]@);
                }
                Some(values[0].clone())
            } else {
                None
            }
        },
        None => None,
    }
}

/// The number that the first value of a comment of a FLAC tag writes; 0 where there is
/// no such comment or it writes no number.
pub fn parse_vorbis_comment_integer(tag: &metaflac::Tag, tag_name: &str) -> (r: i32)
    ensures
        r == number_or_zero(first_comment(flac_comments(*tag), tag_name@)),
{
    match parse_vorbis_comment(tag, tag_name) {
        Some(text) => match parse_i32(text.as_str()) {
            Some(v) => v,
            None => 0,
        },
        None => 0,
    }
}

/// The comments of a FLAC tag that the catalog reads.
#[derive(Debug, PartialEq, Eq)]
pub struct FlacFields {
    pub album_artist: Option<String>,
    pub artist: Option<String>,
    pub album: Option<String>,
    pub title: Option<String>,
    pub genre: Option<String>,
    pub track: i32,
    pub year: i32,
    pub disc_number: i32,
    /// The sample rate and the number of samples of the stream, where the tag gives them.
    pub stream: Option<(u32, u64)>,
}

/// The mathematical value of a [`FlacFields`].
pub struct FlacData {
    pub album_artist: Option<Seq<char>>,
    pub artist: Option<Seq<char>>,
    pub album: Option<Seq<char>>,
    pub title: Option<Seq<char>>,
    pub genre: Option<Seq<char>>,
    pub track: i32,
    pub year: i32,
    pub disc_number: i32,
    pub stream: Option<(u32, u64)>,
}

impl View for FlacFields {
    type V = FlacData;

    open spec fn view(&self) -> FlacData {
        FlacData {
            album_artist: crate::media::text_of(self.album_artist),
            artist: crate::media::text_of(self.artist),
            album: crate::media::text_of(self.album),
            title: crate::media::text_of(self.title),
            genre: crate::media::text_of(self.genre),
            track: self.track,
            year: self.year,
            disc_number: self.disc_number,
            stream: self.stream,
        }
    }
}

/// How long a stream lasts in whole seconds by its own information: the number of
/// samples over the sample rate; 0 where the tag gives none, or a rate of 0.
pub open spec fn stream_seconds(stream: Option<(u32, u64)>) -> u64 {
    match stream {
        Some((rate, samples)) => if rate > 0 {
            samples / (rate as u64)
        } else {
            0
        },
        None => 0,
    }
}

/// How long a stream lasts in whole seconds by its own information.
pub fn seconds_of_stream(stream: Option<(u32, u64)>) -> (r: u64)
    ensures
        r == stream_seconds(stream),
{
    match stream {
        Some((rate, samples)) => if rate > 0 {
            samples / (rate as u64)
        } else {
            0
        },
        None => 0,
    }
}

/// What the catalog reads of a FLAC tag.
pub open spec fn flac_fields(tag: FlacTagData) -> FlacData {
    let comments = tag.comments;
    FlacData {
        album_artist: first_comment(comments, "ALBUMARTIST"@),
        artist: first_comment(comments, "ARTIST"@),
        album: first_comment(comments, "ALBUM"@),
        title: first_comment(comments, "TITLE"@),
        genre: first_comment(comments, "GENRE"@),
        track: number_or_zero(first_comment(comments, "TRACK"@)),
        year: number_or_zero(first_comment(comments, "YEAR"@)),
        disc_number: number_or_zero(first_comment(comments, "DISCNUMBER"@)),
        stream: tag.stream,
    }
}

/// The text, or the empty text where there is none.
pub open spec fn or_empty(text: Option<Seq<char>>) -> Seq<char> {
    match text {
        Some(s) => s,
        None => Seq::empty(),
    }
}

/// The first of two texts that is there, or the empty text.
pub open spec fn first_of(a: Option<Seq<char>>, b: Option<Seq<char>>) -> Seq<char> {
    match a {
        Some(s) => s,
        None => or_empty(b),
    }
}

/// The record of a file with a FLAC tag. The artist is the album artist, or else the
/// artist. Where the probe succeeded, the duration is what it found and the suffix is
/// the codec as printed; else the duration is the tag's own, from its stream
/// information, and the suffix is that of the path.
pub open spec fn flac_tags(path: Seq<char>, f: FlacData, probe: Option<(u64, Seq<char>)>) -> TagsData {
    let duration = match probe {
        Some((seconds, _)) => seconds as i32,
        None => stream_seconds(f.stream) as i32,
    };
    let kind = match probe {
        Some((_, codec)) => codec,
        None => suffix(path),
    };
    TagsData {
        artist: clean(first_of(f.album_artist, f.artist)),
        album: clean(or_empty(f.album)),
        year: f.year,
        song: DiskSong {
            title: clean(or_empty(f.title)),
            duration,
            track: f.track,
            path,
            genre: clean(or_empty(f.genre)),
            suffix: kind,
            content_type: "audio/"@ + kind,
            disc_number: f.disc_number,
        },
    }
}

/// The record of a file with an ID3 tag. The artist is the album artist, or else the
/// artist. Where the probe succeeded, the duration is what it found and the content
/// type names the codec as printed; else the duration is the tag's own, or 0, and the
/// content type names the suffix of the path. A missing track, year or disc number
/// counts as 0.
pub open spec fn id3_tags(path: Seq<char>, f: Id3Data, probe: Option<(u64, Seq<char>)>) -> TagsData {
    let seconds: u64 = match probe {
        Some((seconds, _)) => seconds,
        None => match f.duration {
            Some(d) => d as u64,
            None => 0,
        },
    };
    let kind = match probe {
        Some((_, codec)) => codec,
        None => suffix(path),
    };
    TagsData {
        artist: clean(first_of(f.album_artist, f.artist)),
        album: clean(or_empty(f.album)),
        year: match f.year {
            Some(y) => y,
            None => 0,
        },
        song: DiskSong {
            title: clean(or_empty(f.title)),
            duration: seconds as i32,
            track: match f.track {
                Some(n) => n as i32,
                None => 0,
            },
            path,
            genre: clean(or_empty(f.genre)),
            suffix: suffix(path),
            content_type: "audio/"@ + kind,
            disc_number: match f.disc {
                Some(n) => n as i32,
                None => 0,
            },
        },
    }
}

fn clean_or_empty(text: &Option<String>) -> (r: String)
    ensures
        r@ == clean(or_empty(crate::media::text_of(*text))),
{
    proof {
        reveal_strlit("");
        assert(""@ =~= Seq::<char>::empty());
    }
    match text {
        Some(s) => sanitize(s.as_str()),
        None => sanitize(""),
    }
}

fn clean_first_of(a: &Option<String>, b: &Option<String>) -> (r: String)
    ensures
        r@ == clean(first_of(crate::media::text_of(*a), crate::media::text_of(*b))),
{
    match a {
        Some(s) => sanitize(s.as_str()),
        None => clean_or_empty(b),
    }
}

/// The record of a file with a FLAC tag, from the comments read and the metadata probed.
pub fn flac_song(path: &str, fields: &FlacFields, probe: Option<(u64, String)>) -> (r: SongTags)
    ensures
        r@ == flac_tags(path@, fields@, metadata_of(probe)),
{
    let (duration, kind): (i32, String) = match probe {
        Some((seconds, codec)) => (#[verifier::truncate] (seconds as i32), codec),
        None => (#[verifier::truncate] (seconds_of_stream(fields.stream) as i32), suffix_of(path)),
    };
    let content_type = String::from_str("audio/").concat(kind.as_str());
    SongTags {
        artist: clean_first_of(&fields.album_artist, &fields.artist),
        album: clean_or_empty(&fields.album),
        duration,
        track: fields.track,
        year: fields.year,
        title: clean_or_empty(&fields.title),
        path: path.to_owned(),
        genre: clean_or_empty(&fields.genre),
        suffix: kind,
        content_type,
        disc_number: fields.disc_number,
    }
}

/// The record of a file with an ID3 tag, from the fields read and the metadata probed.
pub fn id3_song(path: &str, fields: &Id3Fields, probe: Option<(u64, String)>) -> (r: SongTags)
    ensures
        r@ == id3_tags(path@, fields@, metadata_of(probe)),
{
    let own = suffix_of(path);
    let (seconds, kind): (u64, String) = match probe {
        Some((seconds, codec)) => (seconds, codec),
        None => (
            match fields.duration {
                Some(d) => d as u64,
                None => 0,
            },
            own.clone(),
        ),
    };
    let content_type = String::from_str("audio/").concat(kind.as_str());
    SongTags {
        artist: clean_first_of(&fields.album_artist, &fields.artist),
        album: clean_or_empty(&fields.album),
        duration: #[verifier::truncate] (seconds as i32),
        track: match fields.track {
            Some(n) => #[verifier::truncate] (n as i32),
            None => 0,
        },
        year: match fields.year {
            Some(y) => y,
            None => 0,
        },
        title: clean_or_empty(&fields.title),
        path: path.to_owned(),
        genre: clean_or_empty(&fields.genre),
        suffix: own,
        content_type,
        disc_number: match fields.disc {
            Some(n) => #[verifier::truncate] (n as i32),
            None => 0,
        },
    }
}

/// The value of a record that may be missing.
pub open spec fn record_of(r: Option<SongTags>) -> Option<TagsData> {
    match r {
        Some(t) => Some(t@),
        None => None,
    }
}

/// The record of a file read as one with a FLAC tag, given what a probe of its container
/// found; nothing where no FLAC tag can be read from the bytes.
pub fn tag_flac(path: &str, bytes: &[u8], probed: &Option<Vec<TrackInfo>>) -> (r: Option<SongTags>)
    ensures
        record_of(r) == match flac_tag(bytes@) {
            Some(tag) => Some(flac_tags(path@, flac_fields(tag), metadata(probed_of(*probed)))),
            None => None,
        },
{
    let tag = match open_flac(bytes) {
        Some(tag) => tag,
        None => {
            return None;
        },
    };
    let probe = get_metadata(probed);
    let fields = FlacFields {
        album_artist: parse_vorbis_comment(&tag, "ALBUMARTIST"),
        artist: parse_vorbis_comment(&tag, "ARTIST"),
        album: parse_vorbis_comment(&tag, "ALBUM"),
        title: parse_vorbis_comment(&tag, "TITLE"),
        genre: parse_vorbis_comment(&tag, "GENRE"),
        track: parse_vorbis_comment_integer(&tag, "TRACK"),
        year: parse_vorbis_comment_integer(&tag, "YEAR"),
        disc_number: parse_vorbis_comment_integer(&tag, "DISCNUMBER"),
        stream: flac_stream_info(&tag),
    };
    Some(flac_song(path, &fields, probe))
}

/// The record of a file read as one with an ID3 tag, given what a probe of its container
/// found; nothing where no such tag can be read from it, which is so of a tag in which
/// a chapter holds another.
pub fn tag_id3(path: &str, bytes: &[u8], probed: &Option<Vec<TrackInfo>>) -> (r: Option<SongTags>)
    ensures
        record_of(r) == match id3_tag(bytes@) {
            Some(fields) => Some(id3_tags(path@, fields, metadata(probed_of(*probed)))),
            None => None,
        },
{
    let fields = match open_id3(bytes) {
        Some(fields) => fields,
        None => {
            return None;
        },
    };
    let probe = get_metadata(probed);
    Some(id3_song(path, &fields, probe))
}

/// The record of a file, read as the kind of tag says, given what a probe of its
/// container found.
pub fn tag(path: &str, bytes: &[u8], probed: &Option<Vec<TrackInfo>>, t: TagType) -> (r: Option<
    SongTags,
>)
    ensures
        record_of(r) == match t {
            TagType::Id3 => match id3_tag(bytes@) {
                Some(fields) => Some(id3_tags(path@, fields, metadata(probed_of(*probed)))),
                None => None,
            },
            TagType::Flac => match flac_tag(bytes@) {
                Some(tag) => Some(
                    flac_tags(path@, flac_fields(tag), metadata(probed_of(*probed))),
                ),
                None => None,
            },
        },
{
    match t {
        TagType::Id3 => tag_id3(path, bytes, probed),
        TagType::Flac => tag_flac(path, bytes, probed),
    }
}

} // verus!
