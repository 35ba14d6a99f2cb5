//! The stored catalog and the operations on it: paged and keyed reads, inserts that hand
//! out identifiers, and deletes that take everything below a row with it.

use crate::entities::{Album, AlbumModel, Artist, ArtistModel, DiskSong, Song, SongModel};
use crate::keys::Key;
use vstd::prelude::*;

verus! {

/// A stored song under its album.
pub struct SongNode {
    pub id: u128,
    pub song: SongModel,
}

/// A stored album with its songs.
pub struct AlbumNode {
    pub id: u128,
    pub name: String,
    pub year: i32,
    pub songs: Vec<SongNode>,
}

/// A stored artist with its albums.
pub struct ArtistNode {
    pub id: u128,
    pub name: String,
    pub albums: Vec<AlbumNode>,
}

/// A song's place in a playlist: a row that refers to a song by its identifier.
#[derive(Clone, Copy, Debug, PartialEq, Eq)]
pub struct PlaylistItem {
    pub id: u128,
    pub playlist_id: u128,
    pub song_id: u128,
}

/// Why an operation on the catalog did not take place.
#[derive(Clone, Copy, Debug, PartialEq, Eq)]
pub enum QueryError {
    /// The row that the new rows were to stand under is not stored.
    MissingParent,
    /// No identifier is left to hand out.
    IdentifiersExhausted,
}

/// The catalog: artists in the order of their identifiers, each with its albums and their
/// songs, and the playlist items that refer to songs.
pub struct Catalog {
    artists: Vec<ArtistNode>,
    playlist_items: Vec<PlaylistItem>,
    next_id: u128,
}

/// The mathematical value of a [`SongNode`].
pub struct SongRec {
    pub id: u128,
    pub song: DiskSong,
}

/// The mathematical value of an [`AlbumNode`].
pub struct AlbumRec {
    pub id: u128,
    pub name: Key,
    pub year: i32,
    pub songs: Seq<SongRec>,
}

/// The mathematical value of an [`ArtistNode`].
pub struct ArtistRec {
    pub id: u128,
    pub name: Key,
    pub albums: Seq<AlbumRec>,
}

/// The mathematical value of a [`Catalog`].
pub struct Stored {
    pub artists: Seq<ArtistRec>,
    pub links: Seq<PlaylistItem>,
    pub next_id: u128,
}

impl View for SongNode {
    type V = SongRec;

    open spec fn view(&self) -> SongRec {
        SongRec { id: self.id, song: self.song@ }
    }
}

impl View for AlbumNode {
    type V = AlbumRec;

    open spec fn view(&self) -> AlbumRec {
        AlbumRec {
            id: self.id,
            name: self.name@,
            year: self.year,
            songs: Seq::new(self.songs@.len(), |k: int| self.songs@[k]@),
        }
    }
}

impl View for ArtistNode {
    type V = ArtistRec;

    open spec fn view(&self) -> ArtistRec {
        ArtistRec {
            id: self.id,
            name: self.name@,
            albums: Seq::new(self.albums@.len(), |j: int| self.albums@[j]@),
        }
    }
}

impl View for Catalog {
    type V = Stored;

    closed spec fn view(&self) -> Stored {
        Stored {
            artists: Seq::new(self.artists@.len(), |i: int| self.artists@[i]@),
            links: self.playlist_items@,
            next_id: self.next_id,
        }
    }
}

/// Whether `(i, j)` is the place of an album among these artists.
pub open spec fn album_place(artists: Seq<ArtistRec>, i: int, j: int) -> bool {
    0 <= i < artists.len() && 0 <= j < artists[i].albums.len()
}

/// Whether `(i, j, k)` is the place of a song among these artists.
pub open spec fn song_place(artists: Seq<ArtistRec>, i: int, j: int, k: int) -> bool {
    album_place(artists, i, j) && 0 <= k < artists[i].albums[j].songs.len()
}

/// Whether an artist with this identifier is stored.
pub open spec fn holds_artist(artists: Seq<ArtistRec>, id: u128) -> bool {
    exists|i: int| 0 <= i < artists.len() && (#[trigger] artists[i]).id == id
}

/// Whether an album with this identifier is stored.
pub open spec fn holds_album(artists: Seq<ArtistRec>, id: u128) -> bool {
    exists|i: int, j: int| album_place(artists, i, j) && (#[trigger] artists[i].albums[j]).id == id
}

/// Whether a song with this identifier is stored.
pub open spec fn holds_song(artists: Seq<ArtistRec>, id: u128) -> bool {
    exists|i: int, j: int, k: int|
        song_place(artists, i, j, k) && (#[trigger] artists[i].albums[j].songs[k]).id == id
}

/// The catalog's own rules: artists stand in the order of their identifiers; no two
/// albums and no two songs share an identifier; every identifier handed out lies below
/// the next one; every playlist item refers to a stored song.
pub open spec fn well_kept(c: Stored) -> bool {
    &&& forall|a: int, b: int| 0 <= a < b < c.artists.len() ==> c.artists[a].id < c.artists[b].id
    &&& forall|i: int, j: int, x: int, y: int|
        album_place(c.artists, i, j) && album_place(c.artists, x, y) && (#[trigger] c.artists[i].albums[j]).id
            == (#[trigger] c.artists[x].albums[y]).id ==> i == x && j == y
    &&& forall|i: int, j: int, k: int, x: int, y: int, z: int|
        song_place(c.artists, i, j, k) && song_place(c.artists, x, y, z)
            && (#[trigger] c.artists[i].albums[j].songs[k]).id
            == (#[trigger] c.artists[x].albums[y].songs[z]).id ==> i == x && j == y && k == z
    &&& forall|i: int| 0 <= i < c.artists.len() ==> (#[trigger] c.artists[i]).id < c.next_id
    &&& forall|i: int, j: int|
        album_place(c.artists, i, j) ==> (#[trigger] c.artists[i].albums[j]).id < c.next_id
    &&& forall|i: int, j: int, k: int|
        song_place(c.artists, i, j, k) ==> (#[trigger] c.artists[i].albums[j].songs[k]).id
            < c.next_id
    &&& forall|n: int| 0 <= n < c.links.len() ==> holds_song(c.artists, (#[trigger] c.links[n]).song_id)
}

/// A count as a row shows it: the number itself, or the largest `i32` where it is larger.
pub open spec fn shown_count(n: nat) -> i32 {
    if n > i32::MAX {
        i32::MAX
    } else {
        n as i32
    }
}

/// Whether the row shows this stored artist.
pub open spec fn shows_artist(row: Artist, rec: ArtistRec) -> bool {
    row.id == rec.id && row.name@ == rec.name && row.album_count == shown_count(rec.albums.len())
}

/// Whether the row shows this stored album under the artist with identifier `artist_id`.
pub open spec fn shows_album(row: Album, rec: AlbumRec, artist_id: u128) -> bool {
    row.id == rec.id && row.name@ == rec.name && row.year == rec.year && row.song_count
        == shown_count(rec.songs.len()) && row.artist_id == artist_id
}

/// Whether the row shows this stored song under the album with identifier `album_id`.
pub open spec fn shows_song(row: Song, rec: SongRec, album_id: u128) -> bool {
    row.id == rec.id && row.data() == rec.song && row.album_id == album_id
}

/// How many of the first identifiers do not lie above `after`: where a page that follows
/// `after` begins.
pub open spec fn page_start(artists: Seq<ArtistRec>, after: Option<u128>) -> int
    decreases artists.len(),
{
    if artists.len() == 0 || after is None || artists[0].id > after->0 {
        0
    } else {
        1 + page_start(artists.drop_first(), after)
    }
}

/// A page begins at a place among the artists, or right after the last.
pub proof fn lemma_page_start_range(artists: Seq<ArtistRec>, after: Option<u128>)
    ensures
        0 <= page_start(artists, after) <= artists.len(),
    decreases artists.len(),
{
    if !(artists.len() == 0 || after is None || artists[0].id > after->0) {
        lemma_page_start_range(artists.drop_first(), after);
    }
}

/// A page begins where the identifiers that do not lie above `after` end.
pub proof fn lemma_page_start(artists: Seq<ArtistRec>, after: Option<u128>, p: int)
    requires
        0 <= p <= artists.len(),
        match after {
            None => p == 0,
            Some(b) => {
                &&& forall|i: int| 0 <= i < p ==> (#[trigger] artists[i]).id <= b
                &&& p < artists.len() ==> artists[p].id > b
            },
        },
    ensures
        page_start(artists, after) == p,
    decreases artists.len(),
{
    if p > 0 {
        let rest = artists.drop_first();
        assert(artists[0].id <= after->0);
        assert forall|i: int| 0 <= i < p - 1 implies (#[trigger] rest[i]).id <= after->0 by {
            assert(rest[i] == artists[i + 1]);
        }
        lemma_page_start(rest, after, p - 1);
    }
}

/// Whether the rows show, one for one and in order, the artists from place `start` on, up
/// to `limit` of them, and `has_more` says whether artists follow those.
pub open spec fn shows_page(
    rows: Seq<Artist>,
    has_more: bool,
    artists: Seq<ArtistRec>,
    start: int,
    limit: int,
) -> bool {
    let end = if start + limit < artists.len() {
        start + limit
    } else {
        artists.len() as int
    };
    &&& rows.len() == end - start
    &&& forall|k: int| 0 <= k < rows.len() ==> shows_artist(#[trigger] rows[k], artists[start + k])
    &&& has_more == (end < artists.len())
}

/// Whether the result shows the albums of this artist, one for one and in order; an
/// artist without albums shows as nothing.
pub open spec fn shows_albums(r: Option<Vec<Album>>, artist: ArtistRec) -> bool {
    match r {
        None => artist.albums.len() == 0,
        Some(rows) => {
            &&& rows@.len() == artist.albums.len()
            &&& rows@.len() > 0
            &&& forall|j: int|
                0 <= j < rows@.len() ==> shows_album(#[trigger] rows@[j], artist.albums[j], artist.id)
        },
    }
}

/// Whether the result shows the songs of this album, one for one and in order; an album
/// without songs shows as nothing.
pub open spec fn shows_songs(r: Option<Vec<Song>>, album: AlbumRec) -> bool {
    match r {
        None => album.songs.len() == 0,
        Some(rows) => {
            &&& rows@.len() == album.songs.len()
            &&& rows@.len() > 0
            &&& forall|k: int|
                0 <= k < rows@.len() ==> shows_song(#[trigger] rows@[k], album.songs[k], album.id)
        },
    }
}

/// The catalog with a new artist of this name at the end, under the next identifier.
pub open spec fn with_artist(c: Stored, name: Key) -> Stored {
    Stored {
        artists: c.artists.push(ArtistRec { id: c.next_id, name, albums: Seq::empty() }),
        links: c.links,
        next_id: (c.next_id + 1) as u128,
    }
}

/// The catalog with a new album at the end of artist `i`, under the next identifier.
pub open spec fn with_album(c: Stored, i: int, name: Key, year: i32) -> Stored {
    Stored {
        artists: c.artists.update(
            i,
            ArtistRec {
                id: c.artists[i].id,
                name: c.artists[i].name,
                albums: c.artists[i].albums.push(
                    AlbumRec { id: c.next_id, name, year, songs: Seq::empty() },
                ),
            },
        ),
        links: c.links,
        next_id: (c.next_id + 1) as u128,
    }
}

/// New songs under the identifiers from `first_id` on, one after the other.
pub open spec fn fresh_songs(first_id: u128, songs: Seq<DiskSong>) -> Seq<SongRec> {
    Seq::new(songs.len(), |k: int| SongRec { id: (first_id + k) as u128, song: songs[k] })
}

/// The artists with these songs in place of those of the album at `(i, j)`.
pub open spec fn with_album_songs(
    artists: Seq<ArtistRec>,
    i: int,
    j: int,
    songs: Seq<SongRec>,
) -> Seq<ArtistRec> {
    artists.update(
        i,
        ArtistRec {
            id: artists[i].id,
            name: artists[i].name,
            albums: artists[i].albums.update(
                j,
                AlbumRec {
                    id: artists[i].albums[j].id,
                    name: artists[i].albums[j].name,
                    year: artists[i].albums[j].year,
                    songs,
                },
            ),
        },
    )
}

/// The catalog with these songs at the end of the album at `(i, j)`, in order, under the
/// next identifiers.
pub open spec fn with_songs(c: Stored, i: int, j: int, songs: Seq<DiskSong>) -> Stored {
    Stored {
        artists: with_album_songs(
            c.artists,
            i,
            j,
            c.artists[i].albums[j].songs + fresh_songs(c.next_id, songs),
        ),
        links: c.links,
        next_id: (c.next_id + songs.len()) as u128,
    }
}

/// The playlist items whose song is stored among these artists, in their order.
pub open spec fn links_kept(links: Seq<PlaylistItem>, artists: Seq<ArtistRec>) -> Seq<PlaylistItem>
    decreases links.len(),
{
    if links.len() == 0 {
        Seq::empty()
    } else {
        let rest = links_kept(links.drop_last(), artists);
        if holds_song(artists, links.last().song_id) {
            rest.push(links.last())
        } else {
            rest
        }
    }
}

/// The catalog without the song at `(i, j, k)` and without the playlist items that
/// referred to it.
pub open spec fn without_song(c: Stored, i: int, j: int, k: int) -> Stored {
    let artists = with_album_songs(c.artists, i, j, c.artists[i].albums[j].songs.remove(k));
    Stored { artists, links: links_kept(c.links, artists), next_id: c.next_id }
}

/// The catalog without the album at `(i, j)`, without its songs, and without the playlist
/// items that referred to them.
pub open spec fn without_album(c: Stored, i: int, j: int) -> Stored {
    let artists = c.artists.update(
        i,
        ArtistRec {
            id: c.artists[i].id,
            name: c.artists[i].name,
            albums: c.artists[i].albums.remove(j),
        },
    );
    Stored { artists, links: links_kept(c.links, artists), next_id: c.next_id }
}

/// The catalog without artist `i`, without its albums and their songs, and without the
/// playlist items that referred to them.
pub open spec fn without_artist(c: Stored, i: int) -> Stored {
    let artists = c.artists.remove(i);
    Stored { artists, links: links_kept(c.links, artists), next_id: c.next_id }
}

/// One page of artist rows, and whether rows follow it.
pub struct ArtistsPage {
    pub rows: Vec<Artist>,
    pub has_more: bool,
}

fn shown(n: usize) -> (r: i32)
    ensures
        r == shown_count(n as nat),
{
    if n > 0x7fff_ffff {
        0x7fff_ffff
    } else {
        n as i32
    }
}

impl Catalog {
    /// A catalog with nothing stored, which hands out identifiers from `first_id` on.
    pub fn new(first_id: u128) -> (r: Self)
        ensures
            r@ == (Stored { artists: Seq::empty(), links: Seq::empty(), next_id: first_id }),
            well_kept(r@),
    {
        let r = Catalog { artists: Vec::new(), playlist_items: Vec::new(), next_id: first_id };
        assert(r@.artists =~= Seq::empty());
        assert(r@.links =~= Seq::empty());
        r
    }

    fn artist_index(&self, id: u128) -> (r: Option<usize>)
        ensures
            match r {
                Some(i) => i < self@.artists.len() && self@.artists[i as int].id == id,
                None => !holds_artist(self@.artists, id),
            },
    {
        let mut i: usize = 0;
        while i < self.artists.len()
            invariant
                i <= self.artists.len(),
                forall|x: int| 0 <= x < i ==> (#[trigger] self@.artists[x]).id != id,
            decreases self.artists.len() - i,
        {
            if self.artists[i].id == id {
                return Some(i);
            }
            i += 1;
        }
        None
    }

    fn album_index(&self, id: u128) -> (r: Option<(usize, usize)>)
        ensures
            match r {
                Some((i, j)) => album_place(self@.artists, i as int, j as int)
                    && self@.artists[i as int].albums[j as int].id == id,
                None => !holds_album(self@.artists, id),
            },
    {
        let mut i: usize = 0;
        while i < self.artists.len()
            invariant
                i <= self.artists.len(),
                forall|x: int, y: int|
                    0 <= x < i && 0 <= y < self@.artists[x].albums.len()
                        ==> (#[trigger] self@.artists[x].albums[y]).id != id,
            decreases self.artists.len() - i,
        {
            let mut j: usize = 0;
            while j < self.artists[i].albums.len()
                invariant
                    i < self.artists.len(),
                    j <= self.artists[i as int].albums.len(),
                    forall|y: int| 0 <= y < j ==> (#[trigger] self@.artists[i as int].albums[y]).id != id,
                decreases self.artists[i as int].albums.len() - j,
            {
                if self.artists[i].albums[j].id == id {
                    return Some((i, j));
                }
                j += 1;
            }
            i += 1;
        }
        None
    }

    fn song_index(&self, id: u128) -> (r: Option<(usize, usize, usize)>)
        ensures
            match r {
                Some((i, j, k)) => song_place(self@.artists, i as int, j as int, k as int)
                    && self@.artists[i as int].albums[j as int].songs[k as int].id == id,
                None => !holds_song(self@.artists, id),
            },
    {
        let mut i: usize = 0;
        while i < self.artists.len()
            invariant
                i <= self.artists.len(),
                forall|x: int, y: int, z: int|
                    0 <= x < i && song_place(self@.artists, x, y, z)
                        ==> (#[trigger] self@.artists[x].albums[y].songs[z]).id != id,
            decreases self.artists.len() - i,
        {
            let mut j: usize = 0;
            while j < self.artists[i].albums.len()
                invariant
                    i < self.artists.len(),
                    j <= self.artists[i as int].albums.len(),
                    forall|y: int, z: int|
                        0 <= y < j && 0 <= z < self@.artists[i as int].albums[y].songs.len()
                            ==> (#[trigger] self@.artists[i as int].albums[y].songs[z]).id != id,
                decreases self.artists[i as int].albums.len() - j,
            {
                let mut k: usize = 0;
                while k < self.artists[i].albums[j].songs.len()
                    invariant
                        i < self.artists.len(),
                        j < self.artists[i as int].albums.len(),
                        k <= self.artists[i as int].albums[j as int].songs.len(),
                        forall|z: int|
                            0 <= z < k ==> (#[trigger] self@.artists[i as int].albums[j as int].songs[z]).id
                                != id,
                    decreases self.artists[i as int].albums[j as int].songs.len() - k,
                {
                    if self.artists[i].albums[j].songs[k].id == id {
                        return Some((i, j, k));
                    }
                    k += 1;
                }
                j += 1;
            }
            i += 1;
        }
        None
    }
}

/// One page of the stored artists in the order of their identifiers: up to `page_size`
/// rows that follow the identifier `after`, or the first rows where `after` is nothing.
pub fn search_artists_paginated(catalog: &Catalog, page_size: usize, after: Option<u128>) -> (page:
    ArtistsPage)
    ensures
        shows_page(
            page.rows@,
            page.has_more,
            catalog@.artists,
            page_start(catalog@.artists, after),
            page_size as int,
        ),
{
    let n = catalog.artists.len();
    let mut start: usize = 0;
    if let Some(t) = after {
        assert(catalog@.artists.subrange(0, n as int) =~= catalog@.artists);
        while start < n && catalog.artists[start].id <= t
            invariant
                n == catalog.artists.len(),
                start <= n,
                after == Some(t),
                page_start(catalog@.artists, after) == start + page_start(
                    catalog@.artists.subrange(start as int, n as int),
                    after,
                ),
            decreases n - start,
        {
            proof {
                let rest = catalog@.artists.subrange(start as int, n as int);
                assert(rest[0] == catalog@.artists[start as int]);
                assert(rest.drop_first() =~= catalog@.artists.subrange(start + 1, n as int));
            }
            start += 1;
        }
        proof {
            let rest = catalog@.artists.subrange(start as int, n as int);
            if start < n {
                assert(rest[0] == catalog@.artists[start as int]);
            }
        }
    } else {
        assert(catalog@.artists.subrange(0, n as int) =~= catalog@.artists);
    }
    let end: usize = if page_size < n - start {
        start + page_size
    } else {
        n
    };
    let mut rows: Vec<Artist> = Vec::new();
    let mut i: usize = start;
    while i < end
        invariant
            start <= i <= end <= n,
            n == catalog.artists.len(),
            rows@.len() == i - start,
            forall|k: int| 0 <= k < rows@.len() ==> shows_artist(#[trigger] rows@[k], catalog@.artists[start + k]),
        decreases end - i,
    {
        let node = &catalog.artists[i];
        rows.push(Artist { id: node.id, name: node.name.clone(), album_count: shown(node.albums.len()) });
        i += 1;
    }
    ArtistsPage { rows, has_more: end < n }
}

/// The albums of the artist with this identifier, in stored order; nothing where the
/// artist has none or is not stored.
pub fn get_albums_by_artist_id(catalog: &Catalog, artist_id: u128) -> (r: Option<Vec<Album>>)
    requires
        well_kept(catalog@),
    ensures
        forall|i: int|
            0 <= i < catalog@.artists.len() && (#[trigger] catalog@.artists[i]).id == artist_id
                ==> shows_albums(r, catalog@.artists[i]),
        !holds_artist(catalog@.artists, artist_id) ==> r is None,
{
    match catalog.artist_index(artist_id) {
        None => None,
        Some(i) => {
            let node = &catalog.artists[i];
            if node.albums.len() == 0 {
                return None;
            }
            let mut rows: Vec<Album> = Vec::new();
            let mut j: usize = 0;
            while j < node.albums.len()
                invariant
                    j <= node.albums.len(),
                    rows@.len() == j,
                    node.id == artist_id,
                    forall|y: int| 0 <= y < j ==> shows_album(#[trigger] rows@[y], node@.albums[y], artist_id),
                decreases node.albums.len() - j,
            {
                let album = &node.albums[j];
                rows.push(
                    Album {
                        id: album.id,
                        name: album.name.clone(),
                        year: album.year,
                        song_count: shown(album.songs.len()),
                        artist_id,
                    },
                );
                j += 1;
            }
            Some(rows)
        },
    }
}

/// The songs of the album with this identifier, in stored order; nothing where the album
/// has none or is not stored.
pub fn get_songs_by_album_id(catalog: &Catalog, album_id: u128) -> (r: Option<Vec<Song>>)
    requires
        well_kept(catalog@),
    ensures
        forall|i: int, j: int|
            album_place(catalog@.artists, i, j) && (#[trigger] catalog@.artists[i].albums[j]).id
                == album_id ==> shows_songs(r, catalog@.artists[i].albums[j]),
        !holds_album(catalog@.artists, album_id) ==> r is None,
{
    match catalog.album_index(album_id) {
        None => None,
        Some((i, j)) => {
            let node = &catalog.artists[i].albums[j];
            if node.songs.len() == 0 {
                return None;
            }
            let mut rows: Vec<Song> = Vec::new();
            let mut k: usize = 0;
            while k < node.songs.len()
                invariant
                    k <= node.songs.len(),
                    rows@.len() == k,
                    forall|z: int| 0 <= z < k ==> shows_song(#[trigger] rows@[z], node@.songs[z], album_id),
                decreases node.songs.len() - k,
            {
                let song = &node.songs[k].song;
                rows.push(
                    Song {
                        id: node.songs[k].id,
                        title: song.title.clone(),
                        path: song.path.clone(),
                        genre: song.genre.clone(),
                        suffix: song.suffix.clone(),
                        content_type: song.content_type.clone(),
                        track: song.track,
                        duration: song.duration,
                        album_id,
                        disc_number: song.disc_number,
                    },
                );
                k += 1;
            }
            Some(rows)
        },
    }
}

/// A song that is stored stays stored where the artists only gain rows.
pub proof fn lemma_song_stays(before: Seq<ArtistRec>, after: Seq<ArtistRec>, id: u128)
    requires
        holds_song(before, id),
        before.len() <= after.len(),
        forall|i: int|
            0 <= i < before.len() ==> before[i].albums.len() <= (#[trigger] after[i]).albums.len(),
        forall|i: int, j: int|
            album_place(before, i, j) ==> before[i].albums[j].songs.len()
                <= (#[trigger] after[i].albums[j]).songs.len(),
        forall|i: int, j: int, k: int|
            song_place(before, i, j, k) ==> before[i].albums[j].songs[k].id
                == (#[trigger] after[i].albums[j].songs[k]).id,
    ensures
        holds_song(after, id),
{
    let (i, j, k) = choose|i: int, j: int, k: int|
        song_place(before, i, j, k) && (#[trigger] before[i].albums[j].songs[k]).id == id;
    assert(after[i].albums.len() >= before[i].albums.len());
    assert(after[i].albums[j].songs.len() >= before[i].albums[j].songs.len());
    assert(song_place(after, i, j, k) && after[i].albums[j].songs[k].id == id);
}

/// Stores a new artist without albums and hands out its identifier.
pub fn add_artist(catalog: &mut Catalog, artist: &ArtistModel) -> (r: Result<u128, QueryError>)
    requires
        well_kept(old(catalog)@),
    ensures
        well_kept(final(catalog)@),
        match r {
            Ok(id) => {
                &&& old(catalog)@.next_id < u128::MAX
                &&& id == old(catalog)@.next_id
                &&& final(catalog)@ == with_artist(old(catalog)@, artist.name@)
            },
            Err(e) => {
                &&& e == QueryError::IdentifiersExhausted
                &&& old(catalog)@.next_id == u128::MAX
                &&& final(catalog)@ == old(catalog)@
            },
        },
{
    if catalog.next_id == u128::MAX {
        return Err(QueryError::IdentifiersExhausted);
    }
    let ghost before = catalog@;
    let id = catalog.next_id;
    catalog.artists.push(ArtistNode { id, name: artist.name.clone(), albums: Vec::new() });
    catalog.next_id = id + 1;
    proof {
        let after = catalog@;
        let goal = with_artist(before, artist.name@);
        assert(after.artists[before.artists.len() as int].albums =~= Seq::empty());
        assert(after.artists =~= goal.artists);
        assert forall|n: int| 0 <= n < after.links.len() implies holds_song(
            after.artists,
            (#[trigger] after.links[n]).song_id,
        ) by {
            assert(holds_song(before.artists, before.links[n].song_id));
            lemma_song_stays(before.artists, after.artists, after.links[n].song_id);
        }
    }
    Ok(id)
}

/// Stores a new album without songs at the end of the artist with this identifier and
/// hands out the album's identifier.
pub fn add_album(catalog: &mut Catalog, artist_id: u128, album: &AlbumModel) -> (r: Result<
    u128,
    QueryError,
>)
    requires
        well_kept(old(catalog)@),
    ensures
        well_kept(final(catalog)@),
        match r {
            Ok(id) => {
                &&& holds_artist(old(catalog)@.artists, artist_id)
                &&& old(catalog)@.next_id < u128::MAX
                &&& id == old(catalog)@.next_id
                &&& forall|i: int|
                    0 <= i < old(catalog)@.artists.len() && (#[trigger] old(catalog)@.artists[i]).id
                        == artist_id ==> final(catalog)@ == with_album(
                        old(catalog)@,
                        i,
                        album.name@,
                        album.year,
                    )
            },
            Err(QueryError::MissingParent) => {
                &&& !holds_artist(old(catalog)@.artists, artist_id)
                &&& final(catalog)@ == old(catalog)@
            },
            Err(QueryError::IdentifiersExhausted) => {
                &&& holds_artist(old(catalog)@.artists, artist_id)
                &&& old(catalog)@.next_id == u128::MAX
                &&& final(catalog)@ == old(catalog)@
            },
        },
{
    let i = match catalog.artist_index(artist_id) {
        None => {
            return Err(QueryError::MissingParent);
        },
        Some(i) => i,
    };
    if catalog.next_id == u128::MAX {
        return Err(QueryError::IdentifiersExhausted);
    }
    let ghost before = catalog@;
    let id = catalog.next_id;
    catalog.artists[i].albums.push(
        AlbumNode { id, name: album.name.clone(), year: album.year, songs: Vec::new() },
    );
    catalog.next_id = id + 1;
    proof {
        let after = catalog@;
        let goal = with_album(before, i as int, album.name@, album.year);
        let last = before.artists[i as int].albums.len() as int;
        assert(after.artists[i as int].albums[last].songs =~= Seq::empty());
        assert(after.artists[i as int].albums =~= goal.artists[i as int].albums);
        assert forall|x: int| 0 <= x < after.artists.len() implies after.artists[x]
            == goal.artists[x] by {
            if x != i {
                assert(after.artists[x] == before.artists[x]);
            }
        }
        assert(after.artists =~= goal.artists);
        assert forall|x: int, y: int| album_place(before.artists, x, y) implies before.artists[x].albums[y]
            == (#[trigger] after.artists[x].albums[y]) by {}
        assert forall|n: int| 0 <= n < after.links.len() implies holds_song(
            after.artists,
            (#[trigger] after.links[n]).song_id,
        ) by {
            assert(holds_song(before.artists, before.links[n].song_id));
            lemma_song_stays(before.artists, after.artists, after.links[n].song_id);
        }
        assert forall|x: int, y: int, a: int, b: int|
            album_place(after.artists, x, y) && album_place(after.artists, a, b)
                && (#[trigger] after.artists[x].albums[y]).id
                == (#[trigger] after.artists[a].albums[b]).id implies x == a && y == b by {
            if x == i && y == last {
                if !(a == i && b == last) {
                    assert(after.artists[a].albums[b] == before.artists[a].albums[b]);
                }
            } else {
                assert(after.artists[x].albums[y] == before.artists[x].albums[y]);
                if !(a == i && b == last) {
                    assert(after.artists[a].albums[b] == before.artists[a].albums[b]);
                }
            }
        }
        assert forall|x: int, y: int, z: int, a: int, b: int, c: int|
            song_place(after.artists, x, y, z) && song_place(after.artists, a, b, c)
                && (#[trigger] after.artists[x].albums[y].songs[z]).id
                == (#[trigger] after.artists[a].albums[b].songs[c]).id implies x == a && y == b
            && z == c by {
            assert(after.artists[x].albums[y] == before.artists[x].albums[y]);
            assert(after.artists[a].albums[b] == before.artists[a].albums[b]);
        }
        assert forall|x: int, y: int, z: int| song_place(after.artists, x, y, z) implies (
        #[trigger] after.artists[x].albums[y].songs[z]).id < after.next_id by {
            assert(after.artists[x].albums[y] == before.artists[x].albums[y]);
        }
        assert forall|x: int, y: int| album_place(after.artists, x, y) implies (
        #[trigger] after.artists[x].albums[y]).id < after.next_id by {
            if !(x == i && y == last) {
                assert(after.artists[x].albums[y] == before.artists[x].albums[y]);
            }
        }
        assert forall|x: int| 0 <= x < before.artists.len() && (#[trigger] before.artists[x]).id
            == artist_id implies x == i by {
            if x < i {
                assert(before.artists[x].id < before.artists[i as int].id);
            } else if x > i {
                assert(before.artists[i as int].id < before.artists[x].id);
            }
        }
    }
    Ok(id)
}

/// Stores these songs, in order, at the end of the album with this identifier, each
/// under an identifier of its own.
pub fn add_songs(catalog: &mut Catalog, album_id: u128, songs: &Vec<SongModel>) -> (r: Result<
    (),
    QueryError,
>)
    requires
        well_kept(old(catalog)@),
    ensures
        well_kept(final(catalog)@),
        match r {
            Ok(_) => {
                &&& holds_album(old(catalog)@.artists, album_id)
                &&& old(catalog)@.next_id + songs@.len() <= u128::MAX
                &&& forall|i: int, j: int|
                    album_place(old(catalog)@.artists, i, j)
                        && (#[trigger] old(catalog)@.artists[i].albums[j]).id == album_id
                        ==> final(catalog)@ == with_songs(
                        old(catalog)@,
                        i,
                        j,
                        crate::tree::songs_of(songs@),
                    )
            },
            Err(QueryError::MissingParent) => {
                &&& !holds_album(old(catalog)@.artists, album_id)
                &&& final(catalog)@ == old(catalog)@
            },
            Err(QueryError::IdentifiersExhausted) => {
                &&& holds_album(old(catalog)@.artists, album_id)
                &&& old(catalog)@.next_id + songs@.len() > u128::MAX
                &&& final(catalog)@ == old(catalog)@
            },
        },
{
    let (i, j) = match catalog.album_index(album_id) {
        None => {
            return Err(QueryError::MissingParent);
        },
        Some(place) => place,
    };
    if songs.len() as u128 > u128::MAX - catalog.next_id {
        return Err(QueryError::IdentifiersExhausted);
    }
    let ghost before = catalog@;
    let first = catalog.next_id;
    let mut nodes: Vec<SongNode> = Vec::new();
    let mut k: usize = 0;
    while k < songs.len()
        invariant
            k <= songs.len(),
            first + songs.len() <= u128::MAX,
            nodes@.len() == k,
            forall|z: int|
                0 <= z < k ==> (#[trigger] nodes@[z])@ == (SongRec {
                    id: (first + z) as u128,
                    song: songs@[z]@,
                }),
        decreases songs.len() - k,
    {
        nodes.push(SongNode { id: first + k as u128, song: songs[k].clone() });
        k += 1;
    }
    let ghost fresh = fresh_songs(first, crate::tree::songs_of(songs@));
    let ghost was = before.artists[i as int].albums[j as int].songs;
    catalog.artists[i].albums[j].songs.append(&mut nodes);
    catalog.next_id = first + songs.len() as u128;
    proof {
        let after = catalog@;
        let goal = with_songs(before, i as int, j as int, crate::tree::songs_of(songs@));
        assert(after.artists[i as int].albums[j as int].songs =~= was + fresh);
        assert forall|y: int| 0 <= y < after.artists[i as int].albums.len() implies after.artists[i as int].albums[y]
            == goal.artists[i as int].albums[y] by {
            if y != j {
                assert(after.artists[i as int].albums[y] == before.artists[i as int].albums[y]);
            }
        }
        assert(after.artists[i as int].albums =~= goal.artists[i as int].albums);
        assert forall|x: int| 0 <= x < after.artists.len() implies after.artists[x]
            == goal.artists[x] by {
            if x != i {
                assert(after.artists[x] == before.artists[x]);
            }
        }
        assert(after.artists =~= goal.artists);
        assert(after == goal);
        lemma_with_songs(before, i as int, j as int, crate::tree::songs_of(songs@));
    }
    Ok(())
}

/// Adding songs to a stored album keeps the catalog's rules, and the album is the only
/// one with its identifier.
pub proof fn lemma_with_songs(c: Stored, i: int, j: int, songs: Seq<DiskSong>)
    requires
        well_kept(c),
        album_place(c.artists, i, j),
        c.next_id + songs.len() <= u128::MAX,
    ensures
        well_kept(with_songs(c, i, j, songs)),
        forall|x: int, y: int|
            album_place(c.artists, x, y) && (#[trigger] c.artists[x].albums[y]).id
                == c.artists[i].albums[j].id ==> x == i && y == j,
{
    let after = with_songs(c, i, j, songs);
    let was = c.artists[i].albums[j].songs;
    assert forall|x: int, y: int| album_place(after.artists, x, y) implies (
    #[trigger] after.artists[x].albums[y]).id == c.artists[x].albums[y].id && (!(x == i && y == j)
        ==> after.artists[x].albums[y] == c.artists[x].albums[y]) by {}
    assert forall|x: int, y: int, z: int| song_place(after.artists, x, y, z) implies ({
        let id = (#[trigger] after.artists[x].albums[y].songs[z]).id;
        if x == i && y == j && z >= was.len() {
            id == c.next_id + (z - was.len())
        } else {
            song_place(c.artists, x, y, z) && id == c.artists[x].albums[y].songs[z].id && id
                < c.next_id
        }
    }) by {
        if x == i && y == j {
            if z < was.len() {
                assert(after.artists[x].albums[y].songs[z] == was[z]);
            }
        } else {
            assert(after.artists[x].albums[y] == c.artists[x].albums[y]);
        }
    }
    assert forall|n: int| 0 <= n < after.links.len() implies holds_song(
        after.artists,
        (#[trigger] after.links[n]).song_id,
    ) by {
        assert(holds_song(c.artists, c.links[n].song_id));
        assert forall|x: int, y: int, z: int| song_place(c.artists, x, y, z) implies c.artists[x].albums[y].songs[z].id
            == (#[trigger] after.artists[x].albums[y].songs[z]).id by {
            if x == i && y == j {
                assert(after.artists[x].albums[y].songs[z] == was[z]);
            } else {
                assert(after.artists[x].albums[y] == c.artists[x].albums[y]);
            }
        }
        lemma_song_stays(c.artists, after.artists, after.links[n].song_id);
    }
}

/// Every playlist item that is kept refers to a stored song and was there before; every
/// item that was there and refers to a stored song is kept.
pub proof fn lemma_links_kept(links: Seq<PlaylistItem>, artists: Seq<ArtistRec>)
    ensures
        forall|n: int|
            0 <= n < links_kept(links, artists).len() ==> holds_song(
                artists,
                (#[trigger] links_kept(links, artists)[n]).song_id,
            ) && links.contains(links_kept(links, artists)[n]),
        forall|n: int|
            0 <= n < links.len() && holds_song(artists, (#[trigger] links[n]).song_id)
                ==> links_kept(links, artists).contains(links[n]),
        (forall|n: int| 0 <= n < links.len() ==> holds_song(artists, (#[trigger] links[n]).song_id))
            ==> links_kept(links, artists) == links,
    decreases links.len(),
{
    if links.len() == 0 {
        assert(links_kept(links, artists) =~= links);
    } else {
        let head = links.drop_last();
        let kept_head = links_kept(head, artists);
        let kept = links_kept(links, artists);
        lemma_links_kept(head, artists);
        assert forall|n: int| 0 <= n < kept.len() implies holds_song(
            artists,
            (#[trigger] kept[n]).song_id,
        ) && links.contains(kept[n]) by {
            if n < kept_head.len() {
                assert(kept[n] == kept_head[n]);
                let m = choose|m: int| 0 <= m < head.len() && head[m] == kept_head[n];
                assert(links[m] == kept[n]);
            } else {
                assert(links[links.len() - 1] == kept[n]);
            }
        }
        assert forall|n: int|
            0 <= n < links.len() && holds_song(artists, (#[trigger] links[n]).song_id) implies kept.contains(
            links[n],
        ) by {
            if n < head.len() {
                assert(head[n] == links[n]);
                let m = choose|m: int| 0 <= m < kept_head.len() && kept_head[m] == head[n];
                assert(kept[m] == links[n]);
            } else {
                assert(kept[kept.len() - 1] == links[n]);
            }
        }
        if forall|n: int| 0 <= n < links.len() ==> holds_song(artists, (#[trigger] links[n]).song_id) {
            assert forall|n: int| 0 <= n < head.len() implies holds_song(
                artists,
                (#[trigger] head[n]).song_id,
            ) by {
                assert(head[n] == links[n]);
            }
            assert(kept_head == head);
            assert(holds_song(artists, links[links.len() - 1].song_id));
            assert(kept =~= links);
        }
    }
}

impl Catalog {
    /// Drops the playlist items whose song is no longer stored.
    fn prune_links(&mut self)
        ensures
            final(self)@.artists == old(self)@.artists,
            final(self)@.next_id == old(self)@.next_id,
            final(self)@.links == links_kept(old(self)@.links, old(self)@.artists),
    {
        let mut kept: Vec<PlaylistItem> = Vec::new();
        let mut n: usize = 0;
        while n < self.playlist_items.len()
            invariant
                n <= self.playlist_items.len(),
                self@ == old(self)@,
                kept@ == links_kept(self@.links.take(n as int), self@.artists),
            decreases self.playlist_items.len() - n,
        {
            let item = self.playlist_items[n];
            proof {
                assert(self@.links.take(n + 1).drop_last() =~= self@.links.take(n as int));
                assert(self@.links.take(n + 1).last() == item);
            }
            if self.song_index(item.song_id).is_some() {
                kept.push(item);
            }
            n += 1;
        }
        proof {
            assert(self@.links.take(n as int) =~= self@.links);
        }
        self.playlist_items = kept;
    }
}

/// Taking out a stored song keeps the catalog's rules; the song is stored no longer, and
/// nothing else has left but the playlist items that referred to it.
pub proof fn lemma_without_song(c: Stored, i: int, j: int, k: int)
    requires
        well_kept(c),
        song_place(c.artists, i, j, k),
    ensures
        well_kept(without_song(c, i, j, k)),
        !holds_song(without_song(c, i, j, k).artists, c.artists[i].albums[j].songs[k].id),
        forall|n: int|
            0 <= n < c.links.len() && (#[trigger] c.links[n]).song_id
                != c.artists[i].albums[j].songs[k].id ==> without_song(c, i, j, k).links.contains(
                c.links[n],
            ),
{
    let after = without_song(c, i, j, k);
    let gone = c.artists[i].albums[j].songs[k].id;
    lemma_links_kept(c.links, after.artists);
    assert forall|x: int, y: int| album_place(after.artists, x, y) implies album_place(
        c.artists,
        x,
        y,
    ) && (#[trigger] after.artists[x].albums[y]).id == c.artists[x].albums[y].id && (!(x == i && y
        == j) ==> after.artists[x].albums[y] == c.artists[x].albums[y]) by {}
    assert forall|x: int, y: int, z: int| song_place(after.artists, x, y, z) implies ({
        let w = if x == i && y == j && z >= k {
            z + 1
        } else {
            z
        };
        song_place(c.artists, x, y, w) && (#[trigger] after.artists[x].albums[y].songs[z])
            == c.artists[x].albums[y].songs[w]
    }) by {
        if !(x == i && y == j) {
            assert(after.artists[x].albums[y] == c.artists[x].albums[y]);
        }
    }
    assert forall|x: int, y: int, z: int| song_place(after.artists, x, y, z) implies (
    #[trigger] after.artists[x].albums[y].songs[z]).id != gone by {
        let w = if x == i && y == j && z >= k {
            z + 1
        } else {
            z
        };
        assert(after.artists[x].albums[y].songs[z] == c.artists[x].albums[y].songs[w]);
    }
    assert forall|x: int, y: int, z: int, a: int, b: int, d: int|
        song_place(after.artists, x, y, z) && song_place(after.artists, a, b, d)
            && (#[trigger] after.artists[x].albums[y].songs[z]).id
            == (#[trigger] after.artists[a].albums[b].songs[d]).id implies x == a && y == b && z
        == d by {
        let w = if x == i && y == j && z >= k {
            z + 1
        } else {
            z
        };
        let e = if a == i && b == j && d >= k {
            d + 1
        } else {
            d
        };
        assert(after.artists[x].albums[y].songs[z] == c.artists[x].albums[y].songs[w]);
        assert(after.artists[a].albums[b].songs[d] == c.artists[a].albums[b].songs[e]);
    }
    assert forall|n: int|
        0 <= n < c.links.len() && (#[trigger] c.links[n]).song_id != gone implies after.links.contains(
        c.links[n],
    ) by {
        let id = c.links[n].song_id;
        assert(holds_song(c.artists, id));
        let (x, y, z) = choose|x: int, y: int, z: int|
            song_place(c.artists, x, y, z) && (#[trigger] c.artists[x].albums[y].songs[z]).id == id;
        let w = if x == i && y == j && z > k {
            z - 1
        } else {
            z
        };
        assert(song_place(after.artists, x, y, w) && after.artists[x].albums[y].songs[w].id == id);
    }
}

/// Taking out a stored album keeps the catalog's rules; the album and its songs are
/// stored no longer, and nothing else has left but the playlist items that referred to
/// those songs.
pub proof fn lemma_without_album(c: Stored, i: int, j: int)
    requires
        well_kept(c),
        album_place(c.artists, i, j),
    ensures
        well_kept(without_album(c, i, j)),
        !holds_album(without_album(c, i, j).artists, c.artists[i].albums[j].id),
        forall|k: int|
            0 <= k < c.artists[i].albums[j].songs.len() ==> !holds_song(
                without_album(c, i, j).artists,
                (#[trigger] c.artists[i].albums[j].songs[k]).id,
            ),
        forall|x: int, y: int, z: int|
            song_place(c.artists, x, y, z) && !(x == i && y == j) ==> holds_song(
                without_album(c, i, j).artists,
                (#[trigger] c.artists[x].albums[y].songs[z]).id,
            ),
{
    let after = without_album(c, i, j);
    lemma_links_kept(c.links, after.artists);
    assert forall|x: int, y: int| album_place(after.artists, x, y) implies ({
        let w = if x == i && y >= j {
            y + 1
        } else {
            y
        };
        album_place(c.artists, x, w) && (#[trigger] after.artists[x].albums[y])
            == c.artists[x].albums[w]
    }) by {}
    assert forall|x: int, y: int| album_place(after.artists, x, y) implies (
    #[trigger] after.artists[x].albums[y]).id != c.artists[i].albums[j].id by {
        let w = if x == i && y >= j {
            y + 1
        } else {
            y
        };
        assert(after.artists[x].albums[y] == c.artists[x].albums[w]);
    }
    assert forall|x: int, y: int, a: int, b: int|
        album_place(after.artists, x, y) && album_place(after.artists, a, b)
            && (#[trigger] after.artists[x].albums[y]).id
            == (#[trigger] after.artists[a].albums[b]).id implies x == a && y == b by {
        let w = if x == i && y >= j {
            y + 1
        } else {
            y
        };
        let e = if a == i && b >= j {
            b + 1
        } else {
            b
        };
        assert(after.artists[x].albums[y] == c.artists[x].albums[w]);
        assert(after.artists[a].albums[b] == c.artists[a].albums[e]);
    }
    assert forall|x: int, y: int, z: int| song_place(after.artists, x, y, z) implies ({
        let w = if x == i && y >= j {
            y + 1
        } else {
            y
        };
        song_place(c.artists, x, w, z) && (#[trigger] after.artists[x].albums[y].songs[z])
            == c.artists[x].albums[w].songs[z]
    }) by {
        let w = if x == i && y >= j {
            y + 1
        } else {
            y
        };
        assert(after.artists[x].albums[y] == c.artists[x].albums[w]);
    }
    assert forall|x: int, y: int, z: int, a: int, b: int, d: int|
        song_place(after.artists, x, y, z) && song_place(after.artists, a, b, d)
            && (#[trigger] after.artists[x].albums[y].songs[z]).id
            == (#[trigger] after.artists[a].albums[b].songs[d]).id implies x == a && y == b && z
        == d by {
        let w = if x == i && y >= j {
            y + 1
        } else {
            y
        };
        let e = if a == i && b >= j {
            b + 1
        } else {
            b
        };
        assert(after.artists[x].albums[y].songs[z] == c.artists[x].albums[w].songs[z]);
        assert(after.artists[a].albums[b].songs[d] == c.artists[a].albums[e].songs[d]);
    }
    assert forall|k: int| 0 <= k < c.artists[i].albums[j].songs.len() implies !holds_song(
        after.artists,
        (#[trigger] c.artists[i].albums[j].songs[k]).id,
    ) by {
        let id = c.artists[i].albums[j].songs[k].id;
        if holds_song(after.artists, id) {
            let (x, y, z) = choose|x: int, y: int, z: int|
                song_place(after.artists, x, y, z) && (#[trigger] after.artists[x].albums[y].songs[z]).id
                    == id;
            let w = if x == i && y >= j {
                y + 1
            } else {
                y
            };
            assert(after.artists[x].albums[y].songs[z] == c.artists[x].albums[w].songs[z]);
        }
    }
    assert forall|x: int, y: int, z: int|
        song_place(c.artists, x, y, z) && !(x == i && y == j) implies holds_song(
        after.artists,
        (#[trigger] c.artists[x].albums[y].songs[z]).id,
    ) by {
        let w = if x == i && y > j {
            y - 1
        } else {
            y
        };
        assert(song_place(after.artists, x, w, z));
        assert(after.artists[x].albums[w].songs[z] == c.artists[x].albums[y].songs[z]);
    }
}

/// Taking out a stored artist keeps the catalog's rules; the artist, its albums and their
/// songs are stored no longer, and nothing else has left but the playlist items that
/// referred to those songs.
pub proof fn lemma_without_artist(c: Stored, i: int)
    requires
        well_kept(c),
        0 <= i < c.artists.len(),
    ensures
        well_kept(without_artist(c, i)),
        !holds_artist(without_artist(c, i).artists, c.artists[i].id),
        forall|j: int|
            0 <= j < c.artists[i].albums.len() ==> !holds_album(
                without_artist(c, i).artists,
                (#[trigger] c.artists[i].albums[j]).id,
            ),
        forall|j: int, k: int|
            song_place(c.artists, i, j, k) ==> !holds_song(
                without_artist(c, i).artists,
                (#[trigger] c.artists[i].albums[j].songs[k]).id,
            ),
        forall|x: int, y: int, z: int|
            song_place(c.artists, x, y, z) && x != i ==> holds_song(
                without_artist(c, i).artists,
                (#[trigger] c.artists[x].albums[y].songs[z]).id,
            ),
{
    let after = without_artist(c, i);
    lemma_links_kept(c.links, after.artists);
    assert forall|x: int| 0 <= x < after.artists.len() implies ({
        let w = if x >= i {
            x + 1
        } else {
            x
        };
        0 <= w < c.artists.len() && w != i && (#[trigger] after.artists[x]) == c.artists[w]
    }) by {}
    assert forall|x: int| 0 <= x < after.artists.len() implies (#[trigger] after.artists[x]).id
        != c.artists[i].id by {
        let w = if x >= i {
            x + 1
        } else {
            x
        };
        assert(after.artists[x] == c.artists[w]);
        if w < i {
            assert(c.artists[w].id < c.artists[i].id);
        } else {
            assert(c.artists[i].id < c.artists[w].id);
        }
    }
    assert forall|x: int, y: int, a: int, b: int|
        album_place(after.artists, x, y) && album_place(after.artists, a, b)
            && (#[trigger] after.artists[x].albums[y]).id
            == (#[trigger] after.artists[a].albums[b]).id implies x == a && y == b by {
        let w = if x >= i {
            x + 1
        } else {
            x
        };
        let e = if a >= i {
            a + 1
        } else {
            a
        };
        assert(after.artists[x].albums[y] == c.artists[w].albums[y]);
        assert(after.artists[a].albums[b] == c.artists[e].albums[b]);
    }
    assert forall|x: int, y: int, z: int, a: int, b: int, d: int|
        song_place(after.artists, x, y, z) && song_place(after.artists, a, b, d)
            && (#[trigger] after.artists[x].albums[y].songs[z]).id
            == (#[trigger] after.artists[a].albums[b].songs[d]).id implies x == a && y == b && z
        == d by {
        let w = if x >= i {
            x + 1
        } else {
            x
        };
        let e = if a >= i {
            a + 1
        } else {
            a
        };
        assert(after.artists[x].albums[y].songs[z] == c.artists[w].albums[y].songs[z]);
        assert(after.artists[a].albums[b].songs[d] == c.artists[e].albums[b].songs[d]);
    }
    assert forall|x: int, y: int| album_place(after.artists, x, y) implies (
    #[trigger] after.artists[x].albums[y]).id < after.next_id by {
        let w = if x >= i {
            x + 1
        } else {
            x
        };
        assert(after.artists[x].albums[y] == c.artists[w].albums[y]);
    }
    assert forall|x: int, y: int, z: int| song_place(after.artists, x, y, z) implies (
    #[trigger] after.artists[x].albums[y].songs[z]).id < after.next_id by {
        let w = if x >= i {
            x + 1
        } else {
            x
        };
        assert(after.artists[x].albums[y].songs[z] == c.artists[w].albums[y].songs[z]);
    }
    assert forall|j: int| 0 <= j < c.artists[i].albums.len() implies !holds_album(
        after.artists,
        (#[trigger] c.artists[i].albums[j]).id,
    ) by {
        let id = c.artists[i].albums[j].id;
        if holds_album(after.artists, id) {
            let (x, y) = choose|x: int, y: int|
                album_place(after.artists, x, y) && (#[trigger] after.artists[x].albums[y]).id == id;
            let w = if x >= i {
                x + 1
            } else {
                x
            };
            assert(after.artists[x].albums[y] == c.artists[w].albums[y]);
        }
    }
    assert forall|j: int, k: int| song_place(c.artists, i, j, k) implies !holds_song(
        after.artists,
        (#[trigger] c.artists[i].albums[j].songs[k]).id,
    ) by {
        let id = c.artists[i].albums[j].songs[k].id;
        if holds_song(after.artists, id) {
            let (x, y, z) = choose|x: int, y: int, z: int|
                song_place(after.artists, x, y, z) && (#[trigger] after.artists[x].albums[y].songs[z]).id
                    == id;
            let w = if x >= i {
                x + 1
            } else {
                x
            };
            assert(after.artists[x].albums[y].songs[z] == c.artists[w].albums[y].songs[z]);
        }
    }
    assert forall|x: int, y: int, z: int| song_place(c.artists, x, y, z) && x != i implies holds_song(
        after.artists,
        (#[trigger] c.artists[x].albums[y].songs[z]).id,
    ) by {
        let w = if x > i {
            x - 1
        } else {
            x
        };
        assert(after.artists[w] == c.artists[x]);
        assert(song_place(after.artists, w, y, z));
        assert(after.artists[w].albums[y].songs[z] == c.artists[x].albums[y].songs[z]);
    }
}

/// Deletes the song with this identifier and the playlist items that refer to it. Where
/// no such song is stored, nothing changes.
pub fn delete_song_by_id(catalog: &mut Catalog, song_id: u128)
    requires
        well_kept(old(catalog)@),
    ensures
        well_kept(final(catalog)@),
        forall|i: int, j: int, k: int|
            song_place(old(catalog)@.artists, i, j, k)
                && (#[trigger] old(catalog)@.artists[i].albums[j].songs[k]).id == song_id
                ==> final(catalog)@ == without_song(old(catalog)@, i, j, k),
        !holds_song(old(catalog)@.artists, song_id) ==> final(catalog)@ == old(catalog)@,
{
    let ghost before = catalog@;
    match catalog.song_index(song_id) {
        None => {},
        Some((i, j, k)) => {
            catalog.artists[i].albums[j].songs.remove(k);
            proof {
                let goal = with_album_songs(
                    before.artists,
                    i as int,
                    j as int,
                    before.artists[i as int].albums[j as int].songs.remove(k as int),
                );
                let now = catalog@.artists;
                assert(now[i as int].albums[j as int].songs =~= goal[i as int].albums[j as int].songs);
                assert forall|y: int| 0 <= y < now[i as int].albums.len() implies now[i as int].albums[y]
                    == goal[i as int].albums[y] by {
                    if y != j {
                        assert(now[i as int].albums[y] == before.artists[i as int].albums[y]);
                    }
                }
                assert(now[i as int].albums =~= goal[i as int].albums);
                assert forall|x: int| 0 <= x < now.len() implies now[x] == goal[x] by {
                    if x != i {
                        assert(now[x] == before.artists[x]);
                    }
                }
                assert(now =~= goal);
            }
            catalog.prune_links();
            proof {
                lemma_without_song(before, i as int, j as int, k as int);
            }
        },
    }
}

/// Deletes the album with this identifier, its songs first with the playlist items that
/// refer to them. Where no such album is stored, nothing changes.
pub fn delete_album_by_id(catalog: &mut Catalog, album_id: u128)
    requires
        well_kept(old(catalog)@),
    ensures
        well_kept(final(catalog)@),
        forall|i: int, j: int|
            album_place(old(catalog)@.artists, i, j) && (#[trigger] old(catalog)@.artists[i].albums[j]).id
                == album_id ==> final(catalog)@ == without_album(old(catalog)@, i, j),
        !holds_album(old(catalog)@.artists, album_id) ==> final(catalog)@ == old(catalog)@,
{
    let ghost before = catalog@;
    match catalog.album_index(album_id) {
        None => {},
        Some((i, j)) => {
            catalog.artists[i].albums.remove(j);
            proof {
                let goal = without_album(before, i as int, j as int).artists;
                let now = catalog@.artists;
                assert(now[i as int].albums =~= goal[i as int].albums);
                assert forall|x: int| 0 <= x < now.len() implies now[x] == goal[x] by {
                    if x != i {
                        assert(now[x] == before.artists[x]);
                    }
                }
                assert(now =~= goal);
            }
            catalog.prune_links();
            proof {
                lemma_without_album(before, i as int, j as int);
            }
        },
    }
}

/// Deletes the artist with this identifier, its albums first, each with its songs and the
/// playlist items that refer to them. Where no such artist is stored, nothing changes.
pub fn delete_artist_by_id(catalog: &mut Catalog, artist_id: u128)
    requires
        well_kept(old(catalog)@),
    ensures
        well_kept(final(catalog)@),
        forall|i: int|
            0 <= i < old(catalog)@.artists.len() && (#[trigger] old(catalog)@.artists[i]).id
                == artist_id ==> final(catalog)@ == without_artist(old(catalog)@, i),
        !holds_artist(old(catalog)@.artists, artist_id) ==> final(catalog)@ == old(catalog)@,
{
    let ghost before = catalog@;
    match catalog.artist_index(artist_id) {
        None => {},
        Some(i) => {
            catalog.artists.remove(i);
            proof {
                assert(catalog@.artists =~= before.artists.remove(i as int));
            }
            catalog.prune_links();
            proof {
                lemma_without_artist(before, i as int);
                assert forall|x: int|
                    0 <= x < before.artists.len() && (#[trigger] before.artists[x]).id
                        == artist_id implies x == i by {
                    if x < i {
                        assert(before.artists[x].id < before.artists[i as int].id);
                    } else if x > i {
                        assert(before.artists[i as int].id < before.artists[x].id);
                    }
                }
            }
        },
    }
}

/// Stores a playlist item that refers to the song with this identifier, and hands out the
/// item's identifier.
pub fn add_playlist_item(catalog: &mut Catalog, playlist_id: u128, song_id: u128) -> (r: Result<
    u128,
    QueryError,
>)
    requires
        well_kept(old(catalog)@),
    ensures
        well_kept(final(catalog)@),
        match r {
            Ok(id) => {
                &&& holds_song(old(catalog)@.artists, song_id)
                &&& old(catalog)@.next_id < u128::MAX
                &&& id == old(catalog)@.next_id
                &&& final(catalog)@ == (Stored {
                    artists: old(catalog)@.artists,
                    links: old(catalog)@.links.push(PlaylistItem { id, playlist_id, song_id }),
                    next_id: (id + 1) as u128,
                })
            },
            Err(QueryError::MissingParent) => {
                &&& !holds_song(old(catalog)@.artists, song_id)
                &&& final(catalog)@ == old(catalog)@
            },
            Err(QueryError::IdentifiersExhausted) => {
                &&& holds_song(old(catalog)@.artists, song_id)
                &&& old(catalog)@.next_id == u128::MAX
                &&& final(catalog)@ == old(catalog)@
            },
        },
{
    if catalog.song_index(song_id).is_none() {
        return Err(QueryError::MissingParent);
    }
    if catalog.next_id == u128::MAX {
        return Err(QueryError::IdentifiersExhausted);
    }
    let ghost before = catalog@;
    let id = catalog.next_id;
    catalog.playlist_items.push(PlaylistItem { id, playlist_id, song_id });
    catalog.next_id = id + 1;
    proof {
        assert(catalog@.artists =~= before.artists);
        assert forall|n: int| 0 <= n < catalog@.links.len() implies holds_song(
            catalog@.artists,
            (#[trigger] catalog@.links[n]).song_id,
        ) by {
            if n < before.links.len() {
                assert(catalog@.links[n] == before.links[n]);
            }
        }
    }
    Ok(id)
}

/// The playlist items, in stored order.
pub fn get_playlist_items(catalog: &Catalog) -> (r: Vec<PlaylistItem>)
    ensures
        r@ == catalog@.links,
{
    let mut items: Vec<PlaylistItem> = Vec::new();
    let mut n: usize = 0;
    while n < catalog.playlist_items.len()
        invariant
            n <= catalog.playlist_items.len(),
            items@ == catalog@.links.take(n as int),
        decreases catalog.playlist_items.len() - n,
    {
        items.push(catalog.playlist_items[n]);
        proof {
            assert(catalog@.links.take(n + 1) =~= catalog@.links.take(n as int).push(
                catalog@.links[n as int],
            ));
        }
        n += 1;
    }
    proof {
        assert(catalog@.links.take(n as int) =~= catalog@.links);
    }
    items
}

/// The path of a stored song, as a row of its own.
#[derive(Clone, Debug, PartialEq, Eq)]
pub struct SongPath {
    pub path: String,
}

/// The paths of the songs of an album, in stored order.
pub open spec fn album_paths(album: AlbumRec) -> Seq<Key> {
    Seq::new(album.songs.len(), |k: int| album.songs[k].song.path)
}

/// The paths of the songs of the first `n` albums of an artist, album after album.
pub open spec fn artist_paths(artist: ArtistRec, n: int) -> Seq<Key>
    decreases n,
{
    if n <= 0 {
        Seq::empty()
    } else {
        artist_paths(artist, n - 1) + album_paths(artist.albums[n - 1])
    }
}

/// The paths of the songs of the first `n` artists, artist after artist.
pub open spec fn stored_paths(artists: Seq<ArtistRec>, n: int) -> Seq<Key>
    decreases n,
{
    if n <= 0 {
        Seq::empty()
    } else {
        stored_paths(artists, n - 1) + artist_paths(
            artists[n - 1],
            artists[n - 1].albums.len() as int,
        )
    }
}

/// The paths of a run of rows.
pub open spec fn paths_of(rows: Seq<SongPath>) -> Seq<Key> {
    Seq::new(rows.len(), |k: int| rows[k].path@)
}

/// The paths of all stored songs: artist after artist, album after album, in stored
/// order.
pub fn get_song_paths(catalog: &Catalog) -> (r: Vec<SongPath>)
    ensures
        paths_of(r@) == stored_paths(catalog@.artists, catalog@.artists.len() as int),
{
    let mut rows: Vec<SongPath> = Vec::new();
    let mut i: usize = 0;
    assert(paths_of(rows@) =~= stored_paths(catalog@.artists, 0));
    while i < catalog.artists.len()
        invariant
            i <= catalog.artists.len(),
            paths_of(rows@) == stored_paths(catalog@.artists, i as int),
        decreases catalog.artists.len() - i,
    {
        let ghost done = paths_of(rows@);
        let artist = &catalog.artists[i];
        let mut j: usize = 0;
        assert(paths_of(rows@) =~= done + artist_paths(artist@, 0));
        while j < artist.albums.len()
            invariant
                j <= artist.albums.len(),
                paths_of(rows@) == done + artist_paths(artist@, j as int),
            decreases artist.albums.len() - j,
        {
            let ghost so_far = paths_of(rows@);
            let album = &artist.albums[j];
            let mut k: usize = 0;
            while k < album.songs.len()
                invariant
                    k <= album.songs.len(),
                    paths_of(rows@) == so_far + album_paths(album@).take(k as int),
                decreases album.songs.len() - k,
            {
                let ghost prev = paths_of(rows@);
                rows.push(SongPath { path: album.songs[k].song.path.clone() });
                proof {
                    assert(album_paths(album@).take(k + 1) =~= album_paths(album@).take(k as int).push(
                        album_paths(album@)[k as int],
                    ));
                    assert(paths_of(rows@) =~= prev.push(album_paths(album@)[k as int]));
                    assert(paths_of(rows@) =~= so_far + album_paths(album@).take(k + 1));
                }
                k += 1;
            }
            proof {
                assert(album_paths(album@).take(k as int) =~= album_paths(album@));
                assert(artist@.albums[j as int] == album@);
                assert(paths_of(rows@) =~= done + artist_paths(artist@, j + 1));
            }
            j += 1;
        }
        proof {
            assert(catalog@.artists[i as int] == artist@);
        }
        i += 1;
    }
    rows
}

/// The songs of one batch, column by column, as a database takes them in one statement.
#[derive(Debug, PartialEq, Eq)]
pub struct SongColumns {
    pub title: Vec<String>,
    pub path: Vec<String>,
    pub genre: Vec<String>,
    pub suffix: Vec<String>,
    pub content_type: Vec<String>,
    pub track: Vec<i32>,
    pub duration: Vec<i32>,
    pub album_id: Vec<u128>,
    pub disc_number: Vec<i32>,
}

/// Whether the columns hold these songs, row for row, each under this album.
pub open spec fn columns_hold(columns: SongColumns, album_id: u128, songs: Seq<DiskSong>) -> bool {
    &&& columns.title@.len() == songs.len()
    &&& columns.path@.len() == songs.len()
    &&& columns.genre@.len() == songs.len()
    &&& columns.suffix@.len() == songs.len()
    &&& columns.content_type@.len() == songs.len()
    &&& columns.track@.len() == songs.len()
    &&& columns.duration@.len() == songs.len()
    &&& columns.album_id@.len() == songs.len()
    &&& columns.disc_number@.len() == songs.len()
    &&& forall|n: int|
        0 <= n < songs.len() ==> (#[trigger] songs[n]) == (DiskSong {
            title: columns.title@[n]@,
            duration: columns.duration@[n],
            track: columns.track@[n],
            path: columns.path@[n]@,
            genre: columns.genre@[n]@,
            suffix: columns.suffix@[n]@,
            content_type: columns.content_type@[n]@,
            disc_number: columns.disc_number@[n],
        }) && columns.album_id@[n] == album_id
}

/// Lays a batch of songs out column by column, each song under this album.
pub fn song_columns(album_id: u128, songs: &Vec<SongModel>) -> (columns: SongColumns)
    ensures
        columns_hold(columns, album_id, crate::tree::songs_of(songs@)),
{
    let mut columns = SongColumns {
        title: Vec::new(),
        path: Vec::new(),
        genre: Vec::new(),
        suffix: Vec::new(),
        content_type: Vec::new(),
        track: Vec::new(),
        duration: Vec::new(),
        album_id: Vec::new(),
        disc_number: Vec::new(),
    };
    let mut n: usize = 0;
    while n < songs.len()
        invariant
            n <= songs.len(),
            columns_hold(columns, album_id, crate::tree::songs_of(songs@).take(n as int)),
        decreases songs.len() - n,
    {
        let song = &songs[n];
        columns.title.push(song.title.clone());
        columns.path.push(song.path.clone());
        columns.genre.push(song.genre.clone());
        columns.suffix.push(song.suffix.clone());
        columns.content_type.push(song.content_type.clone());
        columns.track.push(song.track);
        columns.duration.push(song.duration);
        columns.album_id.push(album_id);
        columns.disc_number.push(song.disc_number);
        proof {
            let all = crate::tree::songs_of(songs@);
            assert(all.take(n + 1) =~= all.take(n as int).push(all[n as int]));
        }
        n += 1;
    }
    proof {
        let all = crate::tree::songs_of(songs@);
        assert(all.take(n as int) =~= all);
    }
    columns
}

/// All stored artists, in stored order.
pub fn get_all_artists(catalog: &Catalog) -> (rows: Vec<Artist>)
    ensures
        rows@.len() == catalog@.artists.len(),
        forall|i: int| 0 <= i < rows@.len() ==> shows_artist(#[trigger] rows@[i], catalog@.artists[i]),
{
    let mut rows: Vec<Artist> = Vec::new();
    let mut i: usize = 0;
    while i < catalog.artists.len()
        invariant
            i <= catalog.artists.len(),
            rows@.len() == i,
            forall|x: int| 0 <= x < i ==> shows_artist(#[trigger] rows@[x], catalog@.artists[x]),
        decreases catalog.artists.len() - i,
    {
        let node = &catalog.artists[i];
        rows.push(Artist { id: node.id, name: node.name.clone(), album_count: shown(node.albums.len()) });
        i += 1;
    }
    rows
}

/// The artist with this identifier, if one is stored.
pub fn get_artist_by_id(catalog: &Catalog, artist_id: u128) -> (r: Option<Artist>)
    requires
        well_kept(catalog@),
    ensures
        match r {
            Some(row) => row.id == artist_id && exists|i: int|
                0 <= i < catalog@.artists.len() && shows_artist(row, #[trigger] catalog@.artists[i]),
            None => !holds_artist(catalog@.artists, artist_id),
        },
{
    match catalog.artist_index(artist_id) {
        Some(i) => {
            let node = &catalog.artists[i];
            let row = Artist { id: node.id, name: node.name.clone(), album_count: shown(node.albums.len()) };
            assert(shows_artist(row, catalog@.artists[i as int]));
            Some(row)
        },
        None => None,
    }
}

/// Whether an artist of this name is stored.
pub open spec fn holds_artist_named(artists: Seq<ArtistRec>, name: Key) -> bool {
    exists|i: int| 0 <= i < artists.len() && (#[trigger] artists[i]).name == name
}

/// The first stored artist of this name, if one is stored.
pub fn get_artist_by_name(catalog: &Catalog, artist_name: &String) -> (r: Option<Artist>)
    ensures
        match r {
            Some(row) => row.name@ == artist_name@ && exists|i: int|
                0 <= i < catalog@.artists.len() && shows_artist(row, #[trigger] catalog@.artists[i])
                    && forall|x: int| 0 <= x < i ==> catalog@.artists[x].name != artist_name@,
            None => !holds_artist_named(catalog@.artists, artist_name@),
        },
{
    let mut i: usize = 0;
    while i < catalog.artists.len()
        invariant
            i <= catalog.artists.len(),
            forall|x: int| 0 <= x < i ==> (#[trigger] catalog@.artists[x]).name != artist_name@,
        decreases catalog.artists.len() - i,
    {
        let node = &catalog.artists[i];
        if node.name == *artist_name {
            let row = Artist { id: node.id, name: node.name.clone(), album_count: shown(node.albums.len()) };
            assert(shows_artist(row, catalog@.artists[i as int]));
            return Some(row);
        }
        i += 1;
    }
    None
}

/// The album with this identifier, if one is stored.
pub fn get_album_by_id(catalog: &Catalog, album_id: u128) -> (r: Option<Album>)
    requires
        well_kept(catalog@),
    ensures
        match r {
            Some(row) => row.id == album_id && exists|i: int, j: int|
                album_place(catalog@.artists, i, j) && shows_album(
                    row,
                    #[trigger] catalog@.artists[i].albums[j],
                    catalog@.artists[i].id,
                ),
            None => !holds_album(catalog@.artists, album_id),
        },
{
    match catalog.album_index(album_id) {
        Some((i, j)) => {
            let node = &catalog.artists[i].albums[j];
            let row = Album {
                id: node.id,
                name: node.name.clone(),
                year: node.year,
                song_count: shown(node.songs.len()),
                artist_id: catalog.artists[i].id,
            };
            assert(shows_album(row, catalog@.artists[i as int].albums[j as int], catalog@.artists[i as int].id));
            Some(row)
        },
        None => None,
    }
}

/// The song with this identifier, if one is stored.
pub fn get_song_by_id(catalog: &Catalog, song_id: u128) -> (r: Option<Song>)
    requires
        well_kept(catalog@),
    ensures
        match r {
            Some(row) => row.id == song_id && exists|i: int, j: int, k: int|
                song_place(catalog@.artists, i, j, k) && shows_song(
                    row,
                    #[trigger] catalog@.artists[i].albums[j].songs[k],
                    catalog@.artists[i].albums[j].id,
                ),
            None => !holds_song(catalog@.artists, song_id),
        },
{
    match catalog.song_index(song_id) {
        Some((i, j, k)) => {
            let node = &catalog.artists[i].albums[j].songs[k];
            let row = Song {
                id: node.id,
                title: node.song.title.clone(),
                path: node.song.path.clone(),
                genre: node.song.genre.clone(),
                suffix: node.song.suffix.clone(),
                content_type: node.song.content_type.clone(),
                track: node.song.track,
                duration: node.song.duration,
                album_id: catalog.artists[i].albums[j].id,
                disc_number: node.song.disc_number,
            };
            assert(shows_song(
                row,
                catalog@.artists[i as int].albums[j as int].songs[k as int],
                catalog@.artists[i as int].albums[j as int].id,
            ));
            Some(row)
        },
        None => None,
    }
}

} // verus!
