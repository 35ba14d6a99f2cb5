//! The tree of what is on disk: artists, their albums, and each album's songs.

use crate::entities::{AlbumModel, ArtistModel, DiskSong, SongModel};
use crate::keys::{distinct, lemma_distinct_by_position, lemma_position, position, Key};
use vstd::prelude::*;

verus! {

/// An album on disk with its songs, in the order in which they were added.
#[derive(Debug, PartialEq, Eq)]
pub struct AlbumEntry {
    pub album: AlbumModel,
    pub songs: Vec<SongModel>,
}

/// An artist on disk with its albums, in the order in which they were first met.
#[derive(Debug, PartialEq, Eq)]
pub struct ArtistEntry {
    pub artist: ArtistModel,
    pub albums: Vec<AlbumEntry>,
}

/// Everything found on disk, artist by artist in the order in which they were first met.
#[derive(Debug, PartialEq, Eq)]
pub struct DiskTree {
    pub artists: Vec<ArtistEntry>,
}

/// The mathematical value of an [`AlbumEntry`].
pub struct DiskAlbum {
    pub name: Key,
    pub year: i32,
    pub songs: Seq<DiskSong>,
}

/// The mathematical value of an [`ArtistEntry`].
pub struct DiskArtist {
    pub name: Key,
    pub albums: Seq<DiskAlbum>,
}

/// The values of a run of songs.
pub open spec fn songs_of(songs: Seq<SongModel>) -> Seq<DiskSong> {
    Seq::new(songs.len(), |k: int| songs[k]@)
}

/// The values of a run of album entries.
pub open spec fn albums_of(albums: Seq<AlbumEntry>) -> Seq<DiskAlbum> {
    Seq::new(albums.len(), |j: int| albums[j]@)
}

/// The values of a run of artist entries.
pub open spec fn artists_of(artists: Seq<ArtistEntry>) -> Seq<DiskArtist> {
    Seq::new(artists.len(), |i: int| artists[i]@)
}

impl View for AlbumEntry {
    type V = DiskAlbum;

    open spec fn view(&self) -> DiskAlbum {
        DiskAlbum { name: self.album.name@, year: self.album.year, songs: songs_of(self.songs@) }
    }
}

impl View for ArtistEntry {
    type V = DiskArtist;

    open spec fn view(&self) -> DiskArtist {
        DiskArtist { name: self.artist.name@, albums: albums_of(self.albums@) }
    }
}

impl View for DiskTree {
    type V = Seq<DiskArtist>;

    open spec fn view(&self) -> Seq<DiskArtist> {
        artists_of(self.artists@)
    }
}

/// The paths of an album's songs, in order.
pub open spec fn song_paths(album: DiskAlbum) -> Seq<Key> {
    Seq::new(album.songs.len(), |k: int| album.songs[k].path)
}

/// The names of an artist's albums, in order.
pub open spec fn album_names(artist: DiskArtist) -> Seq<Key> {
    Seq::new(artist.albums.len(), |j: int| artist.albums[j].name)
}

/// The names of a tree's artists, in order.
pub open spec fn artist_names(tree: Seq<DiskArtist>) -> Seq<Key> {
    Seq::new(tree.len(), |i: int| tree[i].name)
}

/// An album is well formed when no two of its songs share a path.
pub open spec fn album_well_formed(album: DiskAlbum) -> bool {
    distinct(song_paths(album))
}

/// An artist is well formed when no two of its albums share a name and each album is well
/// formed.
pub open spec fn artist_well_formed(artist: DiskArtist) -> bool {
    &&& distinct(album_names(artist))
    &&& forall|j: int| 0 <= j < artist.albums.len() ==> album_well_formed(#[trigger] artist.albums[j])
}

/// A tree is well formed when no two of its artists share a name and each artist is well
/// formed.
pub open spec fn well_formed(tree: Seq<DiskArtist>) -> bool {
    &&& distinct(artist_names(tree))
    &&& forall|i: int| 0 <= i < tree.len() ==> artist_well_formed(#[trigger] tree[i])
}

impl AlbumEntry {
    /// Where the song with this path stands in the album.
    pub fn find_song(&self, path: &String) -> (r: Option<usize>)
        ensures
            match r {
                Some(k) => position(song_paths(self@), path@) == Some(k as int),
                None => position(song_paths(self@), path@) is None,
            },
    {
        let mut k: usize = 0;
        while k < self.songs.len()
            invariant
                k <= self.songs.len(),
                forall|x: int| 0 <= x < k ==> song_paths(self@)[x] != path@,
            decreases self.songs.len() - k,
        {
            if self.songs[k].path == *path {
                proof {
                    lemma_position(song_paths(self@), path@);
                    assert(song_paths(self@)[k as int] == path@);
                }
                return Some(k);
            }
            k += 1;
        }
        proof {
            lemma_position(song_paths(self@), path@);
        }
        None
    }
}

impl ArtistEntry {
    /// Where the album with this name stands under the artist.
    pub fn find_album(&self, name: &String) -> (r: Option<usize>)
        ensures
            match r {
                Some(j) => position(album_names(self@), name@) == Some(j as int),
                None => position(album_names(self@), name@) is None,
            },
    {
        let mut j: usize = 0;
        while j < self.albums.len()
            invariant
                j <= self.albums.len(),
                forall|x: int| 0 <= x < j ==> album_names(self@)[x] != name@,
            decreases self.albums.len() - j,
        {
            if self.albums[j].album.name == *name {
                proof {
                    lemma_position(album_names(self@), name@);
                    assert(album_names(self@)[j as int] == name@);
                }
                return Some(j);
            }
            j += 1;
        }
        proof {
            lemma_position(album_names(self@), name@);
        }
        None
    }
}

impl DiskTree {
    /// A tree with nothing in it.
    pub fn new() -> (r: Self)
        ensures
            r@ == Seq::<DiskArtist>::empty(),
    {
        let r = DiskTree { artists: Vec::new() };
        assert(r@ =~= Seq::<DiskArtist>::empty());
        r
    }

    /// Where the artist with this name stands in the tree.
    pub fn find_artist(&self, name: &String) -> (r: Option<usize>)
        ensures
            match r {
                Some(i) => position(artist_names(self@), name@) == Some(i as int),
                None => position(artist_names(self@), name@) is None,
            },
    {
        let mut i: usize = 0;
        while i < self.artists.len()
            invariant
                i <= self.artists.len(),
                forall|x: int| 0 <= x < i ==> artist_names(self@)[x] != name@,
            decreases self.artists.len() - i,
        {
            if self.artists[i].artist.name == *name {
                proof {
                    lemma_position(artist_names(self@), name@);
                    assert(artist_names(self@)[i as int] == name@);
                }
                return Some(i);
            }
            i += 1;
        }
        proof {
            lemma_position(artist_names(self@), name@);
        }
        None
    }
}

impl AlbumEntry {
    /// Whether no two songs of the album share a path.
    pub fn is_well_formed(&self) -> (r: bool)
        ensures
            r == album_well_formed(self@),
    {
        let ghost keys = song_paths(self@);
        proof {
            lemma_distinct_by_position(keys);
        }
        let mut k: usize = 0;
        while k < self.songs.len()
            invariant
                k <= self.songs.len(),
                keys == song_paths(self@),
                forall|x: int| 0 <= x < k ==> position(keys, #[trigger] keys[x]) == Some(x),
            decreases self.songs.len() - k,
        {
            let found = self.find_song(&self.songs[k].path);
            proof {
                assert(keys[k as int] == self.songs[k as int].path@);
                lemma_distinct_by_position(keys);
                lemma_position(keys, keys[k as int]);
            }
            match found {
                Some(at) => {
                    if at != k {
                        return false;
                    }
                },
                None => {
                    return false;
                },
            }
            k += 1;
        }
        proof {
            lemma_distinct_by_position(keys);
        }
        true
    }
}

impl ArtistEntry {
    /// Whether no two albums of the artist share a name, and each album is well formed.
    pub fn is_well_formed(&self) -> (r: bool)
        ensures
            r == artist_well_formed(self@),
    {
        let ghost keys = album_names(self@);
        proof {
            lemma_distinct_by_position(keys);
        }
        let mut j: usize = 0;
        while j < self.albums.len()
            invariant
                j <= self.albums.len(),
                keys == album_names(self@),
                forall|x: int| 0 <= x < j ==> position(keys, #[trigger] keys[x]) == Some(x),
                forall|x: int| 0 <= x < j ==> album_well_formed(#[trigger] self@.albums[x]),
            decreases self.albums.len() - j,
        {
            let found = self.find_album(&self.albums[j].album.name);
            proof {
                assert(keys[j as int] == self.albums[j as int].album.name@);
                assert(self@.albums[j as int] == self.albums[j as int]@);
                lemma_distinct_by_position(keys);
                lemma_position(keys, keys[j as int]);
            }
            match found {
                Some(at) => {
                    if at != j {
                        return false;
                    }
                },
                None => {
                    return false;
                },
            }
            if !self.albums[j].is_well_formed() {
                return false;
            }
            j += 1;
        }
        proof {
            lemma_distinct_by_position(keys);
        }
        true
    }
}

impl DiskTree {
    /// Whether no two artists share a name, and each artist is well formed.
    pub fn is_well_formed(&self) -> (r: bool)
        ensures
            r == well_formed(self@),
    {
        let ghost keys = artist_names(self@);
        proof {
            lemma_distinct_by_position(keys);
        }
        let mut i: usize = 0;
        while i < self.artists.len()
            invariant
                i <= self.artists.len(),
                keys == artist_names(self@),
                forall|x: int| 0 <= x < i ==> position(keys, #[trigger] keys[x]) == Some(x),
                forall|x: int| 0 <= x < i ==> artist_well_formed(#[trigger] self@[x]),
            decreases self.artists.len() - i,
        {
            let found = self.find_artist(&self.artists[i].artist.name);
            proof {
                assert(keys[i as int] == self.artists[i as int].artist.name@);
                assert(self@[i as int] == self.artists[i as int]@);
                lemma_distinct_by_position(keys);
                lemma_position(keys, keys[i as int]);
            }
            match found {
                Some(at) => {
                    if at != i {
                        return false;
                    }
                },
                None => {
                    return false;
                },
            }
            if !self.artists[i].is_well_formed() {
                return false;
            }
            i += 1;
        }
        proof {
            lemma_distinct_by_position(keys);
        }
        true
    }
}

} // verus!
