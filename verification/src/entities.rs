//! The records of the catalog: what a file on disk yields, and what is stored.

use vstd::prelude::*;

verus! {

/// A song as found on disk. Its `path` is its identity; it carries no identifier.
#[derive(Debug, PartialEq, Eq, Hash)]
pub struct SongModel {
    pub title: String,
    pub duration: i32,
    pub track: i32,
    pub path: String,
    pub genre: String,
    pub suffix: String,
    pub content_type: String,
    pub disc_number: i32,
}

/// The mathematical value of a [`SongModel`].
pub struct DiskSong {
    pub title: Seq<char>,
    pub duration: i32,
    pub track: i32,
    pub path: Seq<char>,
    pub genre: Seq<char>,
    pub suffix: Seq<char>,
    pub content_type: Seq<char>,
    pub disc_number: i32,
}

impl View for SongModel {
    type V = DiskSong;

    open spec fn view(&self) -> DiskSong {
        DiskSong {
            title: self.title@,
            duration: self.duration,
            track: self.track,
            path: self.path@,
            genre: self.genre@,
            suffix: self.suffix@,
            content_type: self.content_type@,
            disc_number: self.disc_number,
        }
    }
}

impl Clone for SongModel {
    fn clone(&self) -> (r: Self)
        ensures
            r@ == self@,
    {
        SongModel {
            title: self.title.clone(),
            duration: self.duration,
            track: self.track,
            path: self.path.clone(),
            genre: self.genre.clone(),
            suffix: self.suffix.clone(),
            content_type: self.content_type.clone(),
            disc_number: self.disc_number,
        }
    }
}

/// A stored song row.
#[derive(Debug, PartialEq, Eq, Hash)]
pub struct Song {
    pub id: u128,
    pub title: String,
    pub path: String,
    pub genre: String,
    pub suffix: String,
    pub content_type: String,
    pub track: i32,
    pub duration: i32,
    pub album_id: u128,
    pub disc_number: i32,
}

impl Song {
    /// What the row holds beside its identifiers.
    pub open spec fn data(&self) -> DiskSong {
        DiskSong {
            title: self.title@,
            duration: self.duration,
            track: self.track,
            path: self.path@,
            genre: self.genre@,
            suffix: self.suffix@,
            content_type: self.content_type@,
            disc_number: self.disc_number,
        }
    }
}

/// A stored album row. `song_count` is the number of song rows under it.
#[derive(Debug, PartialEq, Eq, Hash)]
pub struct Album {
    pub id: u128,
    pub name: String,
    pub year: i32,
    pub song_count: i32,
    pub artist_id: u128,
}

/// A stored artist row. `album_count` is the number of album rows under it.
#[derive(Debug, PartialEq, Eq, Hash)]
pub struct Artist {
    pub id: u128,
    pub name: String,
    pub album_count: i32,
}

/// An album as found on disk, known under its artist by `name` alone.
#[derive(Debug, PartialEq, Eq, Hash)]
pub struct AlbumModel {
    pub name: String,
    pub year: i32,
}

impl Clone for AlbumModel {
    fn clone(&self) -> (r: Self)
        ensures
            r.name@ == self.name@,
            r.year == self.year,
    {
        AlbumModel { name: self.name.clone(), year: self.year }
    }
}

/// An artist as found on disk, known by `name` alone.
#[derive(Debug, PartialEq, Eq, Hash)]
pub struct ArtistModel {
    pub name: String,
}

impl Clone for ArtistModel {
    fn clone(&self) -> (r: Self)
        ensures
            r.name@ == self.name@,
    {
        ArtistModel { name: self.name.clone() }
    }
}

/// A user as the catalog knows it: a name and the password it was given.
#[derive(Debug, PartialEq, Eq, Hash)]
pub struct UserModel {
    pub username: String,
    pub password: String,
}

} // verus!
