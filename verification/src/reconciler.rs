//! The reconciliation as a machine: it asks for one operation on the stored catalog at a
//! time and, told how that ended, decides the next, until the catalog holds what is on
//! disk. Whoever runs it performs the operations; the machine reads no catalog itself.

use crate::entities::{Album, AlbumModel, Artist, ArtistModel, DiskSong, Song, SongModel};
use crate::keys::{position, unseen, Key};
use crate::plan::{missing, row_keys, song_rows, stale, RowKey};
use crate::tree::{
    album_names, artist_names, song_paths, well_formed, DiskAlbum, DiskArtist, DiskTree,
};
use vstd::prelude::*;

verus! {

/// The number of artist rows asked for at a time.
pub const PAGE_SIZE: usize = 50;

/// An operation on the stored catalog that the machine asks for, or the end of the run.
#[derive(Debug, PartialEq, Eq)]
pub enum Action {
    /// Read the next [`PAGE_SIZE`] artists that follow the identifier `after`.
    ListArtists { after: Option<u128> },
    /// Read the albums of an artist.
    ListAlbums { artist_id: u128 },
    /// Read the songs of an album.
    ListSongs { album_id: u128 },
    /// Store a new artist.
    AddArtist { artist: ArtistModel },
    /// Store a new album under an artist.
    AddAlbum { artist_id: u128, album: AlbumModel },
    /// Store new songs under an album, all at once.
    AddSongs { album_id: u128, songs: Vec<SongModel> },
    /// Delete a song and what refers to it.
    DeleteSong { id: u128 },
    /// Delete an album and everything below it.
    DeleteAlbum { id: u128 },
    /// Delete an artist and everything below it.
    DeleteArtist { id: u128 },
    /// Nothing is left to do.
    Finish,
    /// The run ends early: an operation failed, or an answer did not fit the question.
    Abort,
}

/// The mathematical value of an [`Action`].
pub enum Request {
    ListArtists { after: Option<u128> },
    ListAlbums { artist_id: u128 },
    ListSongs { album_id: u128 },
    AddArtist { name: Key },
    AddAlbum { artist_id: u128, name: Key, year: i32 },
    AddSongs { album_id: u128, songs: Seq<DiskSong> },
    DeleteSong { id: u128 },
    DeleteAlbum { id: u128 },
    DeleteArtist { id: u128 },
    Finish,
    Abort,
}

impl View for Action {
    type V = Request;

    open spec fn view(&self) -> Request {
        match *self {
            Action::ListArtists { after } => Request::ListArtists { after },
            Action::ListAlbums { artist_id } => Request::ListAlbums { artist_id },
            Action::ListSongs { album_id } => Request::ListSongs { album_id },
            Action::AddArtist { artist } => Request::AddArtist { name: artist.name@ },
            Action::AddAlbum { artist_id, album } => Request::AddAlbum {
                artist_id,
                name: album.name@,
                year: album.year,
            },
            Action::AddSongs { album_id, songs } => Request::AddSongs {
                album_id,
                songs: crate::tree::songs_of(songs@),
            },
            Action::DeleteSong { id } => Request::DeleteSong { id },
            Action::DeleteAlbum { id } => Request::DeleteAlbum { id },
            Action::DeleteArtist { id } => Request::DeleteArtist { id },
            Action::Finish => Request::Finish,
            Action::Abort => Request::Abort,
        }
    }
}

/// How the operation that the machine asked for ended.
#[derive(Debug, PartialEq, Eq)]
#[allow(inconsistent_fields)]
pub enum Event {
    /// A page of artists, and whether artists follow it.
    Artists { rows: Vec<Artist>, has_more: bool },
    /// The albums of the artist asked about.
    Albums { rows: Vec<Album> },
    /// The songs of the album asked about.
    Songs { rows: Vec<Song> },
    /// The identifier of the row that was stored.
    Added { id: u128 },
    /// Songs were stored, or a row was deleted.
    Done,
    /// The operation failed.
    Failed,
}

/// The mathematical value of an [`Event`]: of each row, what matching reads.
pub enum Reply {
    Artists { rows: Seq<RowKey>, has_more: bool },
    Albums { rows: Seq<RowKey> },
    Songs { rows: Seq<RowKey> },
    Added { id: u128 },
    Done,
    Failed,
}

/// Artist rows as matching reads them: by name.
pub open spec fn artist_rows(rows: Seq<Artist>) -> Seq<RowKey> {
    Seq::new(rows.len(), |k: int| RowKey { id: rows[k].id, key: rows[k].name@ })
}

/// Album rows as matching reads them: by name.
pub open spec fn album_rows(rows: Seq<Album>) -> Seq<RowKey> {
    Seq::new(rows.len(), |k: int| RowKey { id: rows[k].id, key: rows[k].name@ })
}

impl View for Event {
    type V = Reply;

    open spec fn view(&self) -> Reply {
        match *self {
            Event::Artists { rows, has_more } => Reply::Artists { rows: artist_rows(rows@), has_more },
            Event::Albums { rows } => Reply::Albums { rows: album_rows(rows@) },
            Event::Songs { rows } => Reply::Songs { rows: song_rows(rows@) },
            Event::Added { id } => Reply::Added { id },
            Event::Done => Reply::Done,
            Event::Failed => Reply::Failed,
        }
    }
}

/// What the machine waits for.
#[derive(Clone, Copy, Debug, PartialEq, Eq)]
pub enum Awaiting {
    /// A page of artists.
    Page,
    /// The deletion of the artist row under the cursor.
    ArtistGone,
    /// The albums of the artist row under the cursor, which is on disk.
    Albums,
    /// The deletion of the album row under the cursor.
    AlbumGone,
    /// The songs of the album row under the cursor, which is on disk.
    Songs,
    /// The deletion of a song row.
    SongGone,
    /// The storing of a batch of songs.
    SongsAdded,
    /// The identifier of a new album.
    AlbumAdded,
    /// The identifier of a new artist.
    ArtistAdded,
    /// Nothing: the run has ended.
    Nothing,
}

/// How many operations that write the machine has asked for.
#[derive(Clone, Copy, Debug, PartialEq, Eq)]
pub struct SyncReport {
    /// Inserts of an artist, of an album or of a batch of songs.
    pub inserts: u64,
    /// Deletes of an artist, of an album or of a song.
    pub deletes: u64,
}

/// One more, up to the largest number.
pub open spec fn bump(n: u64) -> u64 {
    if n == u64::MAX {
        n
    } else {
        (n + 1) as u64
    }
}

/// The mathematical value of the machine's state.
pub struct Progress {
    pub awaiting: Awaiting,
    /// Whether the run ended early.
    pub failed: bool,
    /// Of each artist on disk, whether a stored artist stands for it.
    pub artist_seen: Seq<bool>,
    /// The page of artist rows under work and the place of the cursor in it.
    pub page: Seq<RowKey>,
    pub page_pos: int,
    pub more_pages: bool,
    /// Whether stored artists are still being read; after that, new ones are added.
    pub scanning: bool,
    /// The identifier of the last artist row that the cursor has passed.
    pub passed: Option<u128>,
    /// The artists on disk that are to be added, and the place of the cursor among them.
    pub new_artists: Seq<int>,
    pub new_artist_pos: int,
    /// The artist under work: its place on disk and its stored identifier.
    pub artist: int,
    pub artist_id: u128,
    /// How many stored artists are done with.
    pub kept_artists: nat,
    /// How many artist rows the cursor has passed, over all pages.
    pub rows_passed: nat,
    /// Of each album of the artist under work, whether a stored album stands for it.
    pub album_seen: Seq<bool>,
    /// The album rows of the artist under work and the place of the cursor among them.
    pub albums: Seq<RowKey>,
    pub album_pos: int,
    /// Whether stored albums are still being gone through; after that, new ones are added.
    pub listing: bool,
    /// The albums on disk that are to be added, and the place of the cursor among them.
    pub new_albums: Seq<int>,
    pub new_album_pos: int,
    /// The album under work: its place under its artist on disk and its stored identifier.
    pub album: int,
    pub album_id: u128,
    /// How many stored albums of the artist under work are done with.
    pub kept_albums: nat,
    /// The song rows of the album under work, as they were read.
    pub songs: Seq<RowKey>,
    /// The identifiers of the song rows to delete, and the place of the cursor among them.
    pub song_deletes: Seq<u128>,
    pub song_delete_pos: int,
    /// The songs to add to the album under work.
    pub song_adds: Seq<DiskSong>,
    pub inserts: u64,
    pub deletes: u64,
}

/// The state in which the run has ended early.
pub open spec fn aborted(p: Progress) -> (Progress, Request) {
    (Progress { awaiting: Awaiting::Nothing, failed: true, ..p }, Request::Abort)
}

/// Goes on with the artists that are to be added: asks for the next to be stored, or ends
/// the run when none is left.
#[verifier::opaque]
pub open spec fn add_artists(p: Progress, t: Seq<DiskArtist>) -> (Progress, Request) {
    if 0 <= p.new_artist_pos < p.new_artists.len() {
        let j = p.new_artists[p.new_artist_pos];
        (
            Progress { awaiting: Awaiting::ArtistAdded, artist: j, inserts: bump(p.inserts), ..p },
            Request::AddArtist { name: t[j].name },
        )
    } else {
        (Progress { awaiting: Awaiting::Nothing, ..p }, Request::Finish)
    }
}

/// Goes on at the cursor among the stored artists. A row whose name is on disk, and for
/// which no earlier row stands, stays, and its albums are asked for; any other row is
/// deleted. After the last row of a page the next page is asked for; after the last
/// page, the artists on disk for which no row stands are added.
#[verifier::opaque]
pub open spec fn resume_artists(p: Progress, t: Seq<DiskArtist>) -> (Progress, Request) {
    if !p.scanning {
        add_artists(p, t)
    } else if 0 <= p.page_pos < p.page.len() {
        let row = p.page[p.page_pos];
        match position(artist_names(t), row.key) {
            Some(j) if !p.artist_seen[j] => (
                Progress {
                    awaiting: Awaiting::Albums,
                    artist_seen: p.artist_seen.update(j, true),
                    artist: j,
                    artist_id: row.id,
                    ..p
                },
                Request::ListAlbums { artist_id: row.id },
            ),
            _ => (
                Progress { awaiting: Awaiting::ArtistGone, deletes: bump(p.deletes), ..p },
                Request::DeleteArtist { id: row.id },
            ),
        }
    } else if p.more_pages {
        if p.page.len() == 0 {
            aborted(p)
        } else {
            (Progress { awaiting: Awaiting::Page, ..p }, Request::ListArtists { after: p.passed })
        }
    } else {
        add_artists(
            Progress { scanning: false, new_artists: unseen(p.artist_seen), new_artist_pos: 0, ..p },
            t,
        )
    }
}

/// Leaves the artist under work and goes on with the next.
#[verifier::opaque]
pub open spec fn finish_artist(p: Progress, t: Seq<DiskArtist>) -> (Progress, Request) {
    if p.scanning {
        resume_artists(
            Progress {
                page_pos: p.page_pos + 1,
                passed: Some(p.artist_id),
                kept_artists: p.kept_artists + 1,
                rows_passed: p.rows_passed + 1,
                ..p
            },
            t,
        )
    } else {
        resume_artists(
            Progress {
                new_artist_pos: p.new_artist_pos + 1,
                kept_artists: p.kept_artists + 1,
                ..p
            },
            t,
        )
    }
}

/// Goes on with the albums that are to be added under the artist under work: asks for
/// the next to be stored, or leaves the artist when none is left.
#[verifier::opaque]
pub open spec fn add_albums(p: Progress, t: Seq<DiskArtist>) -> (Progress, Request) {
    if 0 <= p.new_album_pos < p.new_albums.len() {
        let l = p.new_albums[p.new_album_pos];
        (
            Progress { awaiting: Awaiting::AlbumAdded, album: l, inserts: bump(p.inserts), ..p },
            Request::AddAlbum {
                artist_id: p.artist_id,
                name: t[p.artist].albums[l].name,
                year: t[p.artist].albums[l].year,
            },
        )
    } else {
        finish_artist(p, t)
    }
}

/// Goes on at the cursor among the stored albums of the artist under work. A row whose
/// name is on disk under that artist, and for which no earlier row stands, stays, and
/// its songs are asked for; any other row is deleted. After the last row, the albums on
/// disk for which no row stands are added.
#[verifier::opaque]
pub open spec fn resume_albums(p: Progress, t: Seq<DiskArtist>) -> (Progress, Request) {
    if !p.listing {
        add_albums(p, t)
    } else if 0 <= p.album_pos < p.albums.len() {
        let row = p.albums[p.album_pos];
        match position(album_names(t[p.artist]), row.key) {
            Some(l) if !p.album_seen[l] => (
                Progress {
                    awaiting: Awaiting::Songs,
                    album_seen: p.album_seen.update(l, true),
                    album: l,
                    album_id: row.id,
                    ..p
                },
                Request::ListSongs { album_id: row.id },
            ),
            _ => (
                Progress { awaiting: Awaiting::AlbumGone, deletes: bump(p.deletes), ..p },
                Request::DeleteAlbum { id: row.id },
            ),
        }
    } else {
        add_albums(
            Progress { listing: false, new_albums: unseen(p.album_seen), new_album_pos: 0, ..p },
            t,
        )
    }
}

/// Leaves the album under work and goes on with the next.
#[verifier::opaque]
pub open spec fn finish_album(p: Progress, t: Seq<DiskArtist>) -> (Progress, Request) {
    if p.listing {
        resume_albums(
            Progress { album_pos: p.album_pos + 1, kept_albums: p.kept_albums + 1, ..p },
            t,
        )
    } else {
        resume_albums(
            Progress { new_album_pos: p.new_album_pos + 1, kept_albums: p.kept_albums + 1, ..p },
            t,
        )
    }
}

/// Goes on with the songs of the album under work: the rows to delete one by one, then
/// the songs to add in one batch, then the next album.
#[verifier::opaque]
pub open spec fn resume_songs(p: Progress, t: Seq<DiskArtist>) -> (Progress, Request) {
    if 0 <= p.song_delete_pos < p.song_deletes.len() {
        (
            Progress { awaiting: Awaiting::SongGone, deletes: bump(p.deletes), ..p },
            Request::DeleteSong { id: p.song_deletes[p.song_delete_pos] },
        )
    } else if p.song_adds.len() > 0 {
        (
            Progress { awaiting: Awaiting::SongsAdded, inserts: bump(p.inserts), ..p },
            Request::AddSongs { album_id: p.album_id, songs: p.song_adds },
        )
    } else {
        finish_album(p, t)
    }
}

/// The state before the first answer, and the first request: the first page of artists.
pub open spec fn begin(t: Seq<DiskArtist>) -> (Progress, Request) {
    (
        Progress {
            awaiting: Awaiting::Page,
            failed: false,
            artist_seen: Seq::new(t.len(), |j: int| false),
            page: Seq::empty(),
            page_pos: 0,
            more_pages: false,
            scanning: true,
            passed: None,
            new_artists: Seq::empty(),
            new_artist_pos: 0,
            artist: 0,
            artist_id: 0,
            kept_artists: 0,
            rows_passed: 0,
            album_seen: Seq::empty(),
            albums: Seq::empty(),
            album_pos: 0,
            listing: false,
            new_albums: Seq::empty(),
            new_album_pos: 0,
            album: 0,
            album_id: 0,
            kept_albums: 0,
            songs: Seq::empty(),
            song_deletes: Seq::empty(),
            song_delete_pos: 0,
            song_adds: Seq::empty(),
            inserts: 0,
            deletes: 0,
        },
        Request::ListArtists { after: None },
    )
}

/// The state with a page of artist rows taken in: the cursor stands at its first row.
pub open spec fn after_page(p: Progress, rows: Seq<RowKey>, has_more: bool) -> Progress {
    Progress { page: rows, page_pos: 0, more_pages: has_more, ..p }
}

/// The state with the artist row under the cursor deleted: the cursor has passed it.
pub open spec fn after_artist_gone(p: Progress) -> Progress {
    Progress {
        page_pos: p.page_pos + 1,
        passed: Some(p.page[p.page_pos].id),
        rows_passed: p.rows_passed + 1,
        ..p
    }
}

/// The state with the album rows of the artist under work taken in: the cursor stands
/// at the first.
pub open spec fn after_albums(p: Progress, t: Seq<DiskArtist>, rows: Seq<RowKey>) -> Progress {
    Progress {
        album_seen: Seq::new(t[p.artist].albums.len(), |l: int| false),
        albums: rows,
        album_pos: 0,
        listing: true,
        new_albums: Seq::empty(),
        new_album_pos: 0,
        kept_albums: 0,
        ..p
    }
}

/// The state with the album row under the cursor deleted: the cursor has passed it.
pub open spec fn after_album_gone(p: Progress) -> Progress {
    Progress { album_pos: p.album_pos + 1, ..p }
}

/// The state with the song rows of the album under work taken in: which of them to
/// delete and which songs to add is settled.
pub open spec fn after_songs(p: Progress, t: Seq<DiskArtist>, rows: Seq<RowKey>) -> Progress {
    Progress {
        songs: rows,
        song_deletes: stale(rows, song_paths(t[p.artist].albums[p.album])),
        song_delete_pos: 0,
        song_adds: missing(t[p.artist].albums[p.album].songs, row_keys(rows)),
        ..p
    }
}

/// The state with one more song row deleted.
pub open spec fn after_song_gone(p: Progress) -> Progress {
    Progress { song_delete_pos: p.song_delete_pos + 1, ..p }
}

/// The state with a new album stored: all its songs on disk are to be added.
pub open spec fn after_album_added(p: Progress, t: Seq<DiskArtist>, id: u128) -> Progress {
    Progress {
        album_seen: p.album_seen.update(p.album, true),
        album_id: id,
        songs: Seq::empty(),
        song_deletes: Seq::empty(),
        song_delete_pos: 0,
        song_adds: t[p.artist].albums[p.album].songs,
        ..p
    }
}

/// The state with a new artist stored: all its albums on disk are to be added.
pub open spec fn after_artist_added(p: Progress, t: Seq<DiskArtist>, id: u128) -> Progress {
    let seen = Seq::new(t[p.artist].albums.len(), |l: int| false);
    Progress {
        artist_seen: p.artist_seen.update(p.artist, true),
        artist_id: id,
        album_seen: seen,
        albums: Seq::empty(),
        album_pos: 0,
        listing: false,
        new_albums: unseen(seen),
        new_album_pos: 0,
        kept_albums: 0,
        ..p
    }
}

/// What follows a page of artist rows.
#[verifier::opaque]
pub open spec fn on_page(p: Progress, t: Seq<DiskArtist>, rows: Seq<RowKey>, has_more: bool) -> (
    Progress,
    Request,
) {
    resume_artists(after_page(p, rows, has_more), t)
}

/// What follows the deletion of the artist row under the cursor.
#[verifier::opaque]
pub open spec fn on_artist_gone(p: Progress, t: Seq<DiskArtist>) -> (Progress, Request) {
    resume_artists(after_artist_gone(p), t)
}

/// What follows the album rows of the artist under work.
#[verifier::opaque]
pub open spec fn on_albums(p: Progress, t: Seq<DiskArtist>, rows: Seq<RowKey>) -> (
    Progress,
    Request,
) {
    resume_albums(after_albums(p, t, rows), t)
}

/// What follows the deletion of the album row under the cursor.
#[verifier::opaque]
pub open spec fn on_album_gone(p: Progress, t: Seq<DiskArtist>) -> (Progress, Request) {
    resume_albums(after_album_gone(p), t)
}

/// What follows the song rows of the album under work.
#[verifier::opaque]
pub open spec fn on_songs(p: Progress, t: Seq<DiskArtist>, rows: Seq<RowKey>) -> (
    Progress,
    Request,
) {
    resume_songs(after_songs(p, t, rows), t)
}

/// What follows the deletion of a song row: the next.
#[verifier::opaque]
pub open spec fn on_song_gone(p: Progress, t: Seq<DiskArtist>) -> (Progress, Request) {
    resume_songs(after_song_gone(p), t)
}

/// What follows a new album's identifier.
#[verifier::opaque]
pub open spec fn on_album_added(p: Progress, t: Seq<DiskArtist>, id: u128) -> (Progress, Request) {
    resume_songs(after_album_added(p, t, id), t)
}

/// What follows a new artist's identifier.
#[verifier::opaque]
pub open spec fn on_artist_added(p: Progress, t: Seq<DiskArtist>, id: u128) -> (Progress, Request) {
    add_albums(after_artist_added(p, t, id), t)
}

/// The state and the request that follow an answer. An answer that does not fit what the
/// machine waits for, and a failure, end the run early.
pub open spec fn advance(p: Progress, t: Seq<DiskArtist>, e: Reply) -> (Progress, Request) {
    match (p.awaiting, e) {
        (Awaiting::Page, Reply::Artists { rows, has_more }) => on_page(p, t, rows, has_more),
        (Awaiting::ArtistGone, Reply::Done) => on_artist_gone(p, t),
        (Awaiting::Albums, Reply::Albums { rows }) => on_albums(p, t, rows),
        (Awaiting::AlbumGone, Reply::Done) => on_album_gone(p, t),
        (Awaiting::Songs, Reply::Songs { rows }) => on_songs(p, t, rows),
        (Awaiting::SongGone, Reply::Done) => on_song_gone(p, t),
        (Awaiting::SongsAdded, Reply::Done) => finish_album(p, t),
        (Awaiting::AlbumAdded, Reply::Added { id }) => on_album_added(p, t, id),
        (Awaiting::ArtistAdded, Reply::Added { id }) => on_artist_added(p, t, id),
        _ => aborted(p),
    }
}

/// What holds of the cursors at the level of artists in every state.
pub open spec fn artists_in_range(p: Progress, t: Seq<DiskArtist>) -> bool {
    &&& well_formed(t)
    &&& p.artist_seen.len() == t.len()
    &&& 0 <= p.song_delete_pos <= p.song_deletes.len()
    &&& 0 <= p.page_pos <= p.page.len()
    &&& 0 <= p.new_artist_pos <= p.new_artists.len()
    &&& forall|n: int| 0 <= n < p.new_artists.len() ==> 0 <= (#[trigger] p.new_artists[n]) < t.len()
}

/// What holds of the cursors while an artist is under work.
pub open spec fn artist_in_range(p: Progress, t: Seq<DiskArtist>) -> bool {
    &&& artists_in_range(p, t)
    &&& 0 <= p.artist < t.len()
    &&& if p.scanning {
        p.page_pos < p.page.len()
    } else {
        p.new_artist_pos < p.new_artists.len()
    }
}

/// What holds of the cursors at the level of albums while an artist is under work.
pub open spec fn albums_in_range(p: Progress, t: Seq<DiskArtist>) -> bool {
    &&& artist_in_range(p, t)
    &&& p.album_seen.len() == t[p.artist].albums.len()
    &&& 0 <= p.album_pos <= p.albums.len()
    &&& 0 <= p.new_album_pos <= p.new_albums.len()
    &&& forall|n: int|
        0 <= n < p.new_albums.len() ==> 0 <= (#[trigger] p.new_albums[n]) < t[p.artist].albums.len()
}

/// What holds of the cursors while an album is under work.
pub open spec fn album_in_range(p: Progress, t: Seq<DiskArtist>) -> bool {
    &&& albums_in_range(p, t)
    &&& 0 <= p.album < t[p.artist].albums.len()
    &&& if p.listing {
        p.album_pos < p.albums.len()
    } else {
        p.new_album_pos < p.new_albums.len()
    }
}

/// What holds of the machine's cursors in each state.
pub open spec fn consistent(p: Progress, t: Seq<DiskArtist>) -> bool {
    match p.awaiting {
        Awaiting::Page => artists_in_range(p, t) && p.scanning,
        Awaiting::ArtistGone => artists_in_range(p, t) && p.scanning && p.page_pos < p.page.len(),
        Awaiting::Albums => artist_in_range(p, t) && p.scanning,
        Awaiting::ArtistAdded => artist_in_range(p, t) && !p.scanning && p.artist
            == p.new_artists[p.new_artist_pos],
        Awaiting::AlbumGone => albums_in_range(p, t) && p.listing && p.album_pos < p.albums.len(),
        Awaiting::Songs => album_in_range(p, t) && p.listing,
        Awaiting::AlbumAdded => album_in_range(p, t) && !p.listing && p.album
            == p.new_albums[p.new_album_pos],
        Awaiting::SongGone => album_in_range(p, t) && p.song_delete_pos < p.song_deletes.len(),
        Awaiting::SongsAdded => album_in_range(p, t),
        Awaiting::Nothing => true,
    }
}

/// The machine. It owns the tree of what is on disk and remembers how far it has come.
pub struct Reconciler {
    tree: DiskTree,
    awaiting: Awaiting,
    failed: bool,
    artist_seen: Vec<bool>,
    page: Vec<Artist>,
    page_pos: usize,
    more_pages: bool,
    scanning: bool,
    passed: Option<u128>,
    new_artists: Vec<usize>,
    new_artist_pos: usize,
    artist: usize,
    artist_id: u128,
    kept_artists: Ghost<nat>,
    rows_passed: Ghost<nat>,
    album_seen: Vec<bool>,
    albums: Vec<Album>,
    album_pos: usize,
    listing: bool,
    new_albums: Vec<usize>,
    new_album_pos: usize,
    album: usize,
    album_id: u128,
    kept_albums: Ghost<nat>,
    songs: Ghost<Seq<RowKey>>,
    song_deletes: Vec<u128>,
    song_delete_pos: usize,
    song_adds: Vec<SongModel>,
    inserts: u64,
    deletes: u64,
}

/// Places as numbers.
pub open spec fn places(v: Seq<usize>) -> Seq<int> {
    Seq::new(v.len(), |n: int| v[n] as int)
}

impl View for Reconciler {
    type V = Progress;

    closed spec fn view(&self) -> Progress {
        Progress {
            awaiting: self.awaiting,
            failed: self.failed,
            artist_seen: self.artist_seen@,
            page: artist_rows(self.page@),
            page_pos: self.page_pos as int,
            more_pages: self.more_pages,
            scanning: self.scanning,
            passed: self.passed,
            new_artists: places(self.new_artists@),
            new_artist_pos: self.new_artist_pos as int,
            artist: self.artist as int,
            artist_id: self.artist_id,
            kept_artists: self.kept_artists@,
            rows_passed: self.rows_passed@,
            album_seen: self.album_seen@,
            albums: album_rows(self.albums@),
            album_pos: self.album_pos as int,
            listing: self.listing,
            new_albums: places(self.new_albums@),
            new_album_pos: self.new_album_pos as int,
            album: self.album as int,
            album_id: self.album_id,
            kept_albums: self.kept_albums@,
            songs: self.songs@,
            song_deletes: self.song_deletes@,
            song_delete_pos: self.song_delete_pos as int,
            song_adds: crate::tree::songs_of(self.song_adds@),
            inserts: self.inserts,
            deletes: self.deletes,
        }
    }
}

fn bumped(n: u64) -> (r: u64)
    ensures
        r == bump(n),
{
    if n == u64::MAX {
        n
    } else {
        n + 1
    }
}

fn copy_songs(songs: &Vec<SongModel>) -> (r: Vec<SongModel>)
    ensures
        crate::tree::songs_of(r@) == crate::tree::songs_of(songs@),
{
    let mut out: Vec<SongModel> = Vec::new();
    let mut k: usize = 0;
    while k < songs.len()
        invariant
            k <= songs.len(),
            out@.len() == k,
            forall|x: int| 0 <= x < k ==> (#[trigger] out@[x])@ == songs@[x]@,
        decreases songs.len() - k,
    {
        out.push(songs[k].clone());
        k += 1;
    }
    assert(crate::tree::songs_of(out@) =~= crate::tree::songs_of(songs@));
    out
}

impl Reconciler {
    /// The tree of what is on disk, as the machine holds it.
    pub closed spec fn disk(&self) -> Seq<DiskArtist> {
        self.tree@
    }

    /// Whether the run has ended, early or not.
    pub fn is_over(&self) -> (r: bool)
        ensures
            r == (self@.awaiting == Awaiting::Nothing),
    {
        match self.awaiting {
            Awaiting::Nothing => true,
            _ => false,
        }
    }

    /// Whether the run has ended early.
    pub fn has_failed(&self) -> (r: bool)
        ensures
            r == self@.failed,
    {
        self.failed
    }

    /// How many writes the machine has asked for so far.
    pub fn report(&self) -> (r: SyncReport)
        ensures
            r.inserts == self@.inserts,
            r.deletes == self@.deletes,
    {
        SyncReport { inserts: self.inserts, deletes: self.deletes }
    }

    /// A machine for this tree, and its first request: the first page of stored artists.
    pub fn begin(tree: DiskTree) -> (r: (Reconciler, Action))
        requires
            well_formed(tree@),
        ensures
            r.0.disk() == tree@,
            r.0@ == begin(tree@).0,
            r.1@ == begin(tree@).1,
            consistent(r.0@, tree@),
    {
        let seen = crate::plan::no_flags(tree.artists.len());
        let m = Reconciler {
            tree,
            awaiting: Awaiting::Page,
            failed: false,
            artist_seen: seen,
            page: Vec::new(),
            page_pos: 0,
            more_pages: false,
            scanning: true,
            passed: None,
            new_artists: Vec::new(),
            new_artist_pos: 0,
            artist: 0,
            artist_id: 0,
            kept_artists: Ghost(0),
            rows_passed: Ghost(0),
            album_seen: Vec::new(),
            albums: Vec::new(),
            album_pos: 0,
            listing: false,
            new_albums: Vec::new(),
            new_album_pos: 0,
            album: 0,
            album_id: 0,
            kept_albums: Ghost(0),
            songs: Ghost(Seq::empty()),
            song_deletes: Vec::new(),
            song_delete_pos: 0,
            song_adds: Vec::new(),
            inserts: 0,
            deletes: 0,
        };
        proof {
            let p = m@;
            let q = begin(m.tree@).0;
            assert(p.artist_seen =~= q.artist_seen);
            assert(p.page =~= q.page);
            assert(p.new_artists =~= q.new_artists);
            assert(p.albums =~= q.albums);
            assert(p.new_albums =~= q.new_albums);
            assert(p.song_adds =~= q.song_adds);
            assert(p.album_seen =~= q.album_seen);
            assert(p.song_deletes =~= q.song_deletes);
        }
        (m, Action::ListArtists { after: None })
    }

    fn abort(&mut self) -> (r: Action)
        ensures
            final(self).disk() == old(self).disk(),
            (final(self)@, r@) == aborted(old(self)@),
            consistent(final(self)@, final(self).disk()),
    {
        self.awaiting = Awaiting::Nothing;
        self.failed = true;
        Action::Abort
    }

    fn add_artists(&mut self) -> (r: Action)
        requires
            artists_in_range(old(self)@, old(self).disk()),
            !old(self)@.scanning,
        ensures
            final(self).disk() == old(self).disk(),
            (final(self)@, r@) == add_artists(old(self)@, old(self).disk()),
            consistent(final(self)@, final(self).disk()),
    {
        reveal(add_artists);
        if self.new_artist_pos < self.new_artists.len() {
            let j = self.new_artists[self.new_artist_pos];
            assert(places(self.new_artists@)[self.new_artist_pos as int] == j);
            self.awaiting = Awaiting::ArtistAdded;
            self.artist = j;
            self.inserts = bumped(self.inserts);
            Action::AddArtist { artist: self.tree.artists[j].artist.clone() }
        } else {
            self.awaiting = Awaiting::Nothing;
            Action::Finish
        }
    }

    fn resume_artists(&mut self) -> (r: Action)
        requires
            artists_in_range(old(self)@, old(self).disk()),
        ensures
            final(self).disk() == old(self).disk(),
            (final(self)@, r@) == resume_artists(old(self)@, old(self).disk()),
            consistent(final(self)@, final(self).disk()),
    {
        reveal(resume_artists);
        if !self.scanning {
            return self.add_artists();
        }
        if self.page_pos < self.page.len() {
            let id = self.page[self.page_pos].id;
            let found = self.tree.find_artist(&self.page[self.page_pos].name);
            proof {
                crate::keys::lemma_position(
                    artist_names(self.tree@),
                    self.page@[self.page_pos as int].name@,
                );
            }
            match found {
                Some(j) if !self.artist_seen[j] => {
                    self.artist_seen.set(j, true);
                    self.awaiting = Awaiting::Albums;
                    self.artist = j;
                    self.artist_id = id;
                    Action::ListAlbums { artist_id: id }
                },
                _ => {
                    self.awaiting = Awaiting::ArtistGone;
                    self.deletes = bumped(self.deletes);
                    Action::DeleteArtist { id }
                },
            }
        } else if self.more_pages {
            if self.page.len() == 0 {
                self.abort()
            } else {
                self.awaiting = Awaiting::Page;
                Action::ListArtists { after: self.passed }
            }
        } else {
            self.scanning = false;
            self.new_artists = crate::keys::list_unseen(&self.artist_seen);
            self.new_artist_pos = 0;
            proof {
                crate::keys::lemma_unseen(self.artist_seen@);
                assert(places(self.new_artists@) =~= unseen(self.artist_seen@));
            }
            self.add_artists()
        }
    }
}

impl Reconciler {
    fn finish_artist(&mut self) -> (r: Action)
        requires
            artist_in_range(old(self)@, old(self).disk()),
        ensures
            final(self).disk() == old(self).disk(),
            (final(self)@, r@) == finish_artist(old(self)@, old(self).disk()),
            consistent(final(self)@, final(self).disk()),
    {
        reveal(finish_artist);
        if self.scanning {
            assert(self@.page.len() == self.page.len());
            self.page_pos = self.page_pos + 1;
            self.passed = Some(self.artist_id);
            self.rows_passed = Ghost((self.rows_passed@ + 1) as nat);
        } else {
            assert(self@.new_artists.len() == self.new_artists.len());
            self.new_artist_pos = self.new_artist_pos + 1;
        }
        self.kept_artists = Ghost((self.kept_artists@ + 1) as nat);
        self.resume_artists()
    }

    fn add_albums(&mut self) -> (r: Action)
        requires
            albums_in_range(old(self)@, old(self).disk()),
            !old(self)@.listing,
        ensures
            final(self).disk() == old(self).disk(),
            (final(self)@, r@) == add_albums(old(self)@, old(self).disk()),
            consistent(final(self)@, final(self).disk()),
    {
        reveal(add_albums);
        if self.new_album_pos < self.new_albums.len() {
            let l = self.new_albums[self.new_album_pos];
            assert(places(self.new_albums@)[self.new_album_pos as int] == l);
            self.awaiting = Awaiting::AlbumAdded;
            self.album = l;
            self.inserts = bumped(self.inserts);
            Action::AddAlbum {
                artist_id: self.artist_id,
                album: self.tree.artists[self.artist].albums[l].album.clone(),
            }
        } else {
            self.finish_artist()
        }
    }

    fn resume_albums(&mut self) -> (r: Action)
        requires
            albums_in_range(old(self)@, old(self).disk()),
        ensures
            final(self).disk() == old(self).disk(),
            (final(self)@, r@) == resume_albums(old(self)@, old(self).disk()),
            consistent(final(self)@, final(self).disk()),
    {
        reveal(resume_albums);
        if !self.listing {
            return self.add_albums();
        }
        if self.album_pos < self.albums.len() {
            let id = self.albums[self.album_pos].id;
            let found = self.tree.artists[self.artist].find_album(&self.albums[self.album_pos].name);
            proof {
                crate::keys::lemma_position(
                    album_names(self.tree@[self.artist as int]),
                    self.albums@[self.album_pos as int].name@,
                );
            }
            match found {
                Some(l) if !self.album_seen[l] => {
                    self.album_seen.set(l, true);
                    self.awaiting = Awaiting::Songs;
                    self.album = l;
                    self.album_id = id;
                    Action::ListSongs { album_id: id }
                },
                _ => {
                    self.awaiting = Awaiting::AlbumGone;
                    self.deletes = bumped(self.deletes);
                    Action::DeleteAlbum { id }
                },
            }
        } else {
            self.listing = false;
            self.new_albums = crate::keys::list_unseen(&self.album_seen);
            self.new_album_pos = 0;
            proof {
                crate::keys::lemma_unseen(self.album_seen@);
                assert(places(self.new_albums@) =~= unseen(self.album_seen@));
            }
            self.add_albums()
        }
    }

    fn finish_album(&mut self) -> (r: Action)
        requires
            album_in_range(old(self)@, old(self).disk()),
        ensures
            final(self).disk() == old(self).disk(),
            (final(self)@, r@) == finish_album(old(self)@, old(self).disk()),
            consistent(final(self)@, final(self).disk()),
    {
        reveal(finish_album);
        if self.listing {
            assert(self@.albums.len() == self.albums.len());
            self.album_pos = self.album_pos + 1;
        } else {
            assert(self@.new_albums.len() == self.new_albums.len());
            self.new_album_pos = self.new_album_pos + 1;
        }
        self.kept_albums = Ghost((self.kept_albums@ + 1) as nat);
        self.resume_albums()
    }

    fn resume_songs(&mut self) -> (r: Action)
        requires
            album_in_range(old(self)@, old(self).disk()),
        ensures
            final(self).disk() == old(self).disk(),
            (final(self)@, r@) == resume_songs(old(self)@, old(self).disk()),
            consistent(final(self)@, final(self).disk()),
    {
        reveal(resume_songs);
        if self.song_delete_pos < self.song_deletes.len() {
            self.awaiting = Awaiting::SongGone;
            self.deletes = bumped(self.deletes);
            Action::DeleteSong { id: self.song_deletes[self.song_delete_pos] }
        } else if self.song_adds.len() > 0 {
            self.awaiting = Awaiting::SongsAdded;
            self.inserts = bumped(self.inserts);
            Action::AddSongs { album_id: self.album_id, songs: copy_songs(&self.song_adds) }
        } else {
            self.finish_album()
        }
    }

    fn on_page(&mut self, rows: Vec<Artist>, has_more: bool) -> (r: Action)
        requires
            consistent(old(self)@, old(self).disk()),
            old(self)@.awaiting == Awaiting::Page,
        ensures
            final(self).disk() == old(self).disk(),
            (final(self)@, r@) == on_page(old(self)@, old(self).disk(), artist_rows(rows@), has_more),
            consistent(final(self)@, final(self).disk()),
    {
        reveal(on_page);
        self.page = rows;
        self.page_pos = 0;
        self.more_pages = has_more;
        self.resume_artists()
    }

    fn on_artist_gone(&mut self) -> (r: Action)
        requires
            consistent(old(self)@, old(self).disk()),
            old(self)@.awaiting == Awaiting::ArtistGone,
        ensures
            final(self).disk() == old(self).disk(),
            (final(self)@, r@) == on_artist_gone(old(self)@, old(self).disk()),
            consistent(final(self)@, final(self).disk()),
    {
        reveal(on_artist_gone);
        assert(self@.page.len() == self.page.len());
        self.passed = Some(self.page[self.page_pos].id);
        self.page_pos = self.page_pos + 1;
        self.rows_passed = Ghost((self.rows_passed@ + 1) as nat);
        self.resume_artists()
    }

    fn on_albums(&mut self, rows: Vec<Album>) -> (r: Action)
        requires
            consistent(old(self)@, old(self).disk()),
            old(self)@.awaiting == Awaiting::Albums,
        ensures
            final(self).disk() == old(self).disk(),
            (final(self)@, r@) == on_albums(old(self)@, old(self).disk(), album_rows(rows@)),
            consistent(final(self)@, final(self).disk()),
    {
        reveal(on_albums);
        self.album_seen = crate::plan::no_flags(self.tree.artists[self.artist].albums.len());
        self.albums = rows;
        self.album_pos = 0;
        self.listing = true;
        self.new_albums = Vec::new();
        self.new_album_pos = 0;
        self.kept_albums = Ghost(0);
        proof {
            assert(self.album_seen@ =~= Seq::new(
                self.tree@[self.artist as int].albums.len(),
                |l: int| false,
            ));
            assert(places(self.new_albums@) =~= Seq::<int>::empty());
        }
        self.resume_albums()
    }

    fn on_album_gone(&mut self) -> (r: Action)
        requires
            consistent(old(self)@, old(self).disk()),
            old(self)@.awaiting == Awaiting::AlbumGone,
        ensures
            final(self).disk() == old(self).disk(),
            (final(self)@, r@) == on_album_gone(old(self)@, old(self).disk()),
            consistent(final(self)@, final(self).disk()),
    {
        reveal(on_album_gone);
        assert(self@.albums.len() == self.albums.len());
        self.album_pos = self.album_pos + 1;
        self.resume_albums()
    }

    fn on_songs(&mut self, rows: Vec<Song>) -> (r: Action)
        requires
            consistent(old(self)@, old(self).disk()),
            old(self)@.awaiting == Awaiting::Songs,
        ensures
            final(self).disk() == old(self).disk(),
            (final(self)@, r@) == on_songs(old(self)@, old(self).disk(), song_rows(rows@)),
            consistent(final(self)@, final(self).disk()),
    {
        reveal(on_songs);
        assert(crate::tree::artist_well_formed(self.tree@[self.artist as int]));
        assert(crate::tree::album_well_formed(
            self.tree@[self.artist as int].albums[self.album as int],
        ));
        let plan = crate::plan::plan_songs(&self.tree.artists[self.artist].albums[self.album], &rows);
        self.songs = Ghost(song_rows(rows@));
        self.song_deletes = plan.delete;
        self.song_delete_pos = 0;
        self.song_adds = plan.insert;
        self.resume_songs()
    }

    fn on_song_gone(&mut self) -> (r: Action)
        requires
            consistent(old(self)@, old(self).disk()),
            old(self)@.awaiting == Awaiting::SongGone,
        ensures
            final(self).disk() == old(self).disk(),
            (final(self)@, r@) == on_song_gone(old(self)@, old(self).disk()),
            consistent(final(self)@, final(self).disk()),
    {
        reveal(on_song_gone);
        assert(self@.song_deletes.len() == self.song_deletes.len());
        self.song_delete_pos = self.song_delete_pos + 1;
        self.resume_songs()
    }

    fn on_album_added(&mut self, id: u128) -> (r: Action)
        requires
            consistent(old(self)@, old(self).disk()),
            old(self)@.awaiting == Awaiting::AlbumAdded,
        ensures
            final(self).disk() == old(self).disk(),
            (final(self)@, r@) == on_album_added(old(self)@, old(self).disk(), id),
            consistent(final(self)@, final(self).disk()),
    {
        reveal(on_album_added);
        self.album_seen.set(self.album, true);
        self.album_id = id;
        self.songs = Ghost(Seq::empty());
        self.song_deletes = Vec::new();
        self.song_delete_pos = 0;
        self.song_adds = copy_songs(&self.tree.artists[self.artist].albums[self.album].songs);
        self.resume_songs()
    }

    fn on_artist_added(&mut self, id: u128) -> (r: Action)
        requires
            consistent(old(self)@, old(self).disk()),
            old(self)@.awaiting == Awaiting::ArtistAdded,
        ensures
            final(self).disk() == old(self).disk(),
            (final(self)@, r@) == on_artist_added(old(self)@, old(self).disk(), id),
            consistent(final(self)@, final(self).disk()),
    {
        reveal(on_artist_added);
        self.artist_seen.set(self.artist, true);
        self.artist_id = id;
        self.album_seen = crate::plan::no_flags(self.tree.artists[self.artist].albums.len());
        self.albums = Vec::new();
        self.album_pos = 0;
        self.listing = false;
        self.new_albums = crate::keys::list_unseen(&self.album_seen);
        self.new_album_pos = 0;
        self.kept_albums = Ghost(0);
        proof {
            let seen = Seq::new(self.tree@[self.artist as int].albums.len(), |l: int| false);
            assert(self.album_seen@ =~= seen);
            crate::keys::lemma_unseen(seen);
            assert(places(self.new_albums@) =~= unseen(seen));
            assert(album_rows(self.albums@) =~= Seq::<RowKey>::empty());
        }
        self.add_albums()
    }

    /// Takes the answer to the last request and gives the next request. After `Finish`
    /// or `Abort` the run is over, and every further answer gives `Abort`.
    pub fn step(&mut self, event: Event) -> (r: Action)
        requires
            consistent(old(self)@, old(self).disk()),
        ensures
            final(self).disk() == old(self).disk(),
            (final(self)@, r@) == advance(old(self)@, old(self).disk(), event@),
            consistent(final(self)@, final(self).disk()),
    {
        match (self.awaiting, event) {
            (Awaiting::Page, Event::Artists { rows, has_more }) => self.on_page(rows, has_more),
            (Awaiting::ArtistGone, Event::Done) => self.on_artist_gone(),
            (Awaiting::Albums, Event::Albums { rows }) => self.on_albums(rows),
            (Awaiting::AlbumGone, Event::Done) => self.on_album_gone(),
            (Awaiting::Songs, Event::Songs { rows }) => self.on_songs(rows),
            (Awaiting::SongGone, Event::Done) => self.on_song_gone(),
            (Awaiting::SongsAdded, Event::Done) => self.finish_album(),
            (Awaiting::AlbumAdded, Event::Added { id }) => self.on_album_added(id),
            (Awaiting::ArtistAdded, Event::Added { id }) => self.on_artist_added(id),
            _ => self.abort(),
        }
    }
}

} // verus!
