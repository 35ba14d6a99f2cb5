//! Bringing the stored catalog in step with what is on disk: the machine's requests are
//! performed on the catalog one by one until the machine has nothing left to ask.

use crate::entities::{Album, Artist, DiskSong, Song, SongModel};
use crate::keys::Key;
use crate::plan::RowKey;
use crate::queries::{
    add_album, add_artist, add_songs, album_place, delete_album_by_id, delete_artist_by_id,
    delete_song_by_id, get_albums_by_artist_id, get_songs_by_album_id, holds_album, holds_artist,
    holds_song, page_start, search_artists_paginated, song_place, well_kept, with_album,
    with_artist, with_songs, without_album, without_artist, without_song, AlbumRec, ArtistRec,
    Catalog, Stored,
};
use crate::convergence::{inv, lemma_begin, lemma_step, measure, mirrors, nearer, pending};
use crate::reconciler::{
    advance, album_rows, artist_rows, Action, Awaiting, Event, Reconciler, Reply, Request,
    SyncReport, PAGE_SIZE,
};
use crate::tree::{well_formed, DiskAlbum, DiskArtist, DiskTree};
use crate::plan::song_rows;
use vstd::prelude::*;

verus! {

/// The stored artists as matching reads them: by name.
pub open spec fn keyed_artists(artists: Seq<ArtistRec>) -> Seq<RowKey> {
    Seq::new(artists.len(), |i: int| RowKey { id: artists[i].id, key: artists[i].name })
}

/// The stored albums of an artist as matching reads them: by name.
pub open spec fn keyed_albums(artist: ArtistRec) -> Seq<RowKey> {
    Seq::new(artist.albums.len(), |j: int| RowKey { id: artist.albums[j].id, key: artist.albums[j].name })
}

/// The stored songs of an album as matching reads them: by path.
pub open spec fn keyed_songs(album: AlbumRec) -> Seq<RowKey> {
    Seq::new(album.songs.len(), |k: int| RowKey { id: album.songs[k].id, key: album.songs[k].song.path })
}

/// Where a page of [`PAGE_SIZE`] rows that begins at `start` ends among `n` rows.
pub open spec fn page_end(start: int, n: int) -> int {
    if start + PAGE_SIZE < n {
        start + PAGE_SIZE
    } else {
        n
    }
}

/// Whether `reply` and `after` are what the catalog `before` gives when `request` is
/// performed on it.
pub open spec fn answers(before: Stored, request: Request, after: Stored, reply: Reply) -> bool {
    match request {
        Request::ListArtists { after: token } => {
            let start = page_start(before.artists, token);
            let end = page_end(start, before.artists.len() as int);
            &&& after == before
            &&& reply == Reply::Artists {
                rows: keyed_artists(before.artists).subrange(start, end),
                has_more: end < before.artists.len(),
            }
        },
        Request::ListAlbums { artist_id } => {
            &&& after == before
            &&& reply is Albums
            &&& forall|i: int|
                0 <= i < before.artists.len() && (#[trigger] before.artists[i]).id == artist_id
                    ==> reply == Reply::Albums { rows: keyed_albums(before.artists[i]) }
            &&& !holds_artist(before.artists, artist_id) ==> reply == Reply::Albums {
                rows: Seq::empty(),
            }
        },
        Request::ListSongs { album_id } => {
            &&& after == before
            &&& reply is Songs
            &&& forall|i: int, j: int|
                album_place(before.artists, i, j) && (#[trigger] before.artists[i].albums[j]).id
                    == album_id ==> reply == Reply::Songs {
                    rows: keyed_songs(before.artists[i].albums[j]),
                }
            &&& !holds_album(before.artists, album_id) ==> reply == Reply::Songs {
                rows: Seq::empty(),
            }
        },
        Request::AddArtist { name } => {
            if before.next_id < u128::MAX {
                after == with_artist(before, name) && reply == Reply::Added { id: before.next_id }
            } else {
                after == before && reply == Reply::Failed
            }
        },
        Request::AddAlbum { artist_id, name, year } => {
            if holds_artist(before.artists, artist_id) && before.next_id < u128::MAX {
                &&& reply == Reply::Added { id: before.next_id }
                &&& forall|i: int|
                    0 <= i < before.artists.len() && (#[trigger] before.artists[i]).id == artist_id
                        ==> after == with_album(before, i, name, year)
            } else {
                after == before && reply == Reply::Failed
            }
        },
        Request::AddSongs { album_id, songs } => {
            if holds_album(before.artists, album_id) && before.next_id + songs.len() <= u128::MAX {
                &&& reply == Reply::Done
                &&& forall|i: int, j: int|
                    album_place(before.artists, i, j) && (#[trigger] before.artists[i].albums[j]).id
                        == album_id ==> after == with_songs(before, i, j, songs)
            } else {
                after == before && reply == Reply::Failed
            }
        },
        Request::DeleteSong { id } => {
            &&& reply == Reply::Done
            &&& forall|i: int, j: int, k: int|
                song_place(before.artists, i, j, k) && (#[trigger] before.artists[i].albums[j].songs[k]).id
                    == id ==> after == without_song(before, i, j, k)
            &&& !holds_song(before.artists, id) ==> after == before
        },
        Request::DeleteAlbum { id } => {
            &&& reply == Reply::Done
            &&& forall|i: int, j: int|
                album_place(before.artists, i, j) && (#[trigger] before.artists[i].albums[j]).id == id
                    ==> after == without_album(before, i, j)
            &&& !holds_album(before.artists, id) ==> after == before
        },
        Request::DeleteArtist { id } => {
            &&& reply == Reply::Done
            &&& forall|i: int|
                0 <= i < before.artists.len() && (#[trigger] before.artists[i]).id == id ==> after
                    == without_artist(before, i)
            &&& !holds_artist(before.artists, id) ==> after == before
        },
        Request::Finish => after == before && reply == Reply::Failed,
        Request::Abort => after == before && reply == Reply::Failed,
    }
}

/// Performs on the catalog what the machine asked for, and says how it ended. The end of
/// a run is nothing to perform: it is answered as a failure, and nothing changes.
pub fn perform(catalog: &mut Catalog, action: &Action) -> (event: Event)
    requires
        well_kept(old(catalog)@),
    ensures
        well_kept(final(catalog)@),
        answers(old(catalog)@, action@, final(catalog)@, event@),
{
    match action {
        Action::ListArtists { after } => {
            let page = search_artists_paginated(catalog, PAGE_SIZE, *after);
            proof {
                let start = page_start(catalog@.artists, *after);
                let end = page_end(start, catalog@.artists.len() as int);
                crate::queries::lemma_page_start_range(catalog@.artists, *after);
                assert(artist_rows(page.rows@) =~= keyed_artists(catalog@.artists).subrange(start, end));
            }
            Event::Artists { rows: page.rows, has_more: page.has_more }
        },
        Action::ListAlbums { artist_id } => {
            let rows = match get_albums_by_artist_id(catalog, *artist_id) {
                Some(rows) => rows,
                None => Vec::new(),
            };
            proof {
                assert forall|i: int|
                    0 <= i < catalog@.artists.len() && (#[trigger] catalog@.artists[i]).id
                        == *artist_id implies album_rows(rows@) == keyed_albums(
                    catalog@.artists[i],
                ) by {
                    assert(album_rows(rows@) =~= keyed_albums(catalog@.artists[i]));
                }
                if !holds_artist(catalog@.artists, *artist_id) {
                    assert(album_rows(rows@) =~= Seq::<RowKey>::empty());
                }
            }
            Event::Albums { rows }
        },
        Action::ListSongs { album_id } => {
            let rows = match get_songs_by_album_id(catalog, *album_id) {
                Some(rows) => rows,
                None => Vec::new(),
            };
            proof {
                assert forall|i: int, j: int|
                    album_place(catalog@.artists, i, j) && (#[trigger] catalog@.artists[i].albums[j]).id
                        == *album_id implies song_rows(rows@) == keyed_songs(
                    catalog@.artists[i].albums[j],
                ) by {
                    assert(song_rows(rows@) =~= keyed_songs(catalog@.artists[i].albums[j]));
                }
                if !holds_album(catalog@.artists, *album_id) {
                    assert(song_rows(rows@) =~= Seq::<RowKey>::empty());
                }
            }
            Event::Songs { rows }
        },
        Action::AddArtist { artist } => match add_artist(catalog, artist) {
            Ok(id) => Event::Added { id },
            Err(_) => Event::Failed,
        },
        Action::AddAlbum { artist_id, album } => match add_album(catalog, *artist_id, album) {
            Ok(id) => Event::Added { id },
            Err(_) => Event::Failed,
        },
        Action::AddSongs { album_id, songs } => match add_songs(catalog, *album_id, songs) {
            Ok(_) => Event::Done,
            Err(_) => Event::Failed,
        },
        Action::DeleteSong { id } => {
            delete_song_by_id(catalog, *id);
            Event::Done
        },
        Action::DeleteAlbum { id } => {
            delete_album_by_id(catalog, *id);
            Event::Done
        },
        Action::DeleteArtist { id } => {
            delete_artist_by_id(catalog, *id);
            Event::Done
        },
        Action::Finish => Event::Failed,
        Action::Abort => Event::Failed,
    }
}

/// Why a run ended early.
#[derive(Clone, Copy, Debug, PartialEq, Eq)]
pub enum SyncError {
    /// An operation on the catalog failed. What had been written before stays written.
    OperationFailed,
}

/// What a run has done to the catalog and what it reports, where it ended well: the
/// catalog keeps its rules and mirrors the tree; what was stored before and keeps its
/// place is still stored; no row from before is altered, and every row that the run
/// stored holds what is on disk; the playlist items are those of before whose song is
/// still stored; and where the catalog mirrored the tree already, it is as it was and
/// nothing was written.
pub open spec fn converged(
    t: Seq<DiskArtist>,
    before: Stored,
    after: Stored,
    report: SyncReport,
) -> bool {
    &&& well_kept(after)
    &&& mirrors(after.artists, t)
    &&& crate::retention::retains(before.artists, after.artists, t)
    &&& crate::faithful::faithful(before.artists, before.next_id, after.artists, t)
    &&& crate::faithful::links_follow(before, after)
    &&& mirrors(before.artists, t) ==> after == before && report.inserts == 0 && report.deletes
        == 0
}

/// What a run that ended early has left of the catalog: it keeps its rules; what was
/// stored before and keeps its place is still stored; no row from before is altered,
/// and every row that the run stored holds what is on disk; the playlist items are
/// those of before whose song is still stored.
pub open spec fn left_standing(t: Seq<DiskArtist>, before: Stored, after: Stored) -> bool {
    &&& well_kept(after)
    &&& crate::retention::retains(before.artists, after.artists, t)
    &&& crate::faithful::faithful(before.artists, before.next_id, after.artists, t)
    &&& crate::faithful::links_follow(before, after)
}

/// What a run leaves of the catalog and gives back, whichever way it ends. It ends
/// early only where the catalog did not mirror the tree and has no identifier left for
/// some artist, album or song on disk.
pub open spec fn run_leaves(
    t: Seq<DiskArtist>,
    before: Stored,
    after: Stored,
    r: Result<SyncReport, SyncError>,
) -> bool {
    match r {
        Ok(report) => converged(t, before, after, report),
        Err(_) => !mirrors(before.artists, t) && before.next_id + crate::budget::tree_rows(t)
            > u128::MAX && left_standing(t, before, after),
    }
}

/// Brings the catalog in step with the tree of what is on disk: stored artists, albums
/// and songs that are not on disk are deleted with all that stands below them, those
/// that are on disk stay as they are, and what is on disk and not stored is inserted.
/// The stored artists are read a page at a time, however many there are. The run fails
/// only where the catalog runs out of identifiers, which it cannot where it has one left
/// for every artist, album and song on disk; what was written before a failure stays
/// written.
pub fn sync_database(tree: DiskTree, catalog: &mut Catalog) -> (r: Result<SyncReport, SyncError>)
    requires
        well_formed(tree@),
        well_kept(old(catalog)@),
    ensures
        well_kept(final(catalog)@),
        run_leaves(tree@, old(catalog)@, final(catalog)@, r),
{
    let ghost t = tree@;
    let ghost c0 = catalog@;
    let (mut machine, mut action) = Reconciler::begin(tree);
    proof {
        lemma_begin(c0, t);
        crate::retention::lemma_k_begin(c0, t);
        crate::faithful::lemma_faithful_begin(c0, t);
        crate::budget::lemma_budget_begin(c0, t);
        crate::faithful::lemma_links_begin(c0);
    }
    while !machine.is_over()
        invariant
            t == tree@,
            c0 == old(catalog)@,
            machine.disk() == t,
            inv(machine@, catalog@, t, c0),
            crate::retention::kept(machine@, catalog@, t, c0),
            crate::faithful::faithful(c0.artists, c0.next_id, catalog@.artists, t),
            c0.next_id <= catalog@.next_id,
            well_kept(c0),
            crate::faithful::links_follow(c0, catalog@),
            c0.next_id + crate::budget::tree_rows(t) <= u128::MAX ==> crate::budget::within_budget(
                machine@,
                catalog@,
                t,
                c0,
            ),
            action@ == pending(machine@, t),
        decreases
            measure(machine@, catalog@, t).0,
            measure(machine@, catalog@, t).1,
            measure(machine@, catalog@, t).2,
            measure(machine@, catalog@, t).3,
            measure(machine@, catalog@, t).4,
    {
        let ghost p = machine@;
        let ghost c = catalog@;
        let event = perform(catalog, &action);
        let failed = match event {
            Event::Failed => true,
            _ => false,
        };
        if failed {
            proof {
                lemma_writes_only(p, c, t, c0, catalog@, event@);
                crate::retention::lemma_kept_retains(p, c, t, c0);
                if c0.next_id + crate::budget::tree_rows(t) <= u128::MAX {
                    crate::budget::lemma_budget_step(p, c, t, c0, catalog@, event@);
                }
            }
            return Err(SyncError::OperationFailed);
        }
        proof {
            lemma_step(p, c, t, c0, catalog@, event@);
            crate::retention::lemma_k_step(p, c, t, c0, catalog@, event@);
            crate::faithful::lemma_faithful_step(p, c, t, c0, catalog@, event@);
            crate::faithful::lemma_links_step(p, c, t, c0, catalog@, event@);
            if c0.next_id + crate::budget::tree_rows(t) <= u128::MAX {
                crate::budget::lemma_budget_step(p, c, t, c0, catalog@, event@);
            }
        }
        action = machine.step(event);
    }
    proof {
        crate::retention::lemma_kept_retains(machine@, catalog@, t, c0);
    }
    Ok(machine.report())
}

/// Only a write fails, and it leaves the catalog as it was; a run on a catalog that
/// mirrored the tree at the start writes nothing.
proof fn lemma_writes_only(
    p: crate::reconciler::Progress,
    c: Stored,
    t: Seq<DiskArtist>,
    c0: Stored,
    c2: Stored,
    reply: Reply,
)
    requires
        inv(p, c, t, c0),
        !(p.awaiting is Nothing),
        answers(c, pending(p, t), c2, reply),
        reply is Failed,
    ensures
        !mirrors(c0.artists, t),
        c2 == c,
{
}

/// A second run against the same tree writes nothing: where two runs follow each other
/// and both end well, the second reports no insert and no delete, and leaves the
/// catalog as the first left it.
pub proof fn lemma_second_run_writes_nothing(
    t: Seq<DiskArtist>,
    start: Stored,
    between: Stored,
    first: SyncReport,
    end: Stored,
    second: SyncReport,
)
    requires
        converged(t, start, between, first),
        converged(t, between, end, second),
    ensures
        second.inserts == 0,
        second.deletes == 0,
        end == between,
{
}

/// Whether an artist of this name is stored.
pub open spec fn stores_artist(artists: Seq<ArtistRec>, name: Key) -> bool {
    exists|i: int| 0 <= i < artists.len() && (#[trigger] artists[i]).name == name
}

/// Whether the artist of this name on disk has an album of this name.
pub open spec fn disk_has_album(t: Seq<DiskArtist>, artist: Key, album: Key) -> bool {
    exists|j: int, l: int|
        0 <= j < t.len() && 0 <= l < t[j].albums.len() && t[j].name == artist
            && (#[trigger] t[j].albums[l]).name == album
}

/// Whether the album of this name under the artist of this name on disk has a song at
/// this path.
pub open spec fn disk_has_song(t: Seq<DiskArtist>, artist: Key, album: Key, path: Key) -> bool {
    exists|j: int, l: int, s: int|
        0 <= j < t.len() && 0 <= l < t[j].albums.len() && 0 <= s < t[j].albums[l].songs.len()
            && t[j].name == artist && t[j].albums[l].name == album
            && (#[trigger] t[j].albums[l].songs[s]).path == path
}

/// After a run that ended well, each artist on disk is stored exactly once, and
/// nothing is stored but what is on disk: every stored artist, album and song has its
/// name or path on disk, under the artist and the album of its names.
pub proof fn lemma_converged_is_complete(
    t: Seq<DiskArtist>,
    before: Stored,
    after: Stored,
    report: SyncReport,
)
    requires
        well_formed(t),
        converged(t, before, after, report),
    ensures
        forall|j: int| 0 <= j < t.len() ==> stores_artist(after.artists, (#[trigger] t[j]).name),
        forall|a: int, b: int|
            0 <= a < b < after.artists.len() ==> after.artists[a].name != after.artists[b].name,
        forall|i: int, y: int|
            album_place(after.artists, i, y) ==> disk_has_album(
                t,
                after.artists[i].name,
                (#[trigger] after.artists[i].albums[y]).name,
            ),
        forall|i: int, y: int, k: int|
            song_place(after.artists, i, y, k) ==> disk_has_song(
                t,
                after.artists[i].name,
                after.artists[i].albums[y].name,
                (#[trigger] after.artists[i].albums[y].songs[k]).song.path,
            ),
{
    let names = crate::tree::artist_names(t);
    let have = crate::plan::row_keys(keyed_artists(after.artists));
    assert forall|j: int| 0 <= j < t.len() implies stores_artist(
        after.artists,
        (#[trigger] t[j]).name,
    ) by {
        assert(crate::keys::position(have, names[j]) is Some);
        crate::keys::lemma_position(have, names[j]);
        let i = crate::keys::position(have, names[j])->0;
        assert(after.artists[i].name == t[j].name);
    }
    assert forall|a: int, b: int| 0 <= a < b < after.artists.len() implies after.artists[a].name
        != after.artists[b].name by {
        assert(have[a] != have[b]);
    }
    assert forall|i: int, y: int| album_place(after.artists, i, y) implies disk_has_album(
        t,
        after.artists[i].name,
        (#[trigger] after.artists[i].albums[y]).name,
    ) by {
        lemma_album_on_disk(t, after.artists, i, y);
        let j = crate::keys::position(names, after.artists[i].name)->0;
        let l = crate::keys::position(
            crate::tree::album_names(t[j]),
            after.artists[i].albums[y].name,
        )->0;
        assert(t[j].albums[l].name == after.artists[i].albums[y].name);
    }
    assert forall|i: int, y: int, k: int| song_place(after.artists, i, y, k) implies disk_has_song(
        t,
        after.artists[i].name,
        after.artists[i].albums[y].name,
        (#[trigger] after.artists[i].albums[y].songs[k]).song.path,
    ) by {
        lemma_album_on_disk(t, after.artists, i, y);
        let node = after.artists[i];
        let j = crate::keys::position(names, node.name)->0;
        let album_names = crate::tree::album_names(t[j]);
        let l = crate::keys::position(album_names, node.albums[y].name)->0;
        let rec = node.albums[y];
        let da = t[j].albums[l];
        let paths = crate::tree::song_paths(da);
        let stored = crate::plan::row_keys(keyed_songs(rec));
        assert(crate::keys::position(paths, stored[k]) is Some);
        crate::keys::lemma_position(paths, stored[k]);
        let s = crate::keys::position(paths, stored[k])->0;
        assert(t[j].albums[l].songs[s].path == after.artists[i].albums[y].songs[k].song.path);
    }
}

/// Whether the stored artist at place `i`, and no other, has this name.
pub open spec fn only_artist(artists: Seq<ArtistRec>, name: Key, i: int) -> bool {
    &&& 0 <= i < artists.len()
    &&& forall|x: int| 0 <= x < artists.len() ==> ((#[trigger] artists[x]).name == name <==> x == i)
}

/// Whether the album at place `y` under the stored artist, and no other, has this name.
pub open spec fn only_album(rec: ArtistRec, name: Key, y: int) -> bool {
    &&& 0 <= y < rec.albums.len()
    &&& forall|x: int| 0 <= x < rec.albums.len() ==> ((#[trigger] rec.albums[x]).name == name <==> x == y)
}

/// Whether the song at place `k` in the stored album, and no other, is at this path.
pub open spec fn only_song(rec: AlbumRec, path: Key, k: int) -> bool {
    &&& 0 <= k < rec.songs.len()
    &&& forall|x: int|
        0 <= x < rec.songs.len() ==> ((#[trigger] rec.songs[x]).song.path == path <==> x == k)
}

/// Whether the stored album holds one song at this path.
pub open spec fn song_stored_once(rec: AlbumRec, path: Key) -> bool {
    exists|k: int| #[trigger] only_song(rec, path, k)
}

/// Whether the stored artist holds this album on disk once: one album of its name, and
/// in it one song at the path of each song on disk.
pub open spec fn album_stored_once(rec: ArtistRec, d: DiskAlbum) -> bool {
    exists|y: int| #[trigger]
        only_album(rec, d.name, y) && forall|s: int|
            0 <= s < d.songs.len() ==> song_stored_once(rec.albums[y], (#[trigger] d.songs[s]).path)
}

/// Whether the stored artists hold this artist on disk once: one artist of its name, at
/// place `i`, and under it each album on disk once.
pub open spec fn artist_stored_once(artists: Seq<ArtistRec>, d: DiskArtist, i: int) -> bool {
    &&& only_artist(artists, d.name, i)
    &&& forall|l: int| 0 <= l < d.albums.len() ==> album_stored_once(artists[i], #[trigger] d.albums[l])
}

/// In keys of which none stands twice, a key is found where it stands.
proof fn lemma_found_in_place(keys: Seq<Key>, j: int)
    requires
        crate::keys::distinct(keys),
        0 <= j < keys.len(),
    ensures
        crate::keys::position(keys, keys[j]) == Some(j),
{
    crate::keys::lemma_position(keys, keys[j]);
}

/// An artist that is on disk and was not stored is stored by a run on a catalog that has
/// an identifier left for every artist, album and song on disk: the run ends well, and
/// after it one stored artist has the name, under an identifier that the run has given
/// out, with one album for each album on disk and in each one song at the path of each
/// song on disk.
pub proof fn lemma_new_artist_is_stored(
    t: Seq<DiskArtist>,
    before: Stored,
    after: Stored,
    r: Result<SyncReport, SyncError>,
    j: int,
)
    requires
        well_formed(t),
        well_kept(before),
        run_leaves(t, before, after, r),
        before.next_id + crate::budget::tree_rows(t) <= u128::MAX,
        0 <= j < t.len(),
        !stores_artist(before.artists, t[j].name),
    ensures
        r is Ok,
        exists|i: int| #[trigger]
            artist_stored_once(after.artists, t[j], i) && after.artists[i].id >= before.next_id,
{
    let names = crate::tree::artist_names(t);
    let have = crate::plan::row_keys(keyed_artists(after.artists));
    assert(crate::keys::position(have, names[j]) is Some);
    crate::keys::lemma_position(have, names[j]);
    let i = crate::keys::position(have, names[j])->0;
    let rec = after.artists[i];
    assert(rec.name == t[j].name);
    assert forall|x: int| 0 <= x < after.artists.len() implies ((#[trigger] after.artists[x]).name
        == t[j].name <==> x == i) by {
        assert(have[x] == after.artists[x].name);
        assert(have[i] == t[j].name);
    }
    lemma_found_in_place(names, j);
    assert(crate::convergence::artist_mirrors(rec, t[j]));
    let album_names = crate::tree::album_names(t[j]);
    let albums = crate::plan::row_keys(keyed_albums(rec));
    assert forall|l: int| 0 <= l < t[j].albums.len() implies album_stored_once(
        rec,
        #[trigger] t[j].albums[l],
    ) by {
        let d = t[j].albums[l];
        assert(crate::keys::position(albums, album_names[l]) is Some);
        crate::keys::lemma_position(albums, album_names[l]);
        let y = crate::keys::position(albums, album_names[l])->0;
        assert(rec.albums[y].name == d.name);
        assert forall|x: int| 0 <= x < rec.albums.len() implies ((#[trigger] rec.albums[x]).name
            == d.name <==> x == y) by {
            assert(albums[x] == rec.albums[x].name);
            assert(albums[y] == d.name);
        }
        lemma_found_in_place(album_names, l);
        assert(crate::convergence::album_mirrors(rec.albums[y], d));
        let paths = crate::tree::song_paths(d);
        let songs = crate::plan::row_keys(keyed_songs(rec.albums[y]));
        assert forall|s: int| 0 <= s < d.songs.len() implies song_stored_once(
            rec.albums[y],
            (#[trigger] d.songs[s]).path,
        ) by {
            assert(crate::keys::position(songs, paths[s]) is Some);
            crate::keys::lemma_position(songs, paths[s]);
            let k = crate::keys::position(songs, paths[s])->0;
            assert forall|x: int| 0 <= x < rec.albums[y].songs.len() implies ((
            #[trigger] rec.albums[y].songs[x]).song.path == d.songs[s].path <==> x == k) by {
                assert(songs[x] == rec.albums[y].songs[x].song.path);
                assert(songs[k] == d.songs[s].path);
            }
            assert(only_song(rec.albums[y], d.songs[s].path, k));
        }
        assert(only_album(rec, d.name, y));
    }
    if rec.id < before.next_id {
        assert(crate::faithful::artist_faithful(before.artists, before.next_id, rec));
        assert(stores_artist(before.artists, t[j].name));
    }
    assert(artist_stored_once(after.artists, t[j], i));
}

/// In a catalog that mirrors the tree, a stored album stands under the artist of its
/// artist's name on disk, as the album of its own name.
proof fn lemma_album_on_disk(t: Seq<DiskArtist>, artists: Seq<ArtistRec>, i: int, y: int)
    requires
        mirrors(artists, t),
        album_place(artists, i, y),
    ensures
        ({
            let j = crate::keys::position(crate::tree::artist_names(t), artists[i].name);
            let l = crate::keys::position(
                crate::tree::album_names(t[j->0]),
                artists[i].albums[y].name,
            );
            &&& j is Some
            &&& 0 <= j->0 < t.len()
            &&& t[j->0].name == artists[i].name
            &&& l is Some
            &&& 0 <= l->0 < t[j->0].albums.len()
            &&& t[j->0].albums[l->0].name == artists[i].albums[y].name
            &&& crate::convergence::album_mirrors(artists[i].albums[y], t[j->0].albums[l->0])
        }),
{
    let names = crate::tree::artist_names(t);
    let have = crate::plan::row_keys(keyed_artists(artists));
    let node = artists[i];
    assert(crate::keys::position(names, have[i]) is Some);
    crate::keys::lemma_position(names, node.name);
    let j = crate::keys::position(names, node.name)->0;
    assert(crate::convergence::artist_mirrors(node, t[j]));
    let album_names = crate::tree::album_names(t[j]);
    let have_albums = crate::plan::row_keys(keyed_albums(node));
    assert(crate::keys::position(album_names, have_albums[y]) is Some);
    crate::keys::lemma_position(album_names, node.albums[y].name);
}

} // verus!
